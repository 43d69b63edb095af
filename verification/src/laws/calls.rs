//! What the functions of the library give back, call by call.

use crate::compose;
use crate::compose::{
    Candidate, CompositionalResults, KindBatch, KindGroups, SearchRequest, SearchResult,
};
use crate::kind;
use crate::kind::{ChunkMeta, MemoryKind};
use crate::laws::cap;
use crate::laws::entries;
use crate::laws::layout;
use crate::laws::markdown;
use crate::laws::notes;
use crate::laws::pins;
use crate::laws::promotion;
use crate::laws::retrieval;
use crate::laws::searches;
use crate::laws::storage;
use crate::laws::terms;
use crate::memory_context;
use crate::memory_context::{ConversationItem, MemorySearchResult};
use crate::promote;
use crate::promote::{CorePinConfig, CorePinSection, MemoryScope, StoreAction, TypedEntry};
use crate::schema;
use crate::schema::{MigrationStep, TypedColumn};
use crate::sections;
use crate::text;
use crate::text_facts;
use vstd::prelude::*;

verus! {

// ---------------------------------------------------------------------------
// Kinds
// ---------------------------------------------------------------------------

/// The name of a kind, in either form, is read back as that kind.
pub proof fn law_names_read_back(
    kind: MemoryKind,
    name: &'static str,
    owned: String,
    r: Result<MemoryKind, ()>,
)
    requires
        call_ensures(MemoryKind::as_str, (kind,), name),
        call_ensures(MemoryKind::to_string, (kind,), owned),
        call_ensures(MemoryKind::from_str, (name,), r),
    ensures
        r == Ok::<MemoryKind, ()>(kind),
        owned@ == name@,
{
    let empty = Seq::<char>::empty();
    lemma_name_is_small(kind);
    entries::law_kind_reads_back(kind, empty, name@, empty);
    assert(empty + name@ + empty =~= name@);
}

/// The names of kinds are in small letters.
proof fn lemma_name_is_small(kind: MemoryKind)
    ensures
        text::lowercase(kind::kind_name(kind)) == kind::kind_name(kind),
{
    reveal_strlit("fact");
    reveal_strlit("decision");
    reveal_strlit("preference");
    reveal_strlit("procedure");
    reveal_strlit("episode");
    reveal_strlit("entity");
    reveal_strlit("unknown");
    assert(text::lowercase(kind::kind_name(kind)) =~= kind::kind_name(kind));
}

/// A text that names no kind is refused, and one that names a kind is not.
pub proof fn law_what_is_read_as_a_kind(s: &str, r: Result<MemoryKind, ()>)
    requires
        call_ensures(MemoryKind::from_str, (s,), r),
    ensures
        r is Ok <==> kind::named_kind(text::lowercase(text::trim(s@))) is Some,
        r is Ok ==> kind::named_kind(text::lowercase(text::trim(s@))) == Some(r->Ok_0),
{
}

/// The typed kinds are all kinds but the unknown one, each once.
pub proof fn law_typed_kinds(r: &'static [MemoryKind])
    requires
        call_ensures(MemoryKind::all_typed, (), r),
    ensures
        r@.len() == 6,
        forall|kind: MemoryKind| #[trigger] r@.contains(kind) <==> kind != MemoryKind::Unknown,
        forall|i: int, j: int| 0 <= i < j < 6 ==> #[trigger] r@[i] != #[trigger] r@[j],
        r@ == compose::typed_kinds(),
{
    let all = r@;
    assert(all[0] == MemoryKind::Fact);
    assert(all[1] == MemoryKind::Decision);
    assert(all[2] == MemoryKind::Preference);
    assert(all[3] == MemoryKind::Procedure);
    assert(all[4] == MemoryKind::Episode);
    assert(all[5] == MemoryKind::Entity);
    assert forall|kind: MemoryKind| #[trigger] all.contains(kind) <==> kind
        != MemoryKind::Unknown by {
        match kind {
            MemoryKind::Fact => {},
            _ => {},
        }
    }
}

/// The metadata of a chunk of which nothing is known are those of an empty
/// chunk.
pub proof fn law_default_metadata(r: ChunkMeta)
    requires
        call_ensures(<ChunkMeta as Default>::default, (), r),
    ensures
        r.kind == MemoryKind::Unknown,
        r.status@ == "active"@,
        r.supersedes is None,
        r@ == kind::classification(seq![], "workspace"@),
{
    reveal_strlit("workspace");
    reveal_strlit("session");
    assert("workspace"@.len() != "session"@.len());
    assert(r@.supersedes is None);
    assert(kind::scanned(seq![]) =~= seq![]);
}

// ---------------------------------------------------------------------------
// Entries
// ---------------------------------------------------------------------------

/// A new entry is active, with the kind, the title and the body that it is
/// given, and neither an id nor something that it supersedes.
pub proof fn law_new_entry(kind: MemoryKind, title: &str, body: &str, r: TypedEntry)
    requires
        call_ensures(TypedEntry::new, (kind, title, body), r),
    ensures
        r.kind == kind,
        r.title@ == title@,
        r.body@ == body@,
        r.status@ == "active"@,
        r.id is None,
        r.supersedes is None,
{
    assert(r@.id is None);
    assert(r@.supersedes is None);
}

/// An entry that is given an id has it, and is otherwise as it was.
pub proof fn law_entry_with_id(e: TypedEntry, id: &str, r: TypedEntry)
    requires
        call_ensures(TypedEntry::with_id, (e, id), r),
    ensures
        r.id is Some && r.id->0@ == id@,
        r@.kind == e@.kind,
        r@.title == e@.title,
        r@.body == e@.body,
        r@.status == e@.status,
        r@.supersedes == e@.supersedes,
{
    assert(r@.id == Some(id@));
}

/// An entry that supersedes another names it, and is otherwise as it was.
pub proof fn law_superseding_entry(e: TypedEntry, old_id: &str, r: TypedEntry)
    requires
        call_ensures(TypedEntry::superseding, (e, old_id), r),
    ensures
        r.supersedes is Some && r.supersedes->0@ == old_id@,
        r@.kind == e@.kind,
        r@.title == e@.title,
        r@.body == e@.body,
        r@.status == e@.status,
        r@.id == e@.id,
{
    assert(r@.supersedes == Some(old_id@));
}

/// A superseded entry has that status, and is otherwise as it was.
pub proof fn law_superseded_entry(e: TypedEntry, r: TypedEntry)
    requires
        call_ensures(TypedEntry::superseded, (e,), r),
    ensures
        r.status@ == "superseded"@,
        r@.kind == e@.kind,
        r@.title == e@.title,
        r@.body == e@.body,
        r@.id == e@.id,
        r@.supersedes == e@.supersedes,
{
}

/// What an entry is written as is classified as that entry was, where nothing
/// in its body says otherwise.
pub proof fn law_written_entry_is_read(
    e: &TypedEntry,
    written: String,
    chunk: &str,
    source: &str,
    r: ChunkMeta,
)
    requires
        entries::is_writable(e@),
        entries::is_body_consistent(e@),
        call_ensures(TypedEntry::to_markdown, (e,), written),
        chunk@ == written@,
        source@ != "session"@,
        call_ensures(kind::classify_chunk, (chunk, source), r),
    ensures
        r.kind == e.kind,
        r.status@ == e.status@,
        e.supersedes is None ==> r.supersedes is None,
        e.supersedes is Some && !text::is_blank(e.supersedes->0@) ==> r.supersedes is Some
            && r.supersedes->0@ == text::trim(e.supersedes->0@),
{
    entries::law_consistent_entry_reads_back(e@, source@);
    assert(r@.supersedes == entries::read_supersedes(e@));
}

/// A chunk is classified by what is read of it.
pub proof fn law_classified_chunk(chunk: &str, source: &str, r: ChunkMeta)
    requires
        call_ensures(kind::classify_chunk, (chunk, source), r),
    ensures
        r@ == kind::classification(chunk@, source@),
        r.status@ == "active"@ || r.status@ == "superseded"@,
        source@ == "session"@ ==> r.kind != MemoryKind::Unknown,
{
    entries::law_status_of_a_chunk(chunk@, source@);
    entries::law_session_chunks_have_a_kind(chunk@, source@);
}

/// A note that is not blank is kept: the text ends with it, whatever kind it
/// is given. Of a blank note nothing is kept.
pub proof fn law_notes_are_kept(note: &str, kind: Option<MemoryKind>, r: String)
    requires
        call_ensures(promote::format_remember_note, (note, kind), r),
    ensures
        text_facts::all_white(note@) <==> r@.len() == 0,
        !text_facts::all_white(note@) ==> exists|header: Seq<char>|
            r@ == #[trigger] (header + text::trim(note@) + "\n"@),
{
    text_facts::lemma_blank(note@);
    if !text::is_blank(note@) {
        let e = promote::note_entry(note@, kind);
        text_facts::lemma_blank(e.body);
        text_facts::lemma_trim_twice(note@);
        notes::law_entry_text(e);
        let header = text::join_lines(promote::entry_header(e));
        reveal_strlit("\n");
        assert(text::trim(e.body).push('\n') =~= text::trim(note@) + "\n"@);
        assert(r@ =~= header + text::trim(note@) + "\n"@);
    }
}

// ---------------------------------------------------------------------------
// Promotion
// ---------------------------------------------------------------------------

/// The promotion of an entry appends its text to the file that it is for, and
/// does nothing else. An entry that supersedes nothing is promoted in the same
/// way whatever the file holds.
pub proof fn law_promoted_entry(
    scope: MemoryScope,
    entry: &TypedEntry,
    existing: Option<&str>,
    written: String,
    r: Vec<StoreAction>,
    other: Vec<StoreAction>,
)
    requires
        call_ensures(TypedEntry::to_markdown, (entry,), written),
        call_ensures(promote::promote_entry, (scope, entry), r),
        call_ensures(promote::promote_with_supersession, (scope, entry, existing), other),
    ensures
        r@.len() == 1,
        r@[0] matches StoreAction::Append { scope: to, text } && to == scope && text@ == written@,
        entry.supersedes is None || existing is None ==> promote::action_views(other@)
            == promote::action_views(r@),
{
    let models = promote::action_views(r@);
    assert(models.len() == r@.len());
    assert(models[0] == r@[0]@);
    assert(entry@.supersedes is None <==> entry.supersedes is None);
}

/// Whatever the promotion of an entry does, it does to the file that it is for,
/// and the text of the entry is appended last.
pub proof fn law_promoted_with_supersession(
    scope: MemoryScope,
    entry: &TypedEntry,
    existing: Option<&str>,
    written: String,
    r: Vec<StoreAction>,
)
    requires
        call_ensures(TypedEntry::to_markdown, (entry,), written),
        call_ensures(promote::promote_with_supersession, (scope, entry, existing), r),
    ensures
        r@.len() > 0,
        r@.last() matches StoreAction::Append { scope: to, text } && to == scope && text@
            == written@,
        forall|i: int|
            0 <= i < r@.len() - 1 ==> (#[trigger] r@[i] matches StoreAction::Rewrite {
                scope: to,
                ..
            } && to == scope),
{
    let models = promote::action_views(r@);
    promotion::law_promotion_keeps_to_its_scope(scope, entry@, text::optional_str(existing));
    assert(models.len() == r@.len());
    assert(models.last() == r@.last()@);
    assert forall|i: int| 0 <= i < r@.len() - 1 implies (#[trigger] r@[i] matches
        StoreAction::Rewrite { scope: to, .. } && to == scope) by {
        assert(models[i] == r@[i]@);
        assert(promotion::scope_of(models[i]) == scope);
        assert(models[i] is Rewrite);
    }
}

/// A text is marked exactly where the id is not empty and a section of it has
/// the id field with it.
pub proof fn law_marked_text(markdown: &str, id: &str, r: Option<String>)
    requires
        call_ensures(promote::mark_superseded_in_markdown, (markdown, id), r),
    ensures
        ({
            let all = sections::markdown_sections(markdown@);
            r is Some <==> id@.len() > 0 && exists|k: int|
                0 <= k < all.len() && terms::has_id_field(#[trigger] all[k].full(), id@)
        }),
        r is Some ==> promote::superseded_markdown(markdown@, id@) == Some(r->0@),
{
    markdown::law_when_something_is_marked(markdown@, id@);
    assert(text::optional(r) is Some <==> r is Some);
}

// ---------------------------------------------------------------------------
// Core pins
// ---------------------------------------------------------------------------

/// The core pins of a text keep within the limits that are configured, and
/// come by the priority of their kinds.
pub proof fn law_extracted_pins(markdown: &str, config: &CorePinConfig, r: Vec<CorePinSection>)
    requires
        call_ensures(promote::extract_core_pins, (markdown, config), r),
    ensures
        r@.len() <= config.max_sections,
        r@.len() <= 1 || pins::characters(promote::pin_views(r@)) <= config.max_chars,
        pins::is_ordered(promote::pin_views(r@), config.kind_priority@),
        promote::pin_views(r@) == promote::core_pins(
            markdown@,
            config.kind_priority@,
            config.max_chars as nat,
            config.max_sections as nat,
        ),
{
    let order = config.kind_priority@;
    pins::law_core_pins(markdown@, order, config.max_chars as nat, config.max_sections as nat);
    pins::law_core_pins_keep_the_budget(
        markdown@,
        order,
        config.max_chars as nat,
        config.max_sections as nat,
    );
    assert(promote::pin_views(r@).len() == r@.len());
}

/// The usual core: up to eight sections and two thousand characters, of
/// preferences, decisions and facts, in this order.
pub proof fn law_default_core(r: CorePinConfig)
    requires
        call_ensures(<CorePinConfig as Default>::default, (), r),
    ensures
        r.max_chars == 2000,
        r.max_sections == 8,
        r.kind_priority@.len() == 3,
        r.kind_priority@[0] == MemoryKind::Preference,
        r.kind_priority@[1] == MemoryKind::Decision,
        r.kind_priority@[2] == MemoryKind::Fact,
{
}

/// The core pins of the two files are those of one text that holds both.
pub proof fn law_loaded_pins(
    global: Option<&str>,
    workspace: Option<&str>,
    whole: &str,
    config: &CorePinConfig,
    r: Vec<CorePinSection>,
    pins: Vec<CorePinSection>,
)
    requires
        whole@ == promote::evergreen(text::optional_str(global), text::optional_str(workspace)),
        call_ensures(promote::load_core_pins, (global, workspace, config), r),
        call_ensures(promote::extract_core_pins, (whole, config), pins),
    ensures
        promote::pin_views(r@) == promote::pin_views(pins@),
{
}

/// There is a text to inject exactly where there is a pin.
pub proof fn law_pins_are_injected(pins: &[CorePinSection], r: Option<String>)
    requires
        call_ensures(promote::format_core_pin_injection, (pins,), r),
    ensures
        r is Some <==> pins@.len() > 0,
{
}

// ---------------------------------------------------------------------------
// Reminders
// ---------------------------------------------------------------------------

/// A reminder without a core is the one with no core, there is one exactly
/// where there is a result, and it is found in a system message again.
pub proof fn law_reminders(
    results: &[MemorySearchResult],
    r: Option<String>,
    with_none: Option<String>,
    connector: Option<String>,
)
    requires
        call_ensures(memory_context::format_memory_reminder, (results,), r),
        call_ensures(
            memory_context::format_memory_reminder_with_core,
            (results, None::<&str>),
            with_none,
        ),
        call_ensures(memory_context::format_mid_session_connector_reminder, (results,), connector),
    ensures
        r is Some <==> results@.len() > 0,
        with_none is Some <==> results@.len() > 0,
        connector is Some <==> results@.len() > 0,
        r is Some ==> r->0@ == with_none->0@,
{
}

/// With a core that is not blank there is always a reminder.
pub proof fn law_reminders_with_core(results: &[MemorySearchResult], core: &str, r: Option<String>)
    requires
        call_ensures(
            memory_context::format_memory_reminder_with_core,
            (results, Some(core)),
            r,
        ),
    ensures
        r is Some <==> results@.len() > 0 || !text_facts::all_white(core@),
{
    text_facts::lemma_blank(core@);
    assert(text::optional_str(Some(core)) == Some(core@));
}

/// A conversation that opens with a system message holds a memory block
/// exactly where the message does. One that opens with what the user said
/// holds none, whatever that is.
pub proof fn law_conversations(
    content: &str,
    system: ConversationItem,
    user: ConversationItem,
    items: &[ConversationItem],
    r: bool,
)
    requires
        call_ensures(ConversationItem::system, (content,), system),
        call_ensures(ConversationItem::user, (content,), user),
        call_ensures(memory_context::conversation_has_memory_context, (items,), r),
    ensures
        items@.len() == 0 ==> !r,
        items@.len() > 0 && items@[0] == system ==> r == text::contains(
            content@,
            "<memory-context>"@,
        ),
        items@.len() > 0 && items@[0] == user ==> !r,
{
    layout::law_where_a_block_is_found(items@);
}

/// Retrieval runs again for a query of ASCII characters exactly after the first
/// turn, where the query has at least twenty of them, white space around it not
/// counted, is no greeting and needs two different kinds.
pub proof fn law_retrieval_runs_again(query: &str, first_turn_done: bool, r: bool)
    requires
        call_ensures(memory_context::should_mid_session_connector, (query, first_turn_done), r),
    ensures
        r ==> first_turn_done && vstd::utf8::encode_utf8(text::trim(query@)).len() >= 20
            && searches::needs_two_kinds(text::trim(query@)),
        vstd::utf8::is_ascii_chars(text::trim(query@)) ==> (r <==> first_turn_done
            && vstd::utf8::encode_utf8(text::trim(query@)).len() >= 20
            && !memory_context::is_greeting_text(text::lowercase(text::trim(query@)))
            && searches::needs_two_kinds(text::trim(query@))),
{
    let q = text::trim(query@);
    searches::law_when_retrieval_runs_again(query@, first_turn_done, true);
    searches::law_when_retrieval_runs_again(query@, first_turn_done, false);
}

/// Where it is known whether a query is a greeting, nothing else of it decides
/// but its length and its kinds.
pub proof fn law_connector(query: &str, first_turn_done: bool, greeting: bool, r: bool)
    requires
        call_ensures(memory_context::connector_due, (query, first_turn_done, greeting), r),
    ensures
        r <==> first_turn_done && !greeting && vstd::utf8::encode_utf8(text::trim(query@)).len()
            >= 20 && searches::needs_two_kinds(text::trim(query@)),
{
    searches::law_when_retrieval_runs_again(query@, first_turn_done, greeting);
}

/// A message of ASCII characters is a greeting exactly where its small letters
/// are one.
pub proof fn law_greetings(message: &str, lowered: &str, r: bool, of_lowered: bool)
    requires
        vstd::utf8::is_ascii_chars(message@),
        lowered@ == text::lowercase(message@),
        call_ensures(memory_context::is_greeting, (message,), r),
        call_ensures(memory_context::is_lowered_greeting, (lowered,), of_lowered),
    ensures
        r == of_lowered,
        r == memory_context::is_greeting_text(text::lowercase(message@)),
{
}

// ---------------------------------------------------------------------------
// Searches
// ---------------------------------------------------------------------------

/// Without a kind there is one search over all kinds. With kinds there is one
/// for each, in their order.
pub proof fn law_planned_searches(
    requested: &Vec<MemoryKind>,
    max_results: usize,
    r: Vec<SearchRequest>,
)
    requires
        call_ensures(compose::plan_searches, (requested, max_results), r),
    ensures
        requested@.len() == 0 ==> {
            &&& r@.len() == 1
            &&& r@[0].filter.kinds is None
            &&& r@[0].filter.exclude_superseded
            &&& r@[0].max_results == max_results
            &&& !r@[0].lower_floor
        },
        requested@.len() > 0 ==> r@.len() == requested@.len() && forall|i: int|
            0 <= i < requested@.len() ==> {
                &&& (#[trigger] r@[i]).filter.kinds is Some
                &&& r@[i].filter.kinds->0@ == seq![requested@[i]]
                &&& r@[i].filter.exclude_superseded
                &&& r@[i].max_results == 2
                &&& r@[i].lower_floor
            },
{
    assert forall|i: int| 0 <= i < requested@.len() implies ({
        &&& (#[trigger] r@[i]).filter.kinds is Some
        &&& r@[i].filter.kinds->0@ == seq![requested@[i]]
        &&& r@[i].filter.exclude_superseded
        &&& r@[i].max_results == 2
        &&& r@[i].lower_floor
    }) by {
        assert(compose::is_kind_search(r@[i], requested@[i]));
    }
    if requested@.len() == 0 {
        assert(compose::is_untyped_search(r@[0], max_results));
    }
}

/// Three times as many candidates are asked for as results.
pub proof fn law_candidate_limit(max_results: usize, r: usize)
    requires
        call_ensures(compose::candidate_limit, (max_results,), r),
    ensures
        r == max_results + max_results + max_results,
{
}

/// Merging keeps the first list as it is, in front.
pub proof fn law_merging_keeps_the_first<T>(
    all: Vec<Candidate<T>>,
    evergreen: Vec<Candidate<T>>,
    r: Vec<Candidate<T>>,
)
    requires
        call_ensures(compose::merge_candidates::<T>, (all, evergreen), r),
    ensures
        r@.len() >= all@.len(),
        forall|i: int| 0 <= i < all@.len() ==> #[trigger] r@[i] == all@[i],
        forall|i: int|
            all@.len() <= i < r@.len() ==> !compose::has_candidate(
                all@,
                (#[trigger] r@[i]).chunk_id@,
            ),
{
    retrieval::law_merged_candidates(all@, evergreen@);
}

/// A query is compositional exactly where it is decomposed into two kinds or
/// more.
pub proof fn law_compositional_queries(query: &str, kinds: Vec<MemoryKind>, r: bool)
    requires
        call_ensures(compose::decompose_query, (query,), kinds),
        call_ensures(compose::is_compositional_query, (query,), r),
    ensures
        r <==> kinds@.len() >= 2,
        kinds@ == compose::query_kinds(query@),
{
}

/// An embedding is asked for where vectors can be searched and something can
/// compute them. It is the first one that came back, and there is none after a
/// failure.
pub proof fn law_embeddings<T, E>(
    vec_available: bool,
    has_provider: bool,
    asked: bool,
    found: Vec<T>,
    error: E,
    r: Option<T>,
    failed: Option<T>,
)
    requires
        call_ensures(compose::should_embed, (vec_available, has_provider), asked),
        call_ensures(compose::query_embedding::<T, E>, (Ok(found),), r),
        call_ensures(compose::query_embedding::<T, E>, (Err(error),), failed),
    ensures
        asked <==> vec_available && has_provider,
        r is Some <==> found@.len() > 0,
        r is Some ==> r->0 == found@[0],
        failed is None,
{
}

// ---------------------------------------------------------------------------
// Composed results
// ---------------------------------------------------------------------------

/// New groups are empty. A group is given back exactly where it holds a result,
/// and as it is.
pub proof fn law_groups(
    fresh: KindGroups,
    groups: KindGroups,
    kind: MemoryKind,
    r: Option<&Vec<SearchResult>>,
)
    requires
        call_ensures(KindGroups::new, (), fresh),
        call_ensures(KindGroups::get, (&groups, kind), r),
    ensures
        fresh.group(kind).len() == 0,
        r is Some <==> groups.group(kind).len() > 0,
        r is Some ==> compose::result_views(r->0@) == groups.group(kind),
{
}

/// Results without a search are empty.
pub proof fn law_no_results(r: CompositionalResults, empty: bool, len: usize)
    requires
        call_ensures(<CompositionalResults as Default>::default, (), r),
        call_ensures(CompositionalResults::is_empty, (&r,), empty),
        call_ensures(CompositionalResults::len, (&r,), len),
    ensures
        empty,
        len == 0,
        r.requested_kinds@.len() == 0,
        forall|kind: MemoryKind| (#[trigger] r.by_kind.group(kind)).len() == 0,
{
}

/// Results are empty exactly where there are none, and the number of them is
/// that of the flat list. There is a text to inject exactly where they are not
/// empty.
pub proof fn law_number_of_results(
    results: CompositionalResults,
    empty: bool,
    len: usize,
    injected: Option<String>,
)
    requires
        call_ensures(CompositionalResults::is_empty, (&results,), empty),
        call_ensures(CompositionalResults::len, (&results,), len),
        call_ensures(compose::format_compositional_injection, (&results,), injected),
    ensures
        len == results.flat@.len(),
        empty <==> len == 0,
        injected is Some <==> !empty,
{
}

/// What an untyped search returned is all there, in section order, and grouped
/// by its own kinds; no kind was asked for.
pub proof fn law_untyped_results(
    results: Vec<SearchResult>,
    kind: MemoryKind,
    r: CompositionalResults,
)
    requires
        call_ensures(compose::compose_untyped, (results,), r),
    ensures
        r.requested_kinds@.len() == 0,
        r.flat@.len() == results@.len(),
        compose::of_kind(compose::result_views(r.flat@), kind) == compose::of_kind(
            compose::result_views(results@),
            kind,
        ),
        r.by_kind.group(kind) == compose::of_kind(compose::result_views(results@), kind),
{
    let models = compose::result_views(results@);
    cap::law_section_order_keeps_results(models, kind);
    assert(compose::result_views(r.flat@).len() == r.flat@.len());
}

/// What typed searches returned is composed under the kinds that they were
/// for, in their order, and within the number of results.
pub proof fn law_typed_results(batches: &Vec<KindBatch>, max_results: usize, r: CompositionalResults)
    requires
        call_ensures(compose::compose_typed, (batches, max_results), r),
    ensures
        r.requested_kinds@.len() == batches@.len(),
        forall|i: int|
            0 <= i < batches@.len() ==> #[trigger] r.requested_kinds@[i] == batches@[i].kind,
        r.flat@.len() <= max_results,
{
    retrieval::law_composed_results(compose::all_tagged(batches@), max_results as nat);
    assert(compose::result_views(r.flat@).len() == r.flat@.len());
}

// ---------------------------------------------------------------------------
// Storage
// ---------------------------------------------------------------------------

/// A column that a migration adds is defined as in a fresh database.
pub proof fn law_added_column(
    column: TypedColumn,
    dimensions: usize,
    vec_available: bool,
    sql: &'static str,
    fresh: String,
)
    requires
        call_ensures(MigrationStep::sql, (MigrationStep::AddColumn(column),), sql),
        call_ensures(schema::schema_sql, (dimensions, vec_available), fresh),
    ensures
        exists|definition: Seq<char>|
            sql@ == #[trigger] ("ALTER TABLE chunks ADD COLUMN "@ + definition) && text::contains(
                fresh@,
                definition,
            ),
{
    storage::law_added_columns_have_defaults(column);
    storage::law_schema(dimensions as nat, vec_available, column);
    let definition = storage::column_definition(column);
    assert(sql@ == "ALTER TABLE chunks ADD COLUMN "@ + definition);
}

/// The steps of a migration end with the record of the version, which alone has
/// parameters: the key and the version.
pub proof fn law_planned_migration(
    columns: &[String],
    column: TypedColumn,
    steps: Vec<MigrationStep>,
    params: Vec<String>,
)
    requires
        call_ensures(schema::plan_migration, (columns,), steps),
        call_ensures(MigrationStep::params, (MigrationStep::RecordVersion,), params),
    ensures
        steps@.len() > 0,
        steps@.last() == MigrationStep::RecordVersion,
        steps@.contains(MigrationStep::AddColumn(column)) <==> columns@.len() > 0
            && !schema::string_views(columns@).contains(schema::column_name(column)),
        params@.len() == 2,
        params@[0]@ == "schema_version"@,
        params@[1]@ == text::decimal(2),
{
    storage::law_migration_steps(schema::string_views(columns@), column);
    storage::law_other_steps();
    let models = schema::string_views(params@);
    assert(models.len() == params@.len());
    assert(models[0] == params@[0]@);
    assert(models[1] == params@[1]@);
}

/// The query for the columns of a table.
pub proof fn law_table_info(table: &str, r: String)
    requires
        call_ensures(schema::table_info_sql, (table,), r),
    ensures
        r@ == "PRAGMA table_info("@ + table@ + ")"@,
{
}

} // verus!
