//! How results are laid out in reminders and injections, word by word.

use crate::compose;
use crate::compose::{KindGroups, ResultModel, SearchResult};
use crate::kind;
use crate::kind::MemoryKind;
use crate::memory_context;
use crate::memory_context::{ConversationItem, MemoryModel, MemorySearchResult};
use crate::text;
use crate::text_facts;
use vstd::prelude::*;

verus! {

// ---------------------------------------------------------------------------
// Numbers
// ---------------------------------------------------------------------------

/// The number that some digits stand for.
pub open spec fn number_of(digits: Seq<char>) -> int
    decreases digits.len(),
{
    if digits.len() == 0 {
        0
    } else {
        10 * number_of(digits.drop_last()) + (digits.last() as int - 48)
    }
}

/// A number in decimal reads back as that number. It holds digits only, and
/// does not begin with a zero unless it is one digit.
pub proof fn law_decimal(n: nat)
    ensures
        number_of(text::decimal(n)) == n,
        text::decimal(n).len() > 0,
        forall|i: int|
            0 <= i < text::decimal(n).len() ==> 48 <= #[trigger] text::decimal(n)[i] as int <= 57,
        text::decimal(n).len() > 1 ==> text::decimal(n)[0] as int != 48,
        text::decimal(n).len() == 1 <==> n < 10,
    decreases n,
{
    let s = text::decimal(n);
    if n < 10 {
        assert(s.drop_last() =~= seq![]);
        assert(number_of(s.drop_last()) == 0);
    } else {
        law_decimal(n / 10);
        assert(s.drop_last() =~= text::decimal(n / 10));
    }
}

// ---------------------------------------------------------------------------
// Parts
// ---------------------------------------------------------------------------

/// Some texts, one after the other.
pub open spec fn concat(parts: Seq<Seq<char>>) -> Seq<char>
    decreases parts.len(),
{
    if parts.len() == 0 {
        seq![]
    } else {
        concat(parts.drop_last()) + parts.last()
    }
}

/// A snippet of up to five hundred characters is shown whole. Of a longer one
/// the first five hundred are, with three dots after them.
pub proof fn law_snippet(snippet: Seq<char>, i: int)
    ensures
        snippet.len() <= 500 ==> memory_context::shown_snippet(snippet) == snippet,
        snippet.len() > 500 ==> {
            &&& memory_context::shown_snippet(snippet).len() == 503
            &&& 0 <= i < 500 ==> memory_context::shown_snippet(snippet)[i] == snippet[i]
            &&& 500 <= i < 503 ==> memory_context::shown_snippet(snippet)[i] == '.'
        },
{
    reveal_strlit("...");
}

/// The texts that open reminders and injections, and the tags.
pub proof fn law_openings()
    ensures
        compose::composition_intro()
            == "## Relevant Memory from Past Sessions\n\nPrefer retrieved knowledge over model priors when they conflict. Compose across sections when the question needs more than one kind of knowledge.\n\n"@,
        memory_context::connector_intro()
            == "Active memory connector (mid-session re-retrieval). Core preferences/decisions in the system prompt still apply. Compose across the sections below for this multi-hop question.\n\n"@,
        memory_context::memory_title() == "## Relevant Memory from Past Sessions\n\n"@,
        memory_context::MEMORY_CONTEXT_OPEN_TAG@ == "<memory-context>"@,
        memory_context::MEMORY_CONTEXT_CLOSE_TAG@ == "</memory-context>"@,
{
}

/// A search result as it is modelled keeps what is shown of it.
pub proof fn law_memory_model(r: MemorySearchResult)
    ensures
        r@.path == r.path@,
        r@.start_line == r.start_line,
        r@.end_line == r.end_line,
        r@.score == r.score@,
        r@.snippet == r.snippet@,
        r@.source == r.source@,
        r@.kind == r.kind@,
        r@.staleness == r.staleness@,
{
}

// ---------------------------------------------------------------------------
// Memory blocks
// ---------------------------------------------------------------------------

/// The place, the age note and the snippet of a result, after what its first
/// line says.
pub open spec fn place(r: MemoryModel) -> Seq<char> {
    ")\n**File:** "@ + r.path + " (lines "@ + text::decimal(r.start_line as nat) + "-"@
        + text::decimal(r.end_line as nat) + ")\n"@ + r.staleness + "```\n"@
        + memory_context::shown_snippet(r.snippet) + "\n```\n\n"@
}

/// Whether a result does not tell its kind.
pub open spec fn tells_no_kind(r: MemoryModel) -> bool {
    r.kind.len() == 0 || r.kind == "unknown"@
}

/// The core as it is shown: without the white space around it, and with an
/// empty line after it.
pub open spec fn shown_core(core: Option<Seq<char>>) -> Seq<char> {
    match core {
        Some(s) => if text_facts::all_white(s) {
            seq![]
        } else {
            text::trim(s) + "\n\n"@
        },
        None => seq![],
    }
}

proof fn lemma_flat(results: Seq<MemoryModel>)
    ensures
        memory_context::flat_list(results) == concat(
            Seq::new(
                results.len(),
                |k: int|
                    "### Result "@ + text::decimal((k + 1) as nat) + " (score: "@ + results[k].score
                        + ", source: "@ + results[k].source + place(results[k]),
            ),
        ),
    decreases results.len(),
{
    let parts = Seq::new(
        results.len(),
        |k: int|
            "### Result "@ + text::decimal((k + 1) as nat) + " (score: "@ + results[k].score
                + ", source: "@ + results[k].source + place(results[k]),
    );
    if results.len() > 0 {
        let init = results.drop_last();
        lemma_flat(init);
        assert(parts.drop_last() =~= Seq::new(
            init.len(),
            |k: int|
                "### Result "@ + text::decimal((k + 1) as nat) + " (score: "@ + init[k].score
                    + ", source: "@ + init[k].source + place(init[k]),
        ));
    }
}

/// A memory block where no result tells its kind: the open tag on a line of
/// its own, the core, the title, each result under its number, its score and
/// its source, and the close tag.
pub proof fn law_flat_block(results: Seq<MemoryModel>, core: Option<Seq<char>>)
    requires
        results.len() > 0,
        forall|k: int| 0 <= k < results.len() ==> tells_no_kind(#[trigger] results[k]),
    ensures
        memory_context::memory_block(results, core) == "<memory-context>\n"@ + shown_core(core)
            + "## Relevant Memory from Past Sessions\n\n"@ + concat(
            Seq::new(
                results.len(),
                |k: int|
                    "### Result "@ + text::decimal((k + 1) as nat) + " (score: "@ + results[k].score
                        + ", source: "@ + results[k].source + place(results[k]),
            ),
        ) + "</memory-context>"@,
{
    reveal_strlit("<memory-context>");
    reveal_strlit("<memory-context>\n");
    assert("<memory-context>"@.push('\n') =~= "<memory-context>\n"@);
    lemma_flat(results);
    if let Some(s) = core {
        text_facts::lemma_blank(s);
    }
    assert(!memory_context::has_typed(results)) by {
        if memory_context::has_typed(results) {
            let k = choose|k: int|
                0 <= k < results.len() && memory_context::is_typed(#[trigger] results[k]);
            assert(tells_no_kind(results[k]));
        }
    }
    assert(memory_context::memory_block(results, core) =~= "<memory-context>\n"@ + shown_core(core)
        + "## Relevant Memory from Past Sessions\n\n"@ + memory_context::flat_list(results)
        + "</memory-context>"@);
}

/// A memory block without results holds the core alone.
pub proof fn law_block_without_results(core: Option<Seq<char>>)
    ensures
        memory_context::memory_block(seq![], core) == "<memory-context>\n"@ + shown_core(core)
            + "</memory-context>"@,
        memory_context::has_core(core) <==> shown_core(core).len() > 0,
{
    reveal_strlit("\n\n");
    reveal_strlit("<memory-context>");
    reveal_strlit("<memory-context>\n");
    assert("<memory-context>"@.push('\n') =~= "<memory-context>\n"@);
    if let Some(s) = core {
        text_facts::lemma_blank(s);
    }
    assert(memory_context::memory_block(seq![], core) =~= "<memory-context>\n"@ + shown_core(core)
        + "</memory-context>"@);
}

/// The text of the section of a kind.
pub open spec fn section_of(kind: Seq<char>, results: Seq<MemoryModel>) -> Seq<char> {
    if results.len() == 0 {
        seq![]
    } else {
        "### "@ + memory_context::section_heading(kind) + "\n\n"@ + concat(
            Seq::new(
                results.len(),
                |k: int|
                    text::decimal((k + 1) as nat) + ". (score: "@ + results[k].score + ", source: "@
                        + results[k].source + ", kind: "@ + kind + place(results[k]),
            ),
        )
    }
}

proof fn lemma_typed(kind: Seq<char>, results: Seq<MemoryModel>)
    ensures
        memory_context::typed_list(kind, results) == concat(
            Seq::new(
                results.len(),
                |k: int|
                    text::decimal((k + 1) as nat) + ". (score: "@ + results[k].score + ", source: "@
                        + results[k].source + ", kind: "@ + kind + place(results[k]),
            ),
        ),
    decreases results.len(),
{
    let parts = Seq::new(
        results.len(),
        |k: int|
            text::decimal((k + 1) as nat) + ". (score: "@ + results[k].score + ", source: "@
                + results[k].source + ", kind: "@ + kind + place(results[k]),
    );
    if results.len() > 0 {
        let init = results.drop_last();
        lemma_typed(kind, init);
        assert(parts.drop_last() =~= Seq::new(
            init.len(),
            |k: int|
                text::decimal((k + 1) as nat) + ". (score: "@ + init[k].score + ", source: "@
                    + init[k].source + ", kind: "@ + kind + place(init[k]),
        ));
    }
}

proof fn lemma_typed_sections(results: Seq<MemoryModel>, kinds: Seq<Seq<char>>)
    ensures
        memory_context::typed_sections(results, kinds) == concat(
            Seq::new(
                kinds.len(),
                |i: int| section_of(kinds[i], memory_context::shown_under(results, kinds[i])),
            ),
        ),
    decreases kinds.len(),
{
    let parts = Seq::new(
        kinds.len(),
        |i: int| section_of(kinds[i], memory_context::shown_under(results, kinds[i])),
    );
    if kinds.len() > 0 {
        let init = kinds.drop_last();
        lemma_typed_sections(results, init);
        lemma_typed(kinds.last(), memory_context::shown_under(results, kinds.last()));
        assert(parts.drop_last() =~= Seq::new(
            init.len(),
            |i: int| section_of(init[i], memory_context::shown_under(results, init[i])),
        ));
    }
}

/// The sections of a reminder: first those of the kinds with a place of their
/// own, then the others, and of each kind the results that tell it.
pub open spec fn all_sections(results: Seq<MemoryModel>) -> Seq<char> {
    let kinds = seq![
        "decision"@,
        "fact"@,
        "procedure"@,
        "preference"@,
        "entity"@,
        "episode"@,
        "unknown"@,
    ] + memory_context::other_kinds(results);
    concat(
        Seq::new(
            kinds.len(),
            |i: int| section_of(kinds[i], memory_context::shown_under(results, kinds[i])),
        ),
    )
}

/// A memory block where a result tells its kind: between the tags stand the
/// core, the title, the instruction to compose, and the sections.
pub proof fn law_typed_block(results: Seq<MemoryModel>, core: Option<Seq<char>>, k: int)
    requires
        0 <= k < results.len(),
        !tells_no_kind(results[k]),
    ensures
        memory_context::memory_block(results, core) == "<memory-context>\n"@ + shown_core(core)
            + "## Relevant Memory from Past Sessions\n\nPrefer retrieved knowledge over model priors when they conflict. Compose across sections when the question needs more than one kind of knowledge.\n\n"@
            + all_sections(results) + "</memory-context>"@,
{
    reveal_strlit("<memory-context>");
    reveal_strlit("<memory-context>\n");
    assert("<memory-context>"@.push('\n') =~= "<memory-context>\n"@);
    if let Some(s) = core {
        text_facts::lemma_blank(s);
    }
    assert(memory_context::is_typed(results[k]));
    lemma_typed_sections(
        results,
        memory_context::named_order() + memory_context::other_kinds(results),
    );
    assert(memory_context::memory_block(results, core) =~= "<memory-context>\n"@ + shown_core(core)
        + compose::composition_intro() + all_sections(results) + "</memory-context>"@);
}

/// The reminder in the middle of a session: its opening, the title, the
/// instruction to compose, and the sections, without the tags of a block.
pub proof fn law_connector_text(results: Seq<MemoryModel>)
    ensures
        memory_context::connector_intro() + memory_context::typed_body(results)
            == "Active memory connector (mid-session re-retrieval). Core preferences/decisions in the system prompt still apply. Compose across the sections below for this multi-hop question.\n\n"@
            + "## Relevant Memory from Past Sessions\n\nPrefer retrieved knowledge over model priors when they conflict. Compose across sections when the question needs more than one kind of knowledge.\n\n"@
            + all_sections(results),
{
    lemma_typed_sections(
        results,
        memory_context::named_order() + memory_context::other_kinds(results),
    );
    assert(memory_context::connector_intro() + memory_context::typed_body(results)
        =~= memory_context::connector_intro() + compose::composition_intro() + all_sections(
        results,
    ));
}

/// A result without a kind is shown as unknown, and any other under the kind
/// that it tells.
pub proof fn law_shown_kind(r: MemoryModel)
    ensures
        r.kind.len() == 0 ==> memory_context::shown_kind(r) == "unknown"@,
        r.kind.len() > 0 ==> memory_context::shown_kind(r) == r.kind,
{
}

/// A memory block is found exactly in a leading system message that holds the
/// open tag.
pub proof fn law_where_a_block_is_found(items: Seq<ConversationItem>)
    ensures
        memory_context::has_memory_block(items) <==> items.len() > 0 && items[0] is System
            && text::contains(items[0]->System_0.content@, "<memory-context>"@),
{
}

/// The order of strings is decided at the first place where they differ, and
/// where there is none, a string comes before the longer ones.
pub proof fn law_string_order(a: Seq<char>, b: Seq<char>)
    ensures
        memory_context::precedes(a, b) <==> exists|i: int|
            0 <= i <= a.len() && i < b.len() && #[trigger] a.take(i) == b.take(i) && (i == a.len()
                || a[i] < b[i]),
    decreases a.len(),
{
    if b.len() == 0 {
    } else if a.len() == 0 {
        assert(a.take(0) =~= b.take(0));
    } else if a[0] != b[0] {
        assert(a.take(0) =~= b.take(0));
        assert forall|i: int|
            0 <= i <= a.len() && i < b.len() && #[trigger] a.take(i) == b.take(i) implies i
            == 0 by {
            if i > 0 {
                assert(a.take(i)[0] == b.take(i)[0]);
            }
        }
    } else {
        let x = a.skip(1);
        let y = b.skip(1);
        law_string_order(x, y);
        if memory_context::precedes(x, y) {
            let i = choose|i: int|
                0 <= i <= x.len() && i < y.len() && #[trigger] x.take(i) == y.take(i) && (i
                    == x.len() || x[i] < y[i]);
            assert(a.take(i + 1) =~= seq![a[0]] + x.take(i));
            assert(b.take(i + 1) =~= seq![b[0]] + y.take(i));
            assert(i + 1 < a.len() ==> a[i + 1] == x[i]);
            assert(b[i + 1] == y[i]);
        }
        if exists|i: int|
            0 <= i <= a.len() && i < b.len() && #[trigger] a.take(i) == b.take(i) && (i == a.len()
                || a[i] < b[i]) {
            let i = choose|i: int|
                0 <= i <= a.len() && i < b.len() && #[trigger] a.take(i) == b.take(i) && (i
                    == a.len() || a[i] < b[i]);
            assert(i > 0);
            assert(x.take(i - 1) =~= a.take(i).skip(1));
            assert(y.take(i - 1) =~= b.take(i).skip(1));
            assert(i < a.len() ==> a[i] == x[i - 1]);
            assert(b[i] == y[i - 1]);
        }
    }
}

// ---------------------------------------------------------------------------
// Injections
// ---------------------------------------------------------------------------

/// The note on a status: none where it is active.
pub open spec fn note_on_status(status: Seq<char>) -> Seq<char> {
    if status == "active"@ {
        seq![]
    } else {
        ", status: "@ + status
    }
}

/// The section of a kind in an injection.
pub open spec fn injected_section(kind: MemoryKind, results: Seq<ResultModel>) -> Seq<char> {
    if results.len() == 0 {
        seq![]
    } else {
        "### "@ + kind::kind_section_heading(kind) + "\n\n"@ + concat(
            Seq::new(
                results.len(),
                |k: int|
                    text::decimal((k + 1) as nat) + ". (score: "@ + results[k].score + ", source: "@
                        + results[k].source + note_on_status(results[k].status) + ", kind: "@
                        + kind::kind_name(results[k].kind) + ")\n**File:** "@ + results[k].path
                        + " (lines "@ + text::decimal(results[k].start_line as nat) + "-"@
                        + text::decimal(results[k].end_line as nat) + ")\n```\n"@
                        + results[k].snippet + "\n```\n\n"@,
            ),
        )
    }
}

proof fn lemma_injected(results: Seq<ResultModel>, kind: MemoryKind)
    ensures
        compose::section_text(kind, results) == injected_section(kind, results),
    decreases results.len(),
{
    if results.len() > 0 {
        let init = results.drop_last();
        lemma_injected(init, kind);
        let parts = Seq::new(
            results.len(),
            |k: int|
                text::decimal((k + 1) as nat) + ". (score: "@ + results[k].score + ", source: "@
                    + results[k].source + note_on_status(results[k].status) + ", kind: "@
                    + kind::kind_name(results[k].kind) + ")\n**File:** "@ + results[k].path
                    + " (lines "@ + text::decimal(results[k].start_line as nat) + "-"@
                    + text::decimal(results[k].end_line as nat) + ")\n```\n"@ + results[k].snippet
                    + "\n```\n\n"@,
        );
        let before = Seq::new(
            init.len(),
            |k: int|
                text::decimal((k + 1) as nat) + ". (score: "@ + init[k].score + ", source: "@
                    + init[k].source + note_on_status(init[k].status) + ", kind: "@
                    + kind::kind_name(init[k].kind) + ")\n**File:** "@ + init[k].path + " (lines "@
                    + text::decimal(init[k].start_line as nat) + "-"@ + text::decimal(
                    init[k].end_line as nat,
                ) + ")\n```\n"@ + init[k].snippet + "\n```\n\n"@,
        );
        assert(parts.drop_last() =~= before);
        let title = "### "@ + kind::kind_section_heading(kind) + "\n\n"@;
        assert(compose::results_text(init) =~= concat(before)) by {
            if init.len() > 0 {
                assert(compose::section_text(kind, init).skip(title.len() as int)
                    =~= compose::results_text(init));
                assert(injected_section(kind, init).skip(title.len() as int) =~= concat(before));
            }
        }
    }
}

proof fn lemma_injected_sections(groups: KindGroups, kinds: Seq<MemoryKind>)
    ensures
        compose::kind_sections(groups, kinds) == concat(
            Seq::new(kinds.len(), |i: int| injected_section(kinds[i], groups.group(kinds[i]))),
        ),
    decreases kinds.len(),
{
    let parts = Seq::new(
        kinds.len(),
        |i: int| injected_section(kinds[i], groups.group(kinds[i])),
    );
    if kinds.len() > 0 {
        let init = kinds.drop_last();
        lemma_injected_sections(groups, init);
        lemma_injected(groups.group(kinds.last()), kinds.last());
        assert(parts.drop_last() =~= Seq::new(
            init.len(),
            |i: int| injected_section(init[i], groups.group(init[i])),
        ));
    }
}

/// An injection: the title, the instruction to compose, and the sections of
/// the kinds in their order, each with its results under their numbers.
pub proof fn law_injection(groups: KindGroups)
    ensures
        compose::composition_intro() + compose::kind_sections(groups, compose::section_order())
            == "## Relevant Memory from Past Sessions\n\nPrefer retrieved knowledge over model priors when they conflict. Compose across sections when the question needs more than one kind of knowledge.\n\n"@
            + concat(
            seq![
                injected_section(MemoryKind::Decision, groups.group(MemoryKind::Decision)),
                injected_section(MemoryKind::Fact, groups.group(MemoryKind::Fact)),
                injected_section(MemoryKind::Procedure, groups.group(MemoryKind::Procedure)),
                injected_section(MemoryKind::Preference, groups.group(MemoryKind::Preference)),
                injected_section(MemoryKind::Entity, groups.group(MemoryKind::Entity)),
                injected_section(MemoryKind::Episode, groups.group(MemoryKind::Episode)),
                injected_section(MemoryKind::Unknown, groups.group(MemoryKind::Unknown)),
            ],
        ),
{
    let kinds = compose::section_order();
    lemma_injected_sections(groups, kinds);
    assert(Seq::new(kinds.len(), |i: int| injected_section(kinds[i], groups.group(kinds[i])))
        =~= seq![
        injected_section(MemoryKind::Decision, groups.group(MemoryKind::Decision)),
        injected_section(MemoryKind::Fact, groups.group(MemoryKind::Fact)),
        injected_section(MemoryKind::Procedure, groups.group(MemoryKind::Procedure)),
        injected_section(MemoryKind::Preference, groups.group(MemoryKind::Preference)),
        injected_section(MemoryKind::Entity, groups.group(MemoryKind::Entity)),
        injected_section(MemoryKind::Episode, groups.group(MemoryKind::Episode)),
        injected_section(MemoryKind::Unknown, groups.group(MemoryKind::Unknown)),
    ]);
}

/// A result as it is modelled keeps what it is composed and shown by.
pub proof fn law_result_model(r: SearchResult)
    ensures
        r@.chunk_id == r.chunk_id@,
        r@.path == r.path@,
        r@.start_line == r.start_line,
        r@.end_line == r.end_line,
        r@.score == r.score@,
        r@.snippet == r.snippet@,
        r@.source == r.source@,
        r@.created_at == r.created_at,
        r@.kind == r.kind,
        r@.status == r.status@,
        r@.supersedes is Some <==> r.supersedes is Some,
        r.supersedes is Some ==> r@.supersedes->0 == r.supersedes->0@,
{
}

/// Lists are modelled item by item.
pub proof fn law_lists_of_results(memories: Seq<MemorySearchResult>, results: Seq<SearchResult>)
    ensures
        memory_context::memory_views(memories).len() == memories.len(),
        forall|i: int|
            0 <= i < memories.len() ==> #[trigger] memory_context::memory_views(memories)[i]
                == memories[i]@,
        compose::result_views(results).len() == results.len(),
        forall|i: int|
            0 <= i < results.len() ==> #[trigger] compose::result_views(results)[i] == results[i]@,
{
}

} // verus!
