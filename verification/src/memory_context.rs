//! Memory search results as reminder text.
//!
//! The text is injected when a session starts, after the context was
//! compacted, and in the middle of a session where a question needs more than
//! one kind of knowledge.

use crate::compose;
use crate::compose::is_compositional_query;
use crate::text;
use crate::text::{
    append_chars, append_decimal, clip_chars, contains_text, drop_while_chars, from_chars, is_text,
    to_chars, trim_chars, utf8_len, CharSet,
};
use vstd::prelude::*;

verus! {

/// The tag that opens a memory block.
pub const MEMORY_CONTEXT_OPEN_TAG: &'static str = "<memory-context>";

/// The tag that closes a memory block.
pub const MEMORY_CONTEXT_CLOSE_TAG: &'static str = "</memory-context>";

/// The most characters that are shown of a snippet.
pub const SNIPPET_MAX_CHARS: usize = 500;

/// Queries that are shorter than this, in bytes of UTF-8, trigger no
/// retrieval in the middle of a session.
pub const CONNECTOR_MIN_BYTES: usize = 20;

// ---------------------------------------------------------------------------
// Conversations
// ---------------------------------------------------------------------------

/// A system message.
#[derive(Debug, Clone, PartialEq, Eq)]
pub struct SystemMessage {
    pub content: String,
}

/// An item of a conversation.
#[derive(Debug, Clone, PartialEq, Eq)]
pub enum ConversationItem {
    /// A system message.
    System(SystemMessage),
    /// What the user said.
    User(String),
    /// Anything else: answers, tool calls and their results.
    Other,
}

impl ConversationItem {
    /// A system message with this content.
    pub fn system(content: &str) -> (r: ConversationItem)
        ensures
            r matches ConversationItem::System(message) && message.content@ == content@,
    {
        ConversationItem::System(SystemMessage { content: content.to_owned() })
    }

    /// A message of the user.
    pub fn user(text: &str) -> (r: ConversationItem)
        ensures
            r matches ConversationItem::User(said) && said@ == text@,
    {
        ConversationItem::User(text.to_owned())
    }
}

/// Whether a conversation opens with a system message that holds a memory
/// block.
pub open spec fn has_memory_block(items: Seq<ConversationItem>) -> bool {
    items.len() > 0 && match items[0] {
        ConversationItem::System(message) => text::contains(
            message.content@,
            MEMORY_CONTEXT_OPEN_TAG@,
        ),
        _ => false,
    }
}

/// Whether a memory block is already persisted in the leading system message.
/// It is then reused as it is: a new one would change the prefix of the
/// system prompt.
pub fn conversation_has_memory_context(items: &[ConversationItem]) -> (r: bool)
    ensures
        r == has_memory_block(items@),
{
    if items.len() == 0 {
        return false;
    }
    match &items[0] {
        ConversationItem::System(message) => {
            let content = to_chars(message.content.as_str());
            contains_text(content.as_slice(), MEMORY_CONTEXT_OPEN_TAG)
        },
        _ => false,
    }
}

// ---------------------------------------------------------------------------
// Search results
// ---------------------------------------------------------------------------

/// A result of the memory search tool.
#[derive(Debug, Clone, PartialEq, Eq)]
pub struct MemorySearchResult {
    pub chunk_id: String,
    pub path: String,
    pub start_line: usize,
    pub end_line: usize,
    /// The relevance score, rendered with two decimals.
    pub score: String,
    pub snippet: String,
    pub source: String,
    pub created_at: Option<i64>,
    /// The name of the kind; empty where it is not known.
    pub kind: String,
    pub supersedes: Option<String>,
    pub status: String,
    /// A note on the age of the result, closed by a line feed; empty where
    /// there is nothing to note.
    pub staleness: String,
}

/// What is shown of a [`MemorySearchResult`].
#[verifier::ext_equal]
pub struct MemoryModel {
    pub path: Seq<char>,
    pub start_line: usize,
    pub end_line: usize,
    pub score: Seq<char>,
    pub snippet: Seq<char>,
    pub source: Seq<char>,
    pub kind: Seq<char>,
    pub staleness: Seq<char>,
}

impl View for MemorySearchResult {
    type V = MemoryModel;

    open spec fn view(&self) -> MemoryModel {
        MemoryModel {
            path: self.path@,
            start_line: self.start_line,
            end_line: self.end_line,
            score: self.score@,
            snippet: self.snippet@,
            source: self.source@,
            kind: self.kind@,
            staleness: self.staleness@,
        }
    }
}

/// The models of some results.
pub open spec fn memory_views(results: Seq<MemorySearchResult>) -> Seq<MemoryModel> {
    Seq::new(results.len(), |i: int| results[i]@)
}

/// A snippet, cut with an ellipsis where it is long.
pub open spec fn shown_snippet(snippet: Seq<char>) -> Seq<char> {
    if snippet.len() > SNIPPET_MAX_CHARS {
        snippet.take(SNIPPET_MAX_CHARS as int) + "..."@
    } else {
        snippet
    }
}

/// The place, the age note and the snippet of a result.
pub open spec fn location_text(r: MemoryModel) -> Seq<char> {
    ")\n**File:** "@ + r.path + " (lines "@ + text::decimal(r.start_line as nat) + "-"@
        + text::decimal(r.end_line as nat) + ")\n"@ + r.staleness + "```\n"@ + shown_snippet(
        r.snippet,
    ) + "\n```\n\n"@
}

/// Formats the place, the age note and the snippet of a result.
fn format_location(r: &MemorySearchResult) -> (out: String)
    ensures
        out@ == location_text(r@),
{
    let mut out = ")\n**File:** ".to_owned();
    out.append(r.path.as_str());
    out.append(" (lines ");
    append_decimal(&mut out, r.start_line);
    out.append("-");
    append_decimal(&mut out, r.end_line);
    out.append(")\n");
    out.append(r.staleness.as_str());
    out.append("```\n");
    let ghost head = out@;
    let snippet = to_chars(r.snippet.as_str());
    append_chars(&mut out, clip_chars(snippet.as_slice(), SNIPPET_MAX_CHARS));
    if snippet.len() > SNIPPET_MAX_CHARS {
        out.append("...");
    }
    assert(out@ =~= head + shown_snippet(r.snippet@));
    out.append("\n```\n\n");
    out
}

// ---------------------------------------------------------------------------
// Flat layout
// ---------------------------------------------------------------------------

/// The title of a memory block.
pub open spec fn memory_title() -> Seq<char> {
    "## Relevant Memory from Past Sessions\n\n"@
}

/// The `n`-th result of a flat list.
pub open spec fn flat_text(n: nat, r: MemoryModel) -> Seq<char> {
    "### Result "@ + text::decimal(n) + " (score: "@ + r.score + ", source: "@ + r.source
        + location_text(r)
}

/// The results as a flat list, numbered from one.
pub open spec fn flat_list(results: Seq<MemoryModel>) -> Seq<char>
    decreases results.len(),
{
    if results.len() == 0 {
        seq![]
    } else {
        flat_list(results.drop_last()) + flat_text(results.len(), results.last())
    }
}

/// Formats the `n`-th result of a flat list.
fn format_flat_result(n: usize, r: &MemorySearchResult) -> (out: String)
    ensures
        out@ == flat_text(n as nat, r@),
{
    let mut out = "### Result ".to_owned();
    append_decimal(&mut out, n);
    out.append(" (score: ");
    out.append(r.score.as_str());
    out.append(", source: ");
    out.append(r.source.as_str());
    let location = format_location(r);
    out.append(location.as_str());
    out
}

/// Appends the results as a flat list.
fn append_flat_list(out: &mut String, results: &[MemorySearchResult])
    ensures
        final(out)@ == old(out)@ + flat_list(memory_views(results@)),
{
    let ghost head = out@;
    let ghost models = memory_views(results@);
    assert(models.take(0) =~= seq![]);
    assert(out@ =~= head + flat_list(models.take(0)));
    for i in 0..results.len()
        invariant
            models == memory_views(results@),
            out@ == head + flat_list(models.take(i as int)),
    {
        let ghost so_far = out@;
        assert(models.take(i + 1).drop_last() =~= models.take(i as int));
        assert(models.take(i + 1).last() == results@[i as int]@);
        let entry = format_flat_result(i + 1, &results[i]);
        out.append(entry.as_str());
        assert(out@ == so_far + flat_text((i + 1) as nat, models[i as int]));
        assert(out@ =~= head + flat_list(models.take(i + 1)));
    }
    assert(models.take(models.len() as int) =~= models);
}

// ---------------------------------------------------------------------------
// Layout by kind
// ---------------------------------------------------------------------------

/// The title of the section of a kind, given by its name.
pub open spec fn section_heading(kind: Seq<char>) -> Seq<char> {
    if kind == "decision"@ {
        "Retrieved decisions"@
    } else if kind == "fact"@ {
        "Retrieved facts"@
    } else if kind == "procedure"@ {
        "Retrieved procedures"@
    } else if kind == "preference"@ {
        "Retrieved preferences"@
    } else if kind == "entity"@ {
        "Retrieved entities"@
    } else if kind == "episode"@ {
        "Retrieved session notes"@
    } else {
        "Retrieved memory"@
    }
}

fn kind_section_title(kind: &[char]) -> (r: &'static str)
    ensures
        r@ == section_heading(kind@),
{
    if is_text(kind, "decision") {
        "Retrieved decisions"
    } else if is_text(kind, "fact") {
        "Retrieved facts"
    } else if is_text(kind, "procedure") {
        "Retrieved procedures"
    } else if is_text(kind, "preference") {
        "Retrieved preferences"
    } else if is_text(kind, "entity") {
        "Retrieved entities"
    } else if is_text(kind, "episode") {
        "Retrieved session notes"
    } else {
        "Retrieved memory"
    }
}

/// The names of the kinds whose sections come first, in their order.
pub open spec fn named_order() -> Seq<Seq<char>> {
    seq![
        "decision"@,
        "fact"@,
        "procedure"@,
        "preference"@,
        "entity"@,
        "episode"@,
        "unknown"@,
    ]
}

/// The kind that a result is shown under.
pub open spec fn shown_kind(r: MemoryModel) -> Seq<char> {
    if r.kind.len() == 0 {
        "unknown"@
    } else {
        r.kind
    }
}

/// Whether `a` comes before `b` in the order of strings: that of the code
/// points at the first place where they differ.
pub open spec fn precedes(a: Seq<char>, b: Seq<char>) -> bool
    decreases a.len(),
{
    if b.len() == 0 {
        false
    } else if a.len() == 0 {
        true
    } else if a[0] != b[0] {
        a[0] < b[0]
    } else {
        precedes(a.skip(1), b.skip(1))
    }
}

/// `name` put at its place in an ascending list, where it is not there yet.
pub open spec fn inserted(list: Seq<Seq<char>>, name: Seq<char>) -> Seq<Seq<char>>
    decreases list.len(),
{
    if list.len() == 0 {
        seq![name]
    } else if name == list.last() {
        list
    } else if precedes(list.last(), name) {
        list.push(name)
    } else {
        inserted(list.drop_last(), name).push(list.last())
    }
}

/// The kinds of the results that have no place of their own, in ascending
/// order.
pub open spec fn other_kinds(results: Seq<MemoryModel>) -> Seq<Seq<char>>
    decreases results.len(),
{
    if results.len() == 0 {
        seq![]
    } else if named_order().contains(shown_kind(results.last())) {
        other_kinds(results.drop_last())
    } else {
        inserted(other_kinds(results.drop_last()), shown_kind(results.last()))
    }
}

/// The results that are shown under a kind, in their order.
pub open spec fn shown_under(results: Seq<MemoryModel>, kind: Seq<char>) -> Seq<MemoryModel>
    decreases results.len(),
{
    if results.len() == 0 {
        seq![]
    } else if shown_kind(results.last()) == kind {
        shown_under(results.drop_last(), kind).push(results.last())
    } else {
        shown_under(results.drop_last(), kind)
    }
}

/// The `n`-th result of the section of a kind.
pub open spec fn typed_text(n: nat, kind: Seq<char>, r: MemoryModel) -> Seq<char> {
    text::decimal(n) + ". (score: "@ + r.score + ", source: "@ + r.source + ", kind: "@ + kind
        + location_text(r)
}

/// The results of the section of a kind, numbered from one.
pub open spec fn typed_list(kind: Seq<char>, results: Seq<MemoryModel>) -> Seq<char>
    decreases results.len(),
{
    if results.len() == 0 {
        seq![]
    } else {
        typed_list(kind, results.drop_last()) + typed_text(results.len(), kind, results.last())
    }
}

/// The section of a kind; nothing where no result is shown under it.
pub open spec fn typed_section(kind: Seq<char>, results: Seq<MemoryModel>) -> Seq<char> {
    if results.len() == 0 {
        seq![]
    } else {
        "### "@ + section_heading(kind) + "\n\n"@ + typed_list(kind, results)
    }
}

/// The sections of some kinds, in their order.
pub open spec fn typed_sections(results: Seq<MemoryModel>, kinds: Seq<Seq<char>>) -> Seq<char>
    decreases kinds.len(),
{
    if kinds.len() == 0 {
        seq![]
    } else {
        typed_sections(results, kinds.drop_last()) + typed_section(
            kinds.last(),
            shown_under(results, kinds.last()),
        )
    }
}

/// The results in sections by kind, below the instruction to compose.
pub open spec fn typed_body(results: Seq<MemoryModel>) -> Seq<char> {
    compose::composition_intro() + typed_sections(results, named_order() + other_kinds(results))
}

/// Whether `a` comes before `b` in the order of strings.
fn precedes_chars(a: &[char], b: &[char]) -> (r: bool)
    ensures
        r == precedes(a@, b@),
{
    let mut i: usize = 0;
    assert(a@.skip(0) =~= a@);
    assert(b@.skip(0) =~= b@);
    while i < a.len() && i < b.len()
        invariant
            i <= a@.len(),
            i <= b@.len(),
            precedes(a@, b@) == precedes(a@.skip(i as int), b@.skip(i as int)),
        decreases a@.len() - i,
    {
        if a[i] != b[i] {
            return a[i] < b[i];
        }
        assert(a@.skip(i as int).skip(1) =~= a@.skip(i + 1));
        assert(b@.skip(i as int).skip(1) =~= b@.skip(i + 1));
        i += 1;
    }
    i < b.len()
}

/// The views of some texts.
pub open spec fn name_views(v: Seq<Vec<char>>) -> Seq<Seq<char>> {
    Seq::new(v.len(), |i: int| v[i]@)
}

/// Puts a name at its place in an ascending list, where it is not there yet.
fn insert_name(list: &mut Vec<Vec<char>>, name: Vec<char>)
    ensures
        name_views(final(list)@) == inserted(name_views(old(list)@), name@),
{
    let ghost names = name_views(list@);
    let mut i: usize = list.len();
    assert(names.take(names.len() as int) =~= names);
    assert(inserted(names, name@) =~= inserted(names, name@) + names.skip(names.len() as int));
    assert(names.take(0) =~= seq![]);
    while i > 0
        invariant
            i <= list@.len(),
            names.take(0) == Seq::<Seq<char>>::empty(),
            names == name_views(list@),
            inserted(names, name@) == inserted(names.take(i as int), name@) + names.skip(i as int),
        ensures
            inserted(names.take(i as int), name@) == names.take(i as int).push(name@),
        decreases i,
    {
        let ghost here = names.take(i as int);
        assert(here.last() == list@[i - 1]@);
        assert(here.drop_last() =~= names.take(i - 1));
        if text::same_chars(list[i - 1].as_slice(), name.as_slice()) {
            assert(here + names.skip(i as int) =~= names);
            return ;
        }
        if precedes_chars(list[i - 1].as_slice(), name.as_slice()) {
            break;
        }
        assert(inserted(here, name@) + names.skip(i as int) =~= inserted(names.take(i - 1), name@)
            + names.skip(i - 1));
        i -= 1;
    }
    list.insert(i, name);
    assert(name_views(list@) =~= names.take(i as int).push(name@) + names.skip(i as int));
}

/// The kind that a result is shown under.
fn shown_kind_chars(r: &MemorySearchResult) -> (kind: Vec<char>)
    ensures
        kind@ == shown_kind(r@),
{
    let kind = to_chars(r.kind.as_str());
    if kind.len() == 0 {
        to_chars("unknown")
    } else {
        kind
    }
}

/// The names of the kinds whose sections come first.
fn first_kinds() -> (r: Vec<Vec<char>>)
    ensures
        name_views(r@) == named_order(),
{
    let mut names: Vec<Vec<char>> = Vec::new();
    names.push(to_chars("decision"));
    names.push(to_chars("fact"));
    names.push(to_chars("procedure"));
    names.push(to_chars("preference"));
    names.push(to_chars("entity"));
    names.push(to_chars("episode"));
    names.push(to_chars("unknown"));
    assert(name_views(names@) =~= named_order());
    names
}

/// Whether a name is among `names`.
fn has_name(names: &Vec<Vec<char>>, name: &[char]) -> (r: bool)
    ensures
        r == name_views(names@).contains(name@),
{
    let ghost models = name_views(names@);
    for i in 0..names.len()
        invariant
            models == name_views(names@),
            forall|k: int| 0 <= k < i ==> #[trigger] models[k] != name@,
    {
        assert(models[i as int] == names@[i as int]@);
        if text::same_chars(names[i].as_slice(), name) {
            return true;
        }
    }
    false
}

/// Formats the `n`-th result of the section of a kind.
fn format_typed_result(n: usize, kind: &[char], r: &MemorySearchResult) -> (out: String)
    ensures
        out@ == typed_text(n as nat, kind@, r@),
{
    let mut out = String::new();
    append_decimal(&mut out, n);
    assert(out@ =~= text::decimal(n as nat));
    out.append(". (score: ");
    out.append(r.score.as_str());
    out.append(", source: ");
    out.append(r.source.as_str());
    out.append(", kind: ");
    append_chars(&mut out, kind);
    let location = format_location(r);
    out.append(location.as_str());
    out
}

/// Appends the section of a kind.
fn append_typed_section(out: &mut String, kind: &[char], results: &[MemorySearchResult])
    ensures
        final(out)@ == old(out)@ + typed_section(kind@, shown_under(memory_views(results@), kind@)),
{
    let ghost before = out@;
    let ghost models = memory_views(results@);
    let ghost heading = "### "@ + section_heading(kind@) + "\n\n"@;
    let mut count: usize = 0;
    assert(models.take(0) =~= seq![]);
    for i in 0..results.len()
        invariant
            models == memory_views(results@),
            heading == "### "@ + section_heading(kind@) + "\n\n"@,
            count <= i,
            count == shown_under(models.take(i as int), kind@).len(),
            out@ == before + typed_section(kind@, shown_under(models.take(i as int), kind@)),
    {
        let ghost so_far = shown_under(models.take(i as int), kind@);
        let ghost text_so_far = out@;
        assert(models.take(i + 1).drop_last() =~= models.take(i as int));
        assert(models.take(i + 1).last() == results@[i as int]@);
        let own = shown_kind_chars(&results[i]);
        if text::same_chars(own.as_slice(), kind) {
            if count == 0 {
                out.append("### ");
                out.append(kind_section_title(kind));
                out.append("\n\n");
                assert(out@ =~= before + heading + typed_list(kind@, so_far));
            } else {
                assert(out@ =~= before + heading + typed_list(kind@, so_far));
            }
            count += 1;
            let entry = format_typed_result(count, kind, &results[i]);
            out.append(entry.as_str());
            proof {
                let now = so_far.push(models[i as int]);
                assert(now.drop_last() =~= so_far);
                assert(typed_list(kind@, now) == typed_list(kind@, so_far) + typed_text(
                    count as nat,
                    kind@,
                    models[i as int],
                ));
                assert(out@ =~= before + (heading + typed_list(kind@, now)));
            }
        }
    }
    assert(models.take(models.len() as int) =~= models);
}

/// Appends the results in sections by kind, below the instruction to compose.
fn append_typed_body(out: &mut String, results: &[MemorySearchResult])
    ensures
        final(out)@ == old(out)@ + typed_body(memory_views(results@)),
{
    let ghost before = out@;
    let ghost models = memory_views(results@);
    let first = first_kinds();
    let mut others: Vec<Vec<char>> = Vec::new();
    assert(models.take(0) =~= seq![]);
    assert(name_views(others@) =~= other_kinds(models.take(0)));
    for i in 0..results.len()
        invariant
            models == memory_views(results@),
            name_views(first@) == named_order(),
            name_views(others@) == other_kinds(models.take(i as int)),
    {
        assert(models.take(i + 1).drop_last() =~= models.take(i as int));
        assert(models.take(i + 1).last() == results@[i as int]@);
        let kind = shown_kind_chars(&results[i]);
        if !has_name(&first, kind.as_slice()) {
            insert_name(&mut others, kind);
        }
    }
    assert(models.take(models.len() as int) =~= models);

    out.append(
        "## Relevant Memory from Past Sessions\n\nPrefer retrieved knowledge over model priors when they conflict. Compose across sections when the question needs more than one kind of knowledge.\n\n",
    );
    let mut kinds = first;
    let ghost kinds_before = kinds@;
    let ghost others_before = others@;
    kinds.append(&mut others);
    assert(name_views(kinds@) =~= name_views(kinds_before) + name_views(others_before));
    let ghost names = name_views(kinds@);
    let ghost head = out@;
    assert(names.take(0) =~= seq![]);
    assert(out@ =~= head + typed_sections(models, names.take(0)));
    for i in 0..kinds.len()
        invariant
            models == memory_views(results@),
            names == name_views(kinds@),
            out@ == head + typed_sections(models, names.take(i as int)),
    {
        let ghost so_far = out@;
        assert(names.take(i + 1).drop_last() =~= names.take(i as int));
        append_typed_section(out, kinds[i].as_slice(), results);
        assert(out@ =~= head + typed_sections(models, names.take(i + 1)));
    }
    assert(names.take(names.len() as int) =~= names);
    assert(out@ =~= before + typed_body(models));
}

// ---------------------------------------------------------------------------
// Reminders
// ---------------------------------------------------------------------------

/// Whether a result tells its kind.
pub open spec fn is_typed(r: MemoryModel) -> bool {
    r.kind.len() > 0 && r.kind != "unknown"@
}

/// Whether one of the results tells its kind.
pub open spec fn has_typed(results: Seq<MemoryModel>) -> bool {
    exists|k: int| 0 <= k < results.len() && is_typed(#[trigger] results[k])
}

/// The part of a memory block that shows the search results.
pub open spec fn results_part(results: Seq<MemoryModel>) -> Seq<char> {
    if results.len() == 0 {
        seq![]
    } else if has_typed(results) {
        typed_body(results)
    } else {
        memory_title() + flat_list(results)
    }
}

/// The part of a memory block that shows the core pins.
pub open spec fn core_part(core: Option<Seq<char>>) -> Seq<char> {
    match core {
        Some(s) => if text::is_blank(s) {
            seq![]
        } else {
            text::trim(s) + "\n\n"@
        },
        None => seq![],
    }
}

/// Whether there is a core to show.
pub open spec fn has_core(core: Option<Seq<char>>) -> bool {
    core matches Some(s) && !text::is_blank(s)
}

/// A memory block.
pub open spec fn memory_block(results: Seq<MemoryModel>, core: Option<Seq<char>>) -> Seq<char> {
    MEMORY_CONTEXT_OPEN_TAG@.push('\n') + core_part(core) + results_part(results)
        + MEMORY_CONTEXT_CLOSE_TAG@
}

/// Whether one of the results tells its kind.
fn has_typed_result(results: &[MemorySearchResult]) -> (r: bool)
    ensures
        r == has_typed(memory_views(results@)),
{
    let ghost models = memory_views(results@);
    for i in 0..results.len()
        invariant
            models == memory_views(results@),
            forall|k: int| 0 <= k < i ==> !is_typed(#[trigger] models[k]),
    {
        assert(models[i as int] == results@[i as int]@);
        let kind = to_chars(results[i].kind.as_str());
        if kind.len() > 0 && !is_text(kind.as_slice(), "unknown") {
            return true;
        }
    }
    false
}

/// Formats search results as a memory block. Results that tell their kind are
/// grouped into sections with the instruction to compose across them;
/// otherwise the list is flat. Nothing where there is no result.
pub fn format_memory_reminder(results: &[MemorySearchResult]) -> (r: Option<String>)
    ensures
        match r {
            Some(out) => results@.len() > 0 && out@ == memory_block(memory_views(results@), None),
            None => results@.len() == 0,
        },
{
    format_memory_reminder_with_core(results, None)
}

/// Like [`format_memory_reminder`], with a block of core pins before the
/// results. Nothing only where there is neither a result nor a core.
pub fn format_memory_reminder_with_core(
    results: &[MemorySearchResult],
    core_pin: Option<&str>,
) -> (r: Option<String>)
    ensures
        match r {
            Some(out) => {
                &&& results@.len() > 0 || has_core(text::optional_str(core_pin))
                &&& out@ == memory_block(
                    memory_views(results@),
                    text::optional_str(core_pin),
                )
            },
            None => results@.len() == 0 && !has_core(text::optional_str(core_pin)),
        },
{
    let core_chars = match core_pin {
        Some(core) => to_chars(core),
        None => Vec::new(),
    };
    let core = trim_chars(core_chars.as_slice());
    assert((core@.len() > 0) == has_core(text::optional_str(core_pin))) by {
        if core_pin is None {
            assert(core_chars@ =~= seq![]);
        }
    }
    if results.len() == 0 && core.len() == 0 {
        return None;
    }
    let mut section = MEMORY_CONTEXT_OPEN_TAG.to_owned();
    section.push('\n');
    let ghost head = section@;
    if core.len() > 0 {
        append_chars(&mut section, core);
        section.append("\n\n");
    }
    assert(section@ =~= head + core_part(text::optional_str(core_pin)));
    let ghost with_core = section@;
    if results.len() > 0 {
        if has_typed_result(results) {
            append_typed_body(&mut section, results);
        } else {
            section.append("## Relevant Memory from Past Sessions\n\n");
            append_flat_list(&mut section, results);
        }
    }
    assert(section@ =~= with_core + results_part(memory_views(results@)));
    section.append(MEMORY_CONTEXT_CLOSE_TAG);
    Some(section)
}

/// The opening of a reminder in the middle of a session.
pub open spec fn connector_intro() -> Seq<char> {
    "Active memory connector (mid-session re-retrieval). Core preferences/decisions in the system prompt still apply. Compose across the sections below for this multi-hop question.\n\n"@
}

/// Formats the reminder for a retrieval in the middle of a session, without
/// the tags of a memory block: the block in the system message stays as it
/// is. Nothing where there is no result.
pub fn format_mid_session_connector_reminder(results: &[MemorySearchResult]) -> (r: Option<String>)
    ensures
        match r {
            Some(out) => results@.len() > 0 && out@ == connector_intro() + typed_body(
                memory_views(results@),
            ),
            None => results@.len() == 0,
        },
{
    if results.len() == 0 {
        return None;
    }
    let mut out =
        "Active memory connector (mid-session re-retrieval). Core preferences/decisions in the system prompt still apply. Compose across the sections below for this multi-hop question.\n\n".to_owned();
    append_typed_body(&mut out, results);
    Some(out)
}

// ---------------------------------------------------------------------------
// When to retrieve
// ---------------------------------------------------------------------------

/// `s` in small letters, by the Unicode rules: what `str::to_lowercase` gives.
pub uninterp spec fn unicode_lowercase(s: Seq<char>) -> Seq<char>;

/// `str::to_lowercase`: the text in small letters, by the Unicode rules. They
/// are too long to state here, so the result has a name. On ASCII text it is
/// the mapping of `A`..`Z` to `a`..`z`.
pub assume_specification[ str::to_lowercase ](s: &str) -> (r: String)
    ensures
        r@ == unicode_lowercase(s@),
        vstd::utf8::is_ascii_chars(s@) ==> r@ == text::lowercase(s@),
;

/// The greetings and generic openers.
pub open spec fn greetings() -> Seq<Seq<char>> {
    seq![
        "hi"@,
        "hey"@,
        "hello"@,
        "howdy"@,
        "continue"@,
        "start"@,
        "begin"@,
        "go"@,
        "good morning"@,
        "good afternoon"@,
        "good evening"@,
        "what's up"@,
        "whats up"@,
        "sup"@,
    ]
}

/// Whether a text in small letters is a greeting, white space around it and
/// closing marks not counted.
pub open spec fn is_greeting_text(lowered: Seq<char>) -> bool {
    greetings().contains(text::drop_while(text::trim(lowered), CharSet::ClosingMark))
}

/// Whether a message in small letters looks like a greeting or a generic
/// opener.
pub fn is_lowered_greeting(lowered: &str) -> (r: bool)
    ensures
        r == is_greeting_text(lowered@),
{
    let chars = to_chars(lowered);
    let t = drop_while_chars(trim_chars(chars.as_slice()), CharSet::ClosingMark);
    let list = [
        "hi",
        "hey",
        "hello",
        "howdy",
        "continue",
        "start",
        "begin",
        "go",
        "good morning",
        "good afternoon",
        "good evening",
        "what's up",
        "whats up",
        "sup",
    ];
    let ghost models = greetings();
    assert(text::str_views(list@) =~= models);
    for i in 0..list.len()
        invariant
            t@ == text::drop_while(text::trim(lowered@), CharSet::ClosingMark),
            models == greetings(),
            models == text::str_views(list@),
            forall|k: int| 0 <= k < i ==> #[trigger] models[k] != t@,
    {
        assert(models[i as int] == list@[i as int]@);
        if is_text(t, list[i]) {
            return true;
        }
    }
    false
}

/// Whether a message looks like a greeting or a generic opener, for which a
/// memory search would find nothing useful.
pub fn is_greeting(text: &str) -> (r: bool)
    ensures
        r == is_greeting_text(unicode_lowercase(text@)),
        vstd::utf8::is_ascii_chars(text@) ==> r == is_greeting_text(text::lowercase(text@)),
{
    let lowered = text.to_lowercase();
    is_lowered_greeting(lowered.as_str())
}

/// Whether a query calls for a retrieval in the middle of a session, given
/// whether it is a greeting: the first turn is done, the query is not short,
/// and it needs more than one kind of knowledge.
pub open spec fn is_connector_due(query: Seq<char>, first_turn_done: bool, greeting: bool) -> bool {
    &&& first_turn_done
    &&& text::byte_len(text::trim(query)) >= CONNECTOR_MIN_BYTES
    &&& !greeting
    &&& compose::query_kinds(text::trim(query)).len() >= 2
}

/// Whether a query calls for a retrieval in the middle of a session, given
/// whether it is a greeting.
pub fn connector_due(query: &str, first_turn_done: bool, greeting: bool) -> (r: bool)
    ensures
        r == is_connector_due(query@, first_turn_done, greeting),
{
    if !first_turn_done {
        return false;
    }
    let chars = to_chars(query);
    let trimmed = from_chars(trim_chars(chars.as_slice()));
    if utf8_len(trimmed.as_str()) < CONNECTOR_MIN_BYTES || greeting {
        return false;
    }
    is_compositional_query(trimmed.as_str())
}

/// Whether retrieval should run again in the middle of a session.
///
/// The first turn injects core pins and search results into the system
/// prompt. After that only questions that need more than one kind of
/// knowledge are searched for again. Greetings, short texts and other queries
/// are not, nor is anything before the first turn is done.
pub fn should_mid_session_connector(query: &str, first_turn_done: bool) -> (r: bool)
    ensures
        r == is_connector_due(
            query@,
            first_turn_done,
            is_greeting_text(unicode_lowercase(text::trim(query@))),
        ),
        vstd::utf8::is_ascii_chars(text::trim(query@)) ==> r == is_connector_due(
            query@,
            first_turn_done,
            is_greeting_text(text::lowercase(text::trim(query@))),
        ),
{
    if !first_turn_done {
        return false;
    }
    let chars = to_chars(query);
    let trimmed = from_chars(trim_chars(chars.as_slice()));
    let greeting = is_greeting(trimmed.as_str());
    connector_due(query, first_turn_done, greeting)
}

} // verus!
