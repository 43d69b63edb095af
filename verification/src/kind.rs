//! Memory kinds and the classification of a chunk of markdown.
//!
//! ```markdown
//! ## Decision: use worktree isolation for execute-plan
//! type: decision
//! status: active
//! supersedes: 2026-03-01-shared-cwd
//!
//! We isolate execute-plan subagents in git worktrees so parent state is safe.
//! ```
//!
//! Heading prefixes (`## Decision:`, `## Fact:`, ...) are recognized where no
//! explicit `type:` field is present. A chunk of a session log that names no
//! kind is an episode.

use crate::text;
use crate::text::{
    find_char, from_chars, is_text, lines_chars, lowercase_chars, same_chars, skip_while_chars,
    starts_with_text, to_chars, trim_chars, trim_start_chars, CharSet,
};
use vstd::prelude::*;
use vstd::slice::slice_subrange;

verus! {

/// Knowledge type of a memory chunk.
///
/// External memory is partitioned by it, so that a query can retrieve the
/// best of each kind in place of the best of a blend.
#[derive(Debug, Clone, Copy, PartialEq, Eq, Hash, PartialOrd, Ord, Structural)]
pub enum MemoryKind {
    /// Durable factual statements ("X is true of this repo").
    Fact,
    /// Architectural or product decisions with their rationale.
    Decision,
    /// User or project preferences and habits.
    Preference,
    /// How-to, runbook or debugging procedure.
    Procedure,
    /// Session-scoped notes, which decay.
    Episode,
    /// Named entities: people, services, tickets.
    Entity,
    /// Unclassified; eligible for any untyped search.
    Unknown,
}

/// The stable name of a kind, as it is written in files and in SQL.
pub open spec fn kind_name(kind: MemoryKind) -> Seq<char> {
    match kind {
        MemoryKind::Fact => "fact"@,
        MemoryKind::Decision => "decision"@,
        MemoryKind::Preference => "preference"@,
        MemoryKind::Procedure => "procedure"@,
        MemoryKind::Episode => "episode"@,
        MemoryKind::Entity => "entity"@,
        MemoryKind::Unknown => "unknown"@,
    }
}

/// The title of the section that holds what was retrieved of a kind.
pub open spec fn kind_section_heading(kind: MemoryKind) -> Seq<char> {
    match kind {
        MemoryKind::Fact => "Retrieved facts"@,
        MemoryKind::Decision => "Retrieved decisions"@,
        MemoryKind::Preference => "Retrieved preferences"@,
        MemoryKind::Procedure => "Retrieved procedures"@,
        MemoryKind::Episode => "Retrieved session notes"@,
        MemoryKind::Entity => "Retrieved entities"@,
        MemoryKind::Unknown => "Retrieved memory"@,
    }
}

/// The place of a kind in the order of kinds.
pub open spec fn kind_rank(kind: MemoryKind) -> int {
    match kind {
        MemoryKind::Fact => 0,
        MemoryKind::Decision => 1,
        MemoryKind::Preference => 2,
        MemoryKind::Procedure => 3,
        MemoryKind::Episode => 4,
        MemoryKind::Entity => 5,
        MemoryKind::Unknown => 6,
    }
}

/// The kind that `word`, a word in small letters, names in a field.
pub open spec fn named_kind(word: Seq<char>) -> Option<MemoryKind> {
    if word == "fact"@ || word == "facts"@ {
        Some(MemoryKind::Fact)
    } else if word == "decision"@ || word == "decisions"@ || word == "adr"@ {
        Some(MemoryKind::Decision)
    } else if word == "preference"@ || word == "preferences"@ || word == "pref"@ || word
        == "prefs"@ {
        Some(MemoryKind::Preference)
    } else if word == "procedure"@ || word == "procedures"@ || word == "runbook"@ || word
        == "howto"@ || word == "how-to"@ {
        Some(MemoryKind::Procedure)
    } else if word == "episode"@ || word == "session"@ || word == "sessions"@ {
        Some(MemoryKind::Episode)
    } else if word == "entity"@ || word == "entities"@ {
        Some(MemoryKind::Entity)
    } else if word == "unknown"@ || word == ""@ {
        Some(MemoryKind::Unknown)
    } else {
        None
    }
}

/// The kind that a text names: white space around it and the case of its
/// letters do not matter.
pub open spec fn parsed_kind(s: Seq<char>) -> Option<MemoryKind> {
    named_kind(text::lowercase(text::trim(s)))
}

impl MemoryKind {
    /// Stable name of this kind, as it is written in files and in SQL.
    pub fn as_str(self) -> (r: &'static str)
        ensures
            r@ == kind_name(self),
    {
        match self {
            MemoryKind::Fact => "fact",
            MemoryKind::Decision => "decision",
            MemoryKind::Preference => "preference",
            MemoryKind::Procedure => "procedure",
            MemoryKind::Episode => "episode",
            MemoryKind::Entity => "entity",
            MemoryKind::Unknown => "unknown",
        }
    }

    /// Section title used in compositional injection templates.
    pub fn section_title(self) -> (r: &'static str)
        ensures
            r@ == kind_section_heading(self),
    {
        match self {
            MemoryKind::Fact => "Retrieved facts",
            MemoryKind::Decision => "Retrieved decisions",
            MemoryKind::Preference => "Retrieved preferences",
            MemoryKind::Procedure => "Retrieved procedures",
            MemoryKind::Episode => "Retrieved session notes",
            MemoryKind::Entity => "Retrieved entities",
            MemoryKind::Unknown => "Retrieved memory",
        }
    }

    /// All concrete kinds, in their order (excludes [`MemoryKind::Unknown`]).
    pub fn all_typed() -> (r: &'static [MemoryKind])
        ensures
            r@ == seq![
                MemoryKind::Fact,
                MemoryKind::Decision,
                MemoryKind::Preference,
                MemoryKind::Procedure,
                MemoryKind::Episode,
                MemoryKind::Entity,
            ],
    {
        &[
            MemoryKind::Fact,
            MemoryKind::Decision,
            MemoryKind::Preference,
            MemoryKind::Procedure,
            MemoryKind::Episode,
            MemoryKind::Entity,
        ]
    }

    /// The name of this kind as a string of its own.
    pub fn to_string(self) -> (r: String)
        ensures
            r@ == kind_name(self),
    {
        self.as_str().to_owned()
    }

    /// Reads a kind from its name or one of its aliases.
    pub fn from_str(s: &str) -> (r: Result<MemoryKind, ()>)
        ensures
            r == match parsed_kind(s@) {
                Some(kind) => Ok::<MemoryKind, ()>(kind),
                None => Err::<MemoryKind, ()>(()),
            },
    {
        let s = to_chars(s);
        match parse_kind(s.as_slice()) {
            Some(kind) => Ok(kind),
            None => Err(()),
        }
    }
}

impl std::str::FromStr for MemoryKind {
    type Err = ();

    fn from_str(s: &str) -> (r: Result<MemoryKind, ()>)
        ensures
            r == match parsed_kind(s@) {
                Some(kind) => Ok::<MemoryKind, ()>(kind),
                None => Err::<MemoryKind, ()>(()),
            },
    {
        MemoryKind::from_str(s)
    }
}

/// Reads a kind from the characters of its name.
fn parse_kind(s: &[char]) -> (r: Option<MemoryKind>)
    ensures
        r == parsed_kind(s@),
{
    let word = lowercase_chars(trim_chars(s));
    let w = word.as_slice();
    if is_text(w, "fact") || is_text(w, "facts") {
        Some(MemoryKind::Fact)
    } else if is_text(w, "decision") || is_text(w, "decisions") || is_text(w, "adr") {
        Some(MemoryKind::Decision)
    } else if is_text(w, "preference") || is_text(w, "preferences") || is_text(w, "pref")
        || is_text(w, "prefs") {
        Some(MemoryKind::Preference)
    } else if is_text(w, "procedure") || is_text(w, "procedures") || is_text(w, "runbook")
        || is_text(w, "howto") || is_text(w, "how-to") {
        Some(MemoryKind::Procedure)
    } else if is_text(w, "episode") || is_text(w, "session") || is_text(w, "sessions") {
        Some(MemoryKind::Episode)
    } else if is_text(w, "entity") || is_text(w, "entities") {
        Some(MemoryKind::Entity)
    } else if is_text(w, "unknown") || is_text(w, "") {
        Some(MemoryKind::Unknown)
    } else {
        None
    }
}

/// How many lines of a chunk are read for fields and heading cues, not
/// counting blank ones.
pub const SCANNED_LINES: usize = 40;

/// Metadata of a memory chunk.
#[derive(Debug, Clone, PartialEq, Eq)]
pub struct ChunkMeta {
    pub kind: MemoryKind,
    /// Id or slug of the chunk that this one supersedes.
    pub supersedes: Option<String>,
    /// `active` (the default) or `superseded`.
    pub status: String,
}

/// The mathematical content of a [`ChunkMeta`].
#[verifier::ext_equal]
pub struct ChunkMetaModel {
    pub kind: MemoryKind,
    pub supersedes: Option<Seq<char>>,
    pub status: Seq<char>,
}

impl View for ChunkMeta {
    type V = ChunkMetaModel;

    open spec fn view(&self) -> ChunkMetaModel {
        ChunkMetaModel {
            kind: self.kind,
            supersedes: text::optional(self.supersedes),
            status: self.status@,
        }
    }
}

impl Default for ChunkMeta {
    fn default() -> (r: ChunkMeta)
        ensures
            r@ == (ChunkMetaModel {
                kind: MemoryKind::Unknown,
                supersedes: None,
                status: "active"@,
            }),
    {
        ChunkMeta { kind: MemoryKind::Unknown, supersedes: None, status: "active".to_owned() }
    }
}

/// The value of the field `key` in a line of the form `key: value`. The case
/// of the key's letters does not matter; a heading is no field.
pub open spec fn field_value(line: Seq<char>, key: Seq<char>) -> Option<Seq<char>> {
    let colon = text::find(line, CharSet::Only(':'));
    let left = line.take(colon as int);
    if colon >= line.len() {
        None
    } else if text::lowercase(text::trim(left)) != text::lowercase(key) {
        None
    } else if text::starts_with(text::trim_start(left), "#"@) {
        None
    } else {
        Some(text::trim(line.skip((colon + 1) as int)))
    }
}

/// The first word of a heading's title: what stands before the first
/// separator, separators at the start not counted.
pub open spec fn heading_word(title: Seq<char>) -> Seq<char> {
    let rest = text::skip_while(title, CharSet::HeadingSeparator);
    rest.take(text::find(rest, CharSet::HeadingSeparator) as int)
}

/// The kind that the first word of a heading, in small letters, names.
pub open spec fn heading_word_kind(word: Seq<char>) -> Option<MemoryKind> {
    if word == "decision"@ || word == "decisions"@ || word == "adr"@ {
        Some(MemoryKind::Decision)
    } else if word == "fact"@ || word == "facts"@ {
        Some(MemoryKind::Fact)
    } else if word == "preference"@ || word == "preferences"@ || word == "pref"@ {
        Some(MemoryKind::Preference)
    } else if word == "procedure"@ || word == "procedures"@ || word == "runbook"@ || word
        == "howto"@ {
        Some(MemoryKind::Procedure)
    } else if word == "episode"@ || word == "session"@ || word == "sessions"@ {
        Some(MemoryKind::Episode)
    } else if word == "entity"@ || word == "entities"@ {
        Some(MemoryKind::Entity)
    } else {
        None
    }
}

/// The kind that a markdown heading names, as in `## Decision: ...` or
/// `## Preferences`.
pub open spec fn heading_kind(line: Seq<char>) -> Option<MemoryKind> {
    let heading = text::trim(line);
    if !text::starts_with(heading, "#"@) {
        None
    } else {
        heading_word_kind(
            heading_word(
                text::lowercase(text::trim(text::skip_while(heading, CharSet::Only('#')))),
            ),
        )
    }
}

/// What a line says about the chunk that it stands in.
pub enum LineCue {
    /// A `type` or `kind` field with the name of a kind.
    Kind(MemoryKind),
    /// A `status` field with a known status.
    Status(Seq<char>),
    /// A `supersedes` field with a value.
    Supersedes(Seq<char>),
    /// A heading that names a kind.
    Heading(MemoryKind),
    /// None of these.
    Nothing,
}

/// Whether `status` is one that a chunk can have.
pub open spec fn is_status(status: Seq<char>) -> bool {
    status == "active"@ || status == "superseded"@
}

/// The status that a word in small letters gives. What is deprecated counts as
/// superseded.
pub open spec fn named_status(word: Seq<char>) -> Option<Seq<char>> {
    if word == "active"@ {
        Some("active"@)
    } else if word == "superseded"@ || word == "deprecated"@ {
        Some("superseded"@)
    } else {
        None
    }
}

/// What a `type` or `kind` field with this value says.
pub open spec fn kind_cue(value: Seq<char>) -> LineCue {
    match parsed_kind(value) {
        Some(kind) => LineCue::Kind(kind),
        None => LineCue::Nothing,
    }
}

/// What a line says about its chunk. The first field name that matches
/// decides; a line without one may be a heading.
pub open spec fn line_cue(line: Seq<char>) -> LineCue {
    if let Some(value) = field_value(line, "type"@) {
        kind_cue(value)
    } else if let Some(value) = field_value(line, "kind"@) {
        kind_cue(value)
    } else if let Some(value) = field_value(line, "status"@) {
        match named_status(text::lowercase(text::trim(value))) {
            Some(status) => LineCue::Status(status),
            None => LineCue::Nothing,
        }
    } else if let Some(value) = field_value(line, "supersedes"@) {
        if text::trim(value).len() > 0 {
            LineCue::Supersedes(text::trim(value))
        } else {
            LineCue::Nothing
        }
    } else if let Some(kind) = heading_kind(line) {
        LineCue::Heading(kind)
    } else {
        LineCue::Nothing
    }
}

/// The kind that some lines give: that of the last `type` or `kind` field. A
/// heading counts only while no kind is known.
pub open spec fn kind_of(ls: Seq<Seq<char>>) -> MemoryKind
    decreases ls.len(),
{
    if ls.len() == 0 {
        MemoryKind::Unknown
    } else {
        let before = kind_of(ls.drop_last());
        match line_cue(ls.last()) {
            LineCue::Kind(kind) => kind,
            LineCue::Heading(kind) => if before == MemoryKind::Unknown {
                kind
            } else {
                before
            },
            _ => before,
        }
    }
}

/// The status that some lines give: that of the last `status` field, or
/// `active`.
pub open spec fn status_of(ls: Seq<Seq<char>>) -> Seq<char>
    decreases ls.len(),
{
    if ls.len() == 0 {
        "active"@
    } else {
        match line_cue(ls.last()) {
            LineCue::Status(status) => status,
            _ => status_of(ls.drop_last()),
        }
    }
}

/// What some lines supersede: the value of the last `supersedes` field.
pub open spec fn supersedes_of(ls: Seq<Seq<char>>) -> Option<Seq<char>>
    decreases ls.len(),
{
    if ls.len() == 0 {
        None
    } else {
        match line_cue(ls.last()) {
            LineCue::Supersedes(id) => Some(id),
            _ => supersedes_of(ls.drop_last()),
        }
    }
}

/// The lines of `ls` that are not blank, trimmed.
pub open spec fn nonblank(ls: Seq<Seq<char>>) -> Seq<Seq<char>>
    decreases ls.len(),
{
    if ls.len() == 0 {
        seq![]
    } else if text::is_blank(ls.last()) {
        nonblank(ls.drop_last())
    } else {
        nonblank(ls.drop_last()).push(text::trim(ls.last()))
    }
}

/// The first lines of a chunk that are not blank, trimmed: the ones that are
/// read for cues.
pub open spec fn scanned(chunk: Seq<char>) -> Seq<Seq<char>> {
    let all = nonblank(text::lines(chunk));
    if all.len() > SCANNED_LINES {
        all.take(SCANNED_LINES as int)
    } else {
        all
    }
}

/// The metadata of a chunk that comes from `source`.
pub open spec fn classification(chunk: Seq<char>, source: Seq<char>) -> ChunkMetaModel {
    let ls = scanned(chunk);
    let kind = kind_of(ls);
    ChunkMetaModel {
        kind: if kind == MemoryKind::Unknown && source == "session"@ {
            MemoryKind::Episode
        } else {
            kind
        },
        supersedes: supersedes_of(ls),
        status: status_of(ls),
    }
}

/// The nonblank lines of a prefix are a prefix of the nonblank lines.
pub proof fn lemma_nonblank_prefix(ls: Seq<Seq<char>>, n: int)
    requires
        0 <= n <= ls.len(),
    ensures
        nonblank(ls.take(n)).len() <= nonblank(ls).len(),
        nonblank(ls).take(nonblank(ls.take(n)).len() as int) == nonblank(ls.take(n)),
    decreases ls.len(),
{
    if n == ls.len() {
        assert(ls.take(n) =~= ls);
        assert(nonblank(ls).take(nonblank(ls).len() as int) =~= nonblank(ls));
    } else {
        let shorter = ls.drop_last();
        lemma_nonblank_prefix(shorter, n);
        assert(shorter.take(n) =~= ls.take(n));
        let m = nonblank(ls.take(n)).len() as int;
        assert(nonblank(ls).take(m) =~= nonblank(shorter).take(m));
    }
}

/// Lines give a status that a chunk can have.
pub proof fn lemma_status_of(ls: Seq<Seq<char>>)
    ensures
        is_status(status_of(ls)),
    decreases ls.len(),
{
    if ls.len() > 0 {
        lemma_status_of(ls.drop_last());
    }
}

/// The value of the field `key` in a line.
fn field_value_chars<'a>(line: &'a [char], key: &str) -> (r: Option<&'a [char]>)
    ensures
        match r {
            Some(value) => field_value(line@, key@) == Some(value@),
            None => field_value(line@, key@) is None,
        },
{
    let colon = find_char(line, CharSet::Only(':'));
    if colon >= line.len() {
        return None;
    }
    let left = slice_subrange(line, 0, colon);
    assert(left@ =~= line@.take(colon as int));
    let name = lowercase_chars(trim_chars(left));
    let key = to_chars(key);
    let key = lowercase_chars(key.as_slice());
    if !same_chars(name.as_slice(), key.as_slice()) {
        return None;
    }
    if starts_with_text(trim_start_chars(left), "#") {
        return None;
    }
    let right = slice_subrange(line, colon + 1, line.len());
    assert(right@ =~= line@.skip(colon + 1));
    Some(trim_chars(right))
}

/// The kind that a markdown heading names.
fn kind_from_heading(line: &[char]) -> (r: Option<MemoryKind>)
    ensures
        r == heading_kind(line@),
{
    let heading = trim_chars(line);
    if !starts_with_text(heading, "#") {
        return None;
    }
    let title = lowercase_chars(trim_chars(skip_while_chars(heading, CharSet::Only('#'))));
    let rest = skip_while_chars(title.as_slice(), CharSet::HeadingSeparator);
    let end = find_char(rest, CharSet::HeadingSeparator);
    let w = slice_subrange(rest, 0, end);
    assert(w@ =~= rest@.take(end as int));
    if is_text(w, "decision") || is_text(w, "decisions") || is_text(w, "adr") {
        Some(MemoryKind::Decision)
    } else if is_text(w, "fact") || is_text(w, "facts") {
        Some(MemoryKind::Fact)
    } else if is_text(w, "preference") || is_text(w, "preferences") || is_text(w, "pref") {
        Some(MemoryKind::Preference)
    } else if is_text(w, "procedure") || is_text(w, "procedures") || is_text(w, "runbook")
        || is_text(w, "howto") {
        Some(MemoryKind::Procedure)
    } else if is_text(w, "episode") || is_text(w, "session") || is_text(w, "sessions") {
        Some(MemoryKind::Episode)
    } else if is_text(w, "entity") || is_text(w, "entities") {
        Some(MemoryKind::Entity)
    } else {
        None
    }
}

/// Reads one trimmed line into the metadata of its chunk.
fn read_line(meta: &mut ChunkMeta, line: &[char])
    ensures
        final(meta)@ == match line_cue(line@) {
            LineCue::Kind(kind) => (ChunkMetaModel { kind, ..old(meta)@ }),
            LineCue::Status(status) => (ChunkMetaModel { status, ..old(meta)@ }),
            LineCue::Supersedes(id) => (ChunkMetaModel { supersedes: Some(id), ..old(meta)@ }),
            LineCue::Heading(kind) => if old(meta)@.kind == MemoryKind::Unknown {
                (ChunkMetaModel { kind, ..old(meta)@ })
            } else {
                old(meta)@
            },
            LineCue::Nothing => old(meta)@,
        },
{
    if let Some(value) = field_value_chars(line, "type") {
        if let Some(kind) = parse_kind(value) {
            meta.kind = kind;
        }
    } else if let Some(value) = field_value_chars(line, "kind") {
        if let Some(kind) = parse_kind(value) {
            meta.kind = kind;
        }
    } else if let Some(value) = field_value_chars(line, "status") {
        let status = lowercase_chars(trim_chars(value));
        let w = status.as_slice();
        if is_text(w, "active") {
            meta.status = "active".to_owned();
        } else if is_text(w, "superseded") || is_text(w, "deprecated") {
            meta.status = "superseded".to_owned();
        }
    } else if let Some(value) = field_value_chars(line, "supersedes") {
        let id = trim_chars(value);
        if id.len() > 0 {
            meta.supersedes = Some(from_chars(id));
        }
    } else if meta.kind == MemoryKind::Unknown {
        if let Some(kind) = kind_from_heading(line) {
            meta.kind = kind;
        }
    }
}

/// Classifies a chunk of text that comes from `source` (`global`,
/// `workspace` or `session`).
pub(crate) fn classify_chars(chunk: &[char], source: &str) -> (r: ChunkMeta)
    ensures
        r@ == classification(chunk@, source@),
{
    let mut meta = ChunkMeta::default();
    let ls = lines_chars(chunk);
    let ghost models = text::lines(chunk@);
    let mut count: usize = 0;
    let mut i: usize = 0;
    assert(models.take(models.len() as int) =~= models);
    while i < ls.len()
        invariant_except_break
            count == nonblank(models.take(i as int)).len(),
            meta@.kind == kind_of(nonblank(models.take(i as int))),
            meta@.status == status_of(nonblank(models.take(i as int))),
            meta@.supersedes == supersedes_of(nonblank(models.take(i as int))),
        invariant
            i <= ls@.len(),
            count <= SCANNED_LINES,
            models == text::slice_views(ls@),
            models == text::lines(chunk@),
            models.take(models.len() as int) == models,
        ensures
            meta@.kind == kind_of(scanned(chunk@)),
            meta@.status == status_of(scanned(chunk@)),
            meta@.supersedes == supersedes_of(scanned(chunk@)),
        decreases ls@.len() - i,
    {
        let line = trim_chars(ls[i]);
        let ghost before = nonblank(models.take(i as int));
        assert(models.take(i + 1).drop_last() =~= models.take(i as int));
        assert(models.take(i + 1).last() == ls@[i as int]@);
        if line.len() > 0 {
            proof {
                lemma_nonblank_prefix(models, i + 1);
                assert(nonblank(models.take(i + 1)) == before.push(line@));
                assert(before.push(line@).drop_last() =~= before);
            }
            if count == SCANNED_LINES {
                assert(scanned(chunk@) =~= before) by {
                    let all = nonblank(models);
                    assert(all.take(count + 1).take(count as int) =~= all.take(count as int));
                    assert(before.push(line@).take(count as int) =~= before);
                }
                break;
            }
            count += 1;
            read_line(&mut meta, line);
        }
        i += 1;
    }
    if meta.kind == MemoryKind::Unknown {
        let source = to_chars(source);
        if is_text(source.as_slice(), "session") {
            meta.kind = MemoryKind::Episode;
        }
    }
    meta
}

/// Classifies a chunk's text given its storage `source` (`global`,
/// `workspace` or `session`).
pub fn classify_chunk(text: &str, source: &str) -> (r: ChunkMeta)
    ensures
        r@ == classification(text@, source@),
        r@.status == "active"@ || r@.status == "superseded"@,
{
    proof {
        lemma_status_of(scanned(text@));
    }
    let chunk = to_chars(text);
    classify_chars(chunk.as_slice(), source)
}

} // verus!
