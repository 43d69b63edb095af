//! Promotion ladder: episode, typed evergreen section, core pin.
//!
//! ```text
//! session log  ->  (flush)  ->  typed evergreen MEMORY.md
//!                                 |  core-pin selection
//!                               always-injected core
//! ```
//!
//! This module renders typed entries, marks what they supersede, and selects
//! the bounded core of preferences and active decisions that is injected
//! without a search.

use crate::kind;
use crate::kind::{classify_chars, MemoryKind};
use crate::sections;
use crate::sections::{first_line, preamble_before_h2, section_title, split_sections, Section};
use crate::text;
use crate::text::{
    append_chars, clip_chars, contains_chars, contains_text, from_chars, lines_chars,
    lowercase_chars, same_chars, skip_prefixes_text, skip_while_chars, starts_with_text, to_chars,
    trim_chars, CharSet,
};
use vstd::prelude::*;
use vstd::slice::slice_subrange;

verus! {

/// Default character budget for always-on memory.
pub const DEFAULT_CORE_PIN_MAX_CHARS: usize = 2_000;

/// Maximum number of core-pin sections.
pub const DEFAULT_CORE_PIN_MAX_SECTIONS: usize = 8;

/// The longest title that is made from a note, in characters.
pub const NOTE_TITLE_MAX_CHARS: usize = 80;

// ---------------------------------------------------------------------------
// Typed entries
// ---------------------------------------------------------------------------

/// A typed memory entry, ready to be appended to evergreen storage.
#[derive(Debug, Clone, PartialEq, Eq)]
pub struct TypedEntry {
    pub kind: MemoryKind,
    pub title: String,
    pub body: String,
    pub status: String,
    pub supersedes: Option<String>,
    pub id: Option<String>,
}

/// The mathematical content of a [`TypedEntry`].
#[verifier::ext_equal]
pub struct EntryModel {
    pub kind: MemoryKind,
    pub title: Seq<char>,
    pub body: Seq<char>,
    pub status: Seq<char>,
    pub supersedes: Option<Seq<char>>,
    pub id: Option<Seq<char>>,
}

impl View for TypedEntry {
    type V = EntryModel;

    open spec fn view(&self) -> EntryModel {
        EntryModel {
            kind: self.kind,
            title: self.title@,
            body: self.body@,
            status: self.status@,
            supersedes: text::optional(self.supersedes),
            id: text::optional(self.id),
        }
    }
}

/// The word that opens the heading of an entry.
pub open spec fn kind_label(kind: MemoryKind) -> Seq<char> {
    match kind {
        MemoryKind::Decision => "Decision"@,
        MemoryKind::Fact => "Fact"@,
        MemoryKind::Preference => "Preference"@,
        MemoryKind::Procedure => "Procedure"@,
        MemoryKind::Episode => "Episode"@,
        MemoryKind::Entity => "Entity"@,
        MemoryKind::Unknown => "Note"@,
    }
}

/// The line `name: value`, where there is a value.
pub open spec fn optional_field(name: Seq<char>, value: Option<Seq<char>>) -> Seq<Seq<char>> {
    match value {
        Some(v) => seq![name + ": "@ + v],
        None => seq![],
    }
}

/// The lines of an entry above its body: the heading, the fields and an
/// empty line.
pub open spec fn entry_header(e: EntryModel) -> Seq<Seq<char>> {
    seq![
        "## "@ + kind_label(e.kind) + ": "@ + text::trim(e.title),
        "type"@ + ": "@ + kind::kind_name(e.kind),
        "status"@ + ": "@ + e.status,
    ] + optional_field("id"@, e.id) + optional_field("supersedes"@, e.supersedes) + seq![seq![]]
}

/// An entry as a markdown section. A blank body is left out.
pub open spec fn entry_text(e: EntryModel) -> Seq<char> {
    let header = text::join_lines(entry_header(e));
    if text::is_blank(e.body) {
        header
    } else {
        header + text::trim(e.body).push('\n')
    }
}

/// Appends the line `name: value`.
fn append_field(out: &mut String, name: &str, value: &str)
    ensures
        final(out)@ == old(out)@ + (name@ + ": "@ + value@).push('\n'),
{
    let ghost before = out@;
    out.append(name);
    out.append(": ");
    out.append(value);
    out.push('\n');
    assert(out@ =~= before + (name@ + ": "@ + value@).push('\n'));
}

/// One more line at the end of `ls`.
proof fn lemma_join_push(ls: Seq<Seq<char>>, line: Seq<char>)
    ensures
        text::join_lines(ls.push(line)) == text::join_lines(ls) + line.push('\n'),
{
    assert(ls.push(line).drop_last() =~= ls);
}

impl TypedEntry {
    /// Builds a new active entry.
    pub fn new(kind: MemoryKind, title: &str, body: &str) -> (r: TypedEntry)
        ensures
            r@ == (EntryModel {
                kind,
                title: title@,
                body: body@,
                status: "active"@,
                supersedes: None,
                id: None,
            }),
    {
        TypedEntry {
            kind,
            title: title.to_owned(),
            body: body.to_owned(),
            status: "active".to_owned(),
            supersedes: None,
            id: None,
        }
    }

    /// The entry with the given id.
    pub fn with_id(self, id: &str) -> (r: TypedEntry)
        ensures
            r@ == (EntryModel { id: Some(id@), ..self@ }),
    {
        let mut entry = self;
        entry.id = Some(id.to_owned());
        entry
    }

    /// The entry as one that supersedes `old_id`.
    pub fn superseding(self, old_id: &str) -> (r: TypedEntry)
        ensures
            r@ == (EntryModel { supersedes: Some(old_id@), ..self@ }),
    {
        let mut entry = self;
        entry.supersedes = Some(old_id.to_owned());
        entry
    }

    /// The entry as a superseded one.
    pub fn superseded(self) -> (r: TypedEntry)
        ensures
            r@ == (EntryModel { status: "superseded"@, ..self@ }),
    {
        let mut entry = self;
        entry.status = "superseded".to_owned();
        entry
    }

    /// Renders the entry as a markdown section with its fields.
    pub fn to_markdown(&self) -> (r: String)
        ensures
            r@ == entry_text(self@),
    {
        let label = match self.kind {
            MemoryKind::Decision => "Decision",
            MemoryKind::Fact => "Fact",
            MemoryKind::Preference => "Preference",
            MemoryKind::Procedure => "Procedure",
            MemoryKind::Episode => "Episode",
            MemoryKind::Entity => "Entity",
            MemoryKind::Unknown => "Note",
        };
        let title = to_chars(self.title.as_str());
        let body = to_chars(self.body.as_str());
        let body = trim_chars(body.as_slice());

        let mut out = String::new();
        let ghost mut ls: Seq<Seq<char>> = seq![];
        out.append("## ");
        out.append(label);
        out.append(": ");
        append_chars(&mut out, trim_chars(title.as_slice()));
        out.push('\n');
        proof {
            let heading = "## "@ + kind_label(self.kind) + ": "@ + text::trim(self.title@);
            lemma_join_push(ls, heading);
            ls = ls.push(heading);
            assert(out@ =~= text::join_lines(ls));
        }
        append_field(&mut out, "type", self.kind.as_str());
        proof {
            lemma_join_push(ls, "type"@ + ": "@ + kind::kind_name(self.kind));
            ls = ls.push("type"@ + ": "@ + kind::kind_name(self.kind));
        }
        append_field(&mut out, "status", self.status.as_str());
        proof {
            lemma_join_push(ls, "status"@ + ": "@ + self.status@);
            ls = ls.push("status"@ + ": "@ + self.status@);
        }
        if let Some(id) = &self.id {
            append_field(&mut out, "id", id.as_str());
            proof {
                lemma_join_push(ls, "id"@ + ": "@ + id@);
                ls = ls.push("id"@ + ": "@ + id@);
            }
        }
        if let Some(old) = &self.supersedes {
            append_field(&mut out, "supersedes", old.as_str());
            proof {
                lemma_join_push(ls, "supersedes"@ + ": "@ + old@);
                ls = ls.push("supersedes"@ + ": "@ + old@);
            }
        }
        let ghost before = out@;
        out.push('\n');
        proof {
            lemma_join_push(ls, seq![]);
            ls = ls.push(seq![]);
            assert(out@ =~= before + Seq::<char>::empty().push('\n'));
            assert(ls =~= entry_header(self@));
        }
        if body.len() > 0 {
            let ghost header = out@;
            append_chars(&mut out, body);
            out.push('\n');
            assert(out@ =~= header + text::trim(self.body@).push('\n'));
        }
        out
    }
}

// ---------------------------------------------------------------------------
// Remembered notes
// ---------------------------------------------------------------------------

/// The kind that the wording of a note suggests.
pub open spec fn inferred_kind(note: Seq<char>) -> MemoryKind {
    let lower = text::lowercase(note);
    if text::contains(lower, "decid"@) || text::contains(lower, "we chose"@) || text::contains(
        lower,
        "architecture"@,
    ) {
        MemoryKind::Decision
    } else if text::contains(lower, "always"@) || text::contains(lower, "never "@)
        || text::contains(lower, "prefer"@) || text::contains(lower, "preference"@) {
        MemoryKind::Preference
    } else if text::contains(lower, "how to"@) || text::contains(lower, "steps:"@)
        || text::contains(lower, "runbook"@) || text::contains(lower, "procedure"@) {
        MemoryKind::Procedure
    } else {
        MemoryKind::Fact
    }
}

/// The first line of a note without heading marks and a leading "remember".
pub open spec fn note_subject(note: Seq<char>) -> Seq<char> {
    let ls = text::lines(note);
    let first = text::trim(if ls.len() > 0 { ls[0] } else { note });
    let subject = text::trim(text::skip_while(first, CharSet::Only('#')));
    let subject = text::skip_prefixes(subject, "remember"@);
    let subject = text::skip_prefixes(subject, "Remember"@);
    text::trim(text::skip_while(subject, CharSet::Only(':')))
}

/// The title of a note: its subject, cut with an ellipsis where it is long,
/// or `note` where there is none.
pub open spec fn note_title(note: Seq<char>) -> Seq<char> {
    let subject = note_subject(note);
    if subject.len() == 0 {
        "note"@
    } else if subject.len() > NOTE_TITLE_MAX_CHARS {
        subject.take(NOTE_TITLE_MAX_CHARS as int).push('\u{2026}')
    } else {
        subject
    }
}

/// The entry that a note stands for.
pub open spec fn note_entry(note: Seq<char>, kind: Option<MemoryKind>) -> EntryModel {
    let note = text::trim(note);
    EntryModel {
        kind: match kind {
            Some(k) => k,
            None => inferred_kind(note),
        },
        title: note_title(note),
        body: note,
        status: "active"@,
        supersedes: None,
        id: None,
    }
}

fn infer_kind_from_note(note: &[char]) -> (r: MemoryKind)
    ensures
        r == inferred_kind(note@),
{
    let lower = lowercase_chars(note);
    let s = lower.as_slice();
    if contains_text(s, "decid") || contains_text(s, "we chose") || contains_text(
        s,
        "architecture",
    ) {
        MemoryKind::Decision
    } else if contains_text(s, "always") || contains_text(s, "never ") || contains_text(s, "prefer")
        || contains_text(s, "preference") {
        MemoryKind::Preference
    } else if contains_text(s, "how to") || contains_text(s, "steps:") || contains_text(
        s,
        "runbook",
    ) || contains_text(s, "procedure") {
        MemoryKind::Procedure
    } else {
        MemoryKind::Fact
    }
}

fn title_from_note(note: &[char]) -> (r: String)
    ensures
        r@ == note_title(note@),
{
    let first = if note.len() > 0 {
        first_line(note)
    } else {
        note
    };
    let subject = trim_chars(skip_while_chars(trim_chars(first), CharSet::Only('#')));
    let subject = skip_prefixes_text(subject, "remember");
    let subject = skip_prefixes_text(subject, "Remember");
    let subject = trim_chars(skip_while_chars(subject, CharSet::Only(':')));
    assert(subject@ == note_subject(note@));
    if subject.len() == 0 {
        return "note".to_owned();
    }
    let mut title = from_chars(clip_chars(subject, NOTE_TITLE_MAX_CHARS));
    if subject.len() > NOTE_TITLE_MAX_CHARS {
        title.push('\u{2026}');
    }
    title
}

/// Formats a free-form note as a typed evergreen section. The kind is
/// inferred from the wording where none is given; a blank note gives an empty
/// text.
pub fn format_remember_note(note: &str, kind: Option<MemoryKind>) -> (r: String)
    ensures
        r@ == (if text::is_blank(note@) {
            seq![]
        } else {
            entry_text(note_entry(note@, kind))
        }),
{
    let chars = to_chars(note);
    let note = trim_chars(chars.as_slice());
    if note.len() == 0 {
        return String::new();
    }
    let kind = match kind {
        Some(kind) => kind,
        None => infer_kind_from_note(note),
    };
    let title = title_from_note(note);
    let body = from_chars(note);
    TypedEntry::new(kind, title.as_str(), body.as_str()).to_markdown()
}

// ---------------------------------------------------------------------------
// Core pins
// ---------------------------------------------------------------------------

/// Options for the selection of the always-on core.
#[derive(Debug, Clone)]
pub struct CorePinConfig {
    /// Character budget for the texts of all pins. The first pin is taken even
    /// where it exceeds the budget by itself.
    pub max_chars: usize,
    /// The largest number of pins.
    pub max_sections: usize,
    /// Kinds eligible for always-on injection, in priority order.
    pub kind_priority: Vec<MemoryKind>,
}

impl Default for CorePinConfig {
    fn default() -> (r: CorePinConfig)
        ensures
            r.max_chars == DEFAULT_CORE_PIN_MAX_CHARS,
            r.max_sections == DEFAULT_CORE_PIN_MAX_SECTIONS,
            r.kind_priority@ == seq![
                MemoryKind::Preference,
                MemoryKind::Decision,
                MemoryKind::Fact,
            ],
    {
        let mut kind_priority: Vec<MemoryKind> = Vec::new();
        kind_priority.push(MemoryKind::Preference);
        kind_priority.push(MemoryKind::Decision);
        kind_priority.push(MemoryKind::Fact);
        CorePinConfig {
            max_chars: DEFAULT_CORE_PIN_MAX_CHARS,
            max_sections: DEFAULT_CORE_PIN_MAX_SECTIONS,
            kind_priority,
        }
    }
}

/// A core-pin section extracted from evergreen markdown.
#[derive(Debug, Clone, PartialEq, Eq)]
pub struct CorePinSection {
    pub kind: MemoryKind,
    pub title: String,
    pub text: String,
}

/// The mathematical content of a [`CorePinSection`].
#[verifier::ext_equal]
pub struct PinModel {
    pub kind: MemoryKind,
    pub title: Seq<char>,
    pub text: Seq<char>,
}

impl View for CorePinSection {
    type V = PinModel;

    open spec fn view(&self) -> PinModel {
        PinModel { kind: self.kind, title: self.title@, text: self.text@ }
    }
}

/// The models of some pins.
pub open spec fn pin_views(pins: Seq<CorePinSection>) -> Seq<PinModel> {
    Seq::new(pins.len(), |i: int| pins[i]@)
}

/// The first position of `kind` in `order`, or the length of `order`.
pub open spec fn priority_of(order: Seq<MemoryKind>, kind: MemoryKind) -> nat
    decreases order.len(),
{
    if order.len() == 0 || order[0] == kind {
        0
    } else {
        1 + priority_of(order.skip(1), kind)
    }
}

/// The section as it is classified and pinned: a heading of the second level
/// with the section's title, and the body.
pub open spec fn pin_source(section: sections::SectionModel) -> Seq<char> {
    ("## "@ + section.title()).push('\n') + section.body
}

/// Whether a section may be pinned: it is not superseded, and its kind is one
/// of `order`.
pub open spec fn is_pinnable(section: sections::SectionModel, order: Seq<MemoryKind>) -> bool {
    let meta = kind::classification(pin_source(section), "workspace"@);
    &&& meta.status != "superseded"@
    &&& priority_of(order, meta.kind) < order.len()
}

/// The pin of a section.
pub open spec fn pin_of(section: sections::SectionModel) -> PinModel {
    PinModel {
        kind: kind::classification(pin_source(section), "workspace"@).kind,
        title: section.title(),
        text: text::trim(pin_source(section)),
    }
}

/// The pins of the sections that may be pinned, in the order of the text.
pub open spec fn candidates(
    all: Seq<sections::SectionModel>,
    order: Seq<MemoryKind>,
) -> Seq<PinModel>
    decreases all.len(),
{
    if all.len() == 0 {
        seq![]
    } else if is_pinnable(all.last(), order) {
        candidates(all.drop_last(), order).push(pin_of(all.last()))
    } else {
        candidates(all.drop_last(), order)
    }
}

/// The pins of one priority, in their order.
pub open spec fn at_priority(pins: Seq<PinModel>, order: Seq<MemoryKind>, p: nat) -> Seq<PinModel>
    decreases pins.len(),
{
    if pins.len() == 0 {
        seq![]
    } else if priority_of(order, pins.last().kind) == p {
        at_priority(pins.drop_last(), order, p).push(pins.last())
    } else {
        at_priority(pins.drop_last(), order, p)
    }
}

/// The pins of the first `n` priorities, one priority after the other, and
/// within a priority in their order.
pub open spec fn by_priority(pins: Seq<PinModel>, order: Seq<MemoryKind>, n: nat) -> Seq<PinModel>
    decreases n,
{
    if n == 0 {
        seq![]
    } else {
        let m = (n - 1) as nat;
        by_priority(pins, order, m) + at_priority(pins, order, m)
    }
}

/// The length of the texts of some pins, in characters.
pub open spec fn total_len(pins: Seq<PinModel>) -> nat
    decreases pins.len(),
{
    if pins.len() == 0 {
        0
    } else {
        total_len(pins.drop_last()) + pins.last().text.len()
    }
}

/// Whether a pin is taken after those of `taken`.
pub open spec fn fits(
    taken: Seq<PinModel>,
    pin: PinModel,
    max_chars: nat,
    max_sections: nat,
) -> bool {
    &&& taken.len() < max_sections
    &&& pin.text.len() > 0
    &&& (taken.len() == 0 || total_len(taken) + pin.text.len() <= max_chars)
}

/// The pins that are taken when `pins` are offered one after the other.
pub open spec fn taken(pins: Seq<PinModel>, max_chars: nat, max_sections: nat) -> Seq<PinModel>
    decreases pins.len(),
{
    if pins.len() == 0 {
        seq![]
    } else {
        let before = taken(pins.drop_last(), max_chars, max_sections);
        if fits(before, pins.last(), max_chars, max_sections) {
            before.push(pins.last())
        } else {
            before
        }
    }
}

/// The core pins of a markdown text.
pub open spec fn core_pins(
    markdown: Seq<char>,
    order: Seq<MemoryKind>,
    max_chars: nat,
    max_sections: nat,
) -> Seq<PinModel> {
    let pins = candidates(sections::markdown_sections(markdown), order);
    taken(by_priority(pins, order, order.len()), max_chars, max_sections)
}

/// The first position of a kind in `order`, or the length of `order`.
fn position(order: &Vec<MemoryKind>, kind: MemoryKind) -> (r: usize)
    ensures
        r == priority_of(order@, kind),
        r <= order@.len(),
{
    let mut i: usize = 0;
    assert(order@.skip(0) =~= order@);
    while i < order.len()
        invariant
            i <= order@.len(),
            priority_of(order@, kind) == i + priority_of(order@.skip(i as int), kind),
        decreases order@.len() - i,
    {
        if order[i] == kind {
            return i;
        }
        assert(order@.skip(i as int).skip(1) =~= order@.skip(i + 1));
        i += 1;
    }
    i
}

/// The pin of a section, where it may be pinned.
fn pin_section<'a>(section: &Section<'a>, order: &Vec<MemoryKind>) -> (r: Option<CorePinSection>)
    ensures
        match r {
            Some(pin) => is_pinnable(section@, order@) && pin@ == pin_of(section@),
            None => !is_pinnable(section@, order@),
        },
{
    let title = section_title(section.heading);
    let mut full = to_chars("## ");
    sections::append_line(&mut full, title);
    let mut body = section.body.clone();
    assert(body@ =~= section.body@);
    full.append(&mut body);
    assert(full@ =~= pin_source(section@)) by {
        assert("## "@ + title@.push('\n') =~= ("## "@ + title@).push('\n'));
    }
    let meta = classify_chars(full.as_slice(), "workspace");
    let status = to_chars(meta.status.as_str());
    if text::is_text(status.as_slice(), "superseded") {
        return None;
    }
    if position(order, meta.kind) >= order.len() {
        return None;
    }
    Some(
        CorePinSection {
            kind: meta.kind,
            title: from_chars(title),
            text: from_chars(trim_chars(full.as_slice())),
        },
    )
}

/// Extracts the bounded core from evergreen markdown.
///
/// Active sections whose kind is one of the configured ones are taken in
/// priority order, subject to the caps on characters and sections. Superseded
/// sections are skipped.
pub fn extract_core_pins(markdown: &str, config: &CorePinConfig) -> (r: Vec<CorePinSection>)
    ensures
        pin_views(r@) == core_pins(
            markdown@,
            config.kind_priority@,
            config.max_chars as nat,
            config.max_sections as nat,
        ),
{
    let chars = to_chars(markdown);
    let all = split_sections(chars.as_slice());
    let ghost models = sections::markdown_sections(markdown@);
    let ghost order = config.kind_priority@;
    let ghost max_chars = config.max_chars as nat;
    let ghost max_sections = config.max_sections as nat;

    let mut pins: Vec<CorePinSection> = Vec::new();
    assert(models.take(0) =~= seq![]);
    for i in 0..all.len()
        invariant
            models == sections::section_views(all@),
            order == config.kind_priority@,
            pin_views(pins@) == candidates(models.take(i as int), order),
    {
        let ghost before = pin_views(pins@);
        assert(models.take(i + 1).drop_last() =~= models.take(i as int));
        assert(models.take(i + 1).last() == all@[i as int]@);
        if let Some(pin) = pin_section(&all[i], &config.kind_priority) {
            pins.push(pin);
            assert(pin_views(pins@) =~= before.push(pin@));
        }
    }
    assert(models.take(models.len() as int) =~= models);
    let ghost offered = pin_views(pins@);

    let mut selected: Vec<CorePinSection> = Vec::new();
    let mut used: usize = 0;
    for p in 0..config.kind_priority.len()
        invariant
            order == config.kind_priority@,
            max_chars == config.max_chars,
            max_sections == config.max_sections,
            offered == pin_views(pins@),
            pin_views(selected@) == taken(
                by_priority(offered, order, p as nat),
                max_chars,
                max_sections,
            ),
            used == total_len(pin_views(selected@)),
    {
        let ghost earlier = by_priority(offered, order, p as nat);
        assert(offered.take(0) =~= seq![]);
        assert(earlier + at_priority(offered.take(0), order, p as nat) =~= earlier);
        for i in 0..pins.len()
            invariant
                order == config.kind_priority@,
                max_chars == config.max_chars,
                max_sections == config.max_sections,
                offered == pin_views(pins@),
                earlier == by_priority(offered, order, p as nat),
                pin_views(selected@) == taken(
                    earlier + at_priority(offered.take(i as int), order, p as nat),
                    max_chars,
                    max_sections,
                ),
                used == total_len(pin_views(selected@)),
        {
            let ghost before = pin_views(selected@);
            let ghost now = at_priority(offered.take(i as int), order, p as nat);
            assert(offered.take(i + 1).drop_last() =~= offered.take(i as int));
            assert(offered.take(i + 1).last() == pins@[i as int]@);
            if position(&config.kind_priority, pins[i].kind) == p {
                proof {
                    let with = earlier + now.push(pins@[i as int]@);
                    assert(with.drop_last() =~= earlier + now);
                    assert(with.last() == pins@[i as int]@);
                }
                let len = to_chars(pins[i].text.as_str()).len();
                let full = selected.len() >= config.max_sections;
                let over = used > config.max_chars || len > config.max_chars - used;
                if !full && !pins[i].text.as_str().is_empty() && (selected.len() == 0 || !over) {
                    let pin = CorePinSection {
                        kind: pins[i].kind,
                        title: pins[i].title.clone(),
                        text: pins[i].text.clone(),
                    };
                    used = used + len;
                    selected.push(pin);
                    assert(pin_views(selected@) =~= before.push(pin@));
                    assert(before.push(pin@).drop_last() =~= before);
                }
            }
        }
        assert(offered.take(offered.len() as int) =~= offered);
    }
    selected
}

/// The opening of the block that holds the core pins.
pub open spec fn core_pin_intro() -> Seq<char> {
    "## Soft-Internal Core (always on)\n\nThese are high-priority preferences and active decisions. Prefer them over model priors. They do not expire with session logs.\n\n"@
}

/// The texts of some pins, each closed by a line feed and followed by an
/// empty line.
pub open spec fn pin_texts(pins: Seq<PinModel>) -> Seq<char>
    decreases pins.len(),
{
    if pins.len() == 0 {
        seq![]
    } else {
        pin_texts(pins.drop_last()) + closed_line(pins.last().text).push('\n')
    }
}

/// `s` with a line feed at its end, where it has none there.
pub open spec fn closed_line(s: Seq<char>) -> Seq<char> {
    if s.len() > 0 && s.last() == '\n' {
        s
    } else {
        s.push('\n')
    }
}

/// Formats core pins for injection into a system prompt; nothing where there
/// are none.
pub fn format_core_pin_injection(pins: &[CorePinSection]) -> (r: Option<String>)
    ensures
        match r {
            Some(out) => pins@.len() > 0 && out@ == core_pin_intro() + pin_texts(pin_views(pins@)),
            None => pins@.len() == 0,
        },
{
    if pins.len() == 0 {
        return None;
    }
    let mut out =
        "## Soft-Internal Core (always on)\n\nThese are high-priority preferences and active decisions. Prefer them over model priors. They do not expire with session logs.\n\n".to_owned();
    let ghost models = pin_views(pins@);
    assert(models.take(0) =~= seq![]);
    assert(out@ =~= core_pin_intro() + pin_texts(models.take(0)));
    for i in 0..pins.len()
        invariant
            models == pin_views(pins@),
            out@ == core_pin_intro() + pin_texts(models.take(i as int)),
    {
        let ghost before = out@;
        assert(models.take(i + 1).drop_last() =~= models.take(i as int));
        let chars = to_chars(pins[i].text.as_str());
        append_chars(&mut out, chars.as_slice());
        if chars.len() == 0 || chars[chars.len() - 1] != '\n' {
            out.push('\n');
        }
        out.push('\n');
        assert(out@ =~= before + closed_line(models[i as int].text).push('\n'));
        assert(out@ =~= core_pin_intro() + pin_texts(models.take(i + 1)));
    }
    assert(models.take(models.len() as int) =~= models);
    Some(out)
}

/// The content of the evergreen files that is read for pins: the ones that
/// are there and not blank, with an empty line between two.
pub open spec fn evergreen(global: Option<Seq<char>>, workspace: Option<Seq<char>>) -> Seq<char> {
    match (usable(global), usable(workspace)) {
        (Some(g), Some(w)) => g + "\n\n"@ + w,
        (Some(g), None) => g,
        (None, Some(w)) => w,
        (None, None) => seq![],
    }
}

/// The content of a file, where it is there and not blank.
pub open spec fn usable(content: Option<Seq<char>>) -> Option<Seq<char>> {
    match content {
        Some(s) => if text::is_blank(s) {
            None
        } else {
            Some(s)
        },
        None => None,
    }
}

/// Whether a text is empty or white space only.
fn is_blank_text(s: &str) -> (r: bool)
    ensures
        r == text::is_blank(s@),
{
    let chars = to_chars(s);
    trim_chars(chars.as_slice()).len() == 0
}

/// Core pins of the global and the workspace file, given their contents
/// (nothing for a file that is missing or cannot be read).
pub fn load_core_pins(
    global: Option<&str>,
    workspace: Option<&str>,
    config: &CorePinConfig,
) -> (r: Vec<CorePinSection>)
    ensures
        pin_views(r@) == core_pins(
            evergreen(text::optional_str(global), text::optional_str(workspace)),
            config.kind_priority@,
            config.max_chars as nat,
            config.max_sections as nat,
        ),
{
    let mut markdown = String::new();
    if let Some(content) = global {
        if !is_blank_text(content) {
            markdown.append(content);
        }
    }
    assert(markdown@ =~= match usable(text::optional_str(global)) {
        Some(g) => g,
        None => seq![],
    });
    assert(usable(text::optional_str(global)) matches Some(g) ==> g.len() > 0);
    if let Some(content) = workspace {
        if !is_blank_text(content) {
            if !markdown.as_str().is_empty() {
                markdown.append("\n\n");
            }
            markdown.append(content);
        }
    }
    assert(markdown@ =~= evergreen(text::optional_str(global), text::optional_str(workspace)));
    extract_core_pins(markdown.as_str(), config)
}

// ---------------------------------------------------------------------------
// Supersession
// ---------------------------------------------------------------------------

/// Whether a line is the field `id: ` with this id.
pub open spec fn is_id_line(line: Seq<char>, id: Seq<char>) -> bool {
    let t = text::trim(line);
    text::starts_with(t, "id:"@) && text::trim(t.skip("id:"@.len() as int)) == id
}

/// Whether a text has a line that is the field `id: ` with this id.
pub open spec fn declares_id(s: Seq<char>, id: Seq<char>) -> bool {
    exists|k: int| 0 <= k < text::lines(s).len() && is_id_line(#[trigger] text::lines(s)[k], id)
}

/// Whether a section is one that `id` names: it has the field `id: ` with this
/// id.
pub open spec fn is_target(section: sections::SectionModel, id: Seq<char>) -> bool {
    declares_id(section.full(), id)
}

/// Whether a line begins with the field name `status:`.
pub open spec fn is_status_line(line: Seq<char>) -> bool {
    text::starts_with(text::trim(line), "status:"@)
}

/// A line of a section that is marked as superseded.
pub open spec fn marked_line(line: Seq<char>) -> Seq<char> {
    if is_status_line(line) {
        "status: superseded"@
    } else {
        line
    }
}

/// Whether one of the lines begins with the field name `status:`.
pub open spec fn has_status_line(ls: Seq<Seq<char>>) -> bool {
    exists|k: int| 0 <= k < ls.len() && is_status_line(#[trigger] ls[k])
}

/// The lines of a section that is marked as superseded: every status is
/// replaced, and one is added at the end where there was none.
pub open spec fn marked_lines(ls: Seq<Seq<char>>) -> Seq<Seq<char>> {
    let marked = Seq::new(ls.len(), |i: int| marked_line(ls[i]));
    if has_status_line(ls) {
        marked
    } else {
        marked.push("status: superseded"@)
    }
}

/// A section, marked as superseded where `id` names it.
pub open spec fn marked_section(
    section: sections::SectionModel,
    id: Seq<char>,
) -> sections::SectionModel {
    if is_target(section, id) {
        sections::SectionModel {
            heading: section.heading,
            body: text::join_lines(marked_lines(text::lines(section.body))),
        }
    } else {
        section
    }
}

/// The text of some sections, each one followed by an empty line.
pub open spec fn sections_text(all: Seq<sections::SectionModel>) -> Seq<char>
    decreases all.len(),
{
    if all.len() == 0 {
        seq![]
    } else {
        sections_text(all.drop_last()) + all.last().full().push('\n')
    }
}

/// Some sections, each marked as superseded where `id` names it.
pub open spec fn marked_sections(
    all: Seq<sections::SectionModel>,
    id: Seq<char>,
) -> Seq<sections::SectionModel> {
    Seq::new(all.len(), |i: int| marked_section(all[i], id))
}

/// Whether `id` names one of the sections.
pub open spec fn has_target(all: Seq<sections::SectionModel>, id: Seq<char>) -> bool {
    exists|k: int| 0 <= k < all.len() && is_target(#[trigger] all[k], id)
}

/// The markdown text in which the sections that `id` names are marked as
/// superseded; nothing where there is none.
pub open spec fn superseded_markdown(markdown: Seq<char>, id: Seq<char>) -> Option<Seq<char>> {
    let all = sections::markdown_sections(markdown);
    if id.len() == 0 || !text::contains(markdown, id) || !has_target(all, id) {
        None
    } else {
        Some(sections::preamble(markdown) + sections_text(marked_sections(all, id)))
    }
}

/// Whether a line is the field `id: ` with this id.
fn is_id_line_chars(line: &[char], id: &[char]) -> (r: bool)
    ensures
        r == is_id_line(line@, id@),
{
    let t = trim_chars(line);
    proof {
        reveal_strlit("id:");
    }
    if !starts_with_text(t, "id:") {
        return false;
    }
    let rest = slice_subrange(t, 3, t.len());
    assert(rest@ =~= t@.skip(3));
    same_chars(trim_chars(rest), id)
}

/// Whether a text has a line that is the field `id: ` with this id.
pub(crate) fn declares_id_chars(s: &[char], id: &[char]) -> (r: bool)
    ensures
        r == declares_id(s@, id@),
{
    let ls = lines_chars(s);
    let ghost models = text::lines(s@);
    for i in 0..ls.len()
        invariant
            models == text::lines(s@),
            models == text::slice_views(ls@),
            forall|k: int| 0 <= k < i ==> !is_id_line(#[trigger] models[k], id@),
    {
        assert(models[i as int] == ls@[i as int]@);
        if is_id_line_chars(ls[i], id) {
            return true;
        }
    }
    false
}

/// Whether `id` names a section.
fn is_target_section<'a>(section: &Section<'a>, id: &[char]) -> (r: bool)
    ensures
        r == is_target(section@, id@),
{
    let mut full: Vec<char> = Vec::new();
    sections::append_line(&mut full, section.heading);
    let mut body = section.body.clone();
    assert(body@ =~= section.body@);
    full.append(&mut body);
    assert(full@ =~= section@.full());
    declares_id_chars(full.as_slice(), id)
}

/// Appends the body of a section that is marked as superseded.
fn append_marked(out: &mut String, body: &[char])
    ensures
        final(out)@ == old(out)@ + text::join_lines(marked_lines(text::lines(body@))),
{
    let ghost before = out@;
    let ls = lines_chars(body);
    let ghost models = text::lines(body@);
    let ghost marked = Seq::new(models.len(), |i: int| marked_line(models[i]));
    let mut saw_status = false;
    assert(marked.take(0) =~= seq![]);
    assert(out@ =~= before + text::join_lines(marked.take(0)));
    for i in 0..ls.len()
        invariant
            models == text::lines(body@),
            models == text::slice_views(ls@),
            marked == Seq::new(models.len(), |i: int| marked_line(models[i])),
            out@ == before + text::join_lines(marked.take(i as int)),
            saw_status == (exists|k: int| 0 <= k < i && is_status_line(#[trigger] models[k])),
    {
        let ghost so_far = out@;
        let line = ls[i];
        assert(models[i as int] == line@);
        assert(marked.take(i + 1) =~= marked.take(i as int).push(marked_line(line@)));
        proof {
            lemma_join_push(marked.take(i as int), marked_line(line@));
        }
        if starts_with_text(trim_chars(line), "status:") {
            out.append("status: superseded");
            saw_status = true;
        } else {
            append_chars(out, line);
        }
        out.push('\n');
        assert(out@ =~= so_far + marked_line(line@).push('\n'));
        assert(out@ =~= before + text::join_lines(marked.take(i + 1)));
    }
    assert(marked.take(marked.len() as int) =~= marked);
    if !saw_status {
        let ghost so_far = out@;
        out.append("status: superseded");
        out.push('\n');
        proof {
            lemma_join_push(marked, "status: superseded"@);
        }
        assert(out@ =~= so_far + "status: superseded"@.push('\n'));
        assert(out@ =~= before + text::join_lines(marked.push("status: superseded"@)));
    }
}

/// Marks the sections that `id` names as superseded.
///
/// A section is named by its field `id: {id}`. Its status is set to `superseded`; the other sections and the text
/// before the first heading are kept. Gives the rewritten text, or nothing
/// where no section is named.
pub fn mark_superseded_in_markdown(markdown: &str, id: &str) -> (r: Option<String>)
    ensures
        text::optional(r) == superseded_markdown(markdown@, id@),
{
    let chars = to_chars(markdown);
    let id_chars = to_chars(id);
    if id_chars.len() == 0 || !contains_chars(chars.as_slice(), id_chars.as_slice()) {
        return None;
    }
    let all = split_sections(chars.as_slice());
    let ghost models = sections::markdown_sections(markdown@);
    let ghost marked = marked_sections(models, id@);

    let mut out = String::new();
    append_chars(&mut out, preamble_before_h2(chars.as_slice()));
    let ghost intro = sections::preamble(markdown@);
    let mut changed = false;
    assert(marked.take(0) =~= seq![]);
    assert(out@ =~= intro + sections_text(marked.take(0)));
    for i in 0..all.len()
        invariant
            id_chars@ == id@,
            models == sections::section_views(all@),
            marked == marked_sections(models, id@),
            out@ == intro + sections_text(marked.take(i as int)),
            changed == (exists|k: int| 0 <= k < i && is_target(#[trigger] models[k], id@)),
    {
        let ghost so_far = out@;
        let ghost section = models[i as int];
        assert(section == all@[i as int]@);
        assert(marked.take(i + 1).drop_last() =~= marked.take(i as int));
        append_chars(&mut out, all[i].heading);
        out.push('\n');
        if is_target_section(&all[i], id_chars.as_slice()) {
            append_marked(&mut out, all[i].body.as_slice());
            changed = true;
        } else {
            append_chars(&mut out, all[i].body.as_slice());
        }
        out.push('\n');
        assert(out@ =~= so_far + marked_section(section, id@).full().push('\n'));
        assert(out@ =~= intro + sections_text(marked.take(i + 1)));
    }
    assert(marked.take(marked.len() as int) =~= marked);
    if changed {
        Some(out)
    } else {
        None
    }
}

// ---------------------------------------------------------------------------
// Promotion
// ---------------------------------------------------------------------------

/// Which of the two evergreen files an entry goes to.
#[derive(Debug, Clone, Copy, PartialEq, Eq, Structural)]
pub enum MemoryScope {
    Global,
    Workspace,
}

/// A change to an evergreen file.
#[derive(Debug, Clone, PartialEq, Eq)]
pub enum StoreAction {
    /// The file gets this content.
    Rewrite { scope: MemoryScope, content: String },
    /// This text is appended to the file.
    Append { scope: MemoryScope, text: String },
}

/// The mathematical content of a [`StoreAction`].
#[verifier::ext_equal]
pub enum ActionModel {
    Rewrite { scope: MemoryScope, content: Seq<char> },
    Append { scope: MemoryScope, text: Seq<char> },
}

impl View for StoreAction {
    type V = ActionModel;

    open spec fn view(&self) -> ActionModel {
        match self {
            StoreAction::Rewrite { scope, content } => ActionModel::Rewrite {
                scope: *scope,
                content: content@,
            },
            StoreAction::Append { scope, text } => ActionModel::Append {
                scope: *scope,
                text: text@,
            },
        }
    }
}

/// The models of some actions.
pub open spec fn action_views(actions: Seq<StoreAction>) -> Seq<ActionModel> {
    Seq::new(actions.len(), |i: int| actions[i]@)
}

/// What the promotion of an entry does to a file with this content: what the
/// entry supersedes is marked, where the file has it, and the entry is
/// appended.
pub open spec fn promotion(
    scope: MemoryScope,
    entry: EntryModel,
    existing: Option<Seq<char>>,
) -> Seq<ActionModel> {
    let rewritten = match (entry.supersedes, existing) {
        (Some(old_id), Some(markdown)) => superseded_markdown(markdown, old_id),
        _ => None,
    };
    let append = ActionModel::Append { scope, text: entry_text(entry) };
    match rewritten {
        Some(content) => seq![ActionModel::Rewrite { scope, content }, append],
        None => seq![append],
    }
}

/// Plans the promotion of an entry to the global or workspace file: its
/// markdown is appended.
pub fn promote_entry(scope: MemoryScope, entry: &TypedEntry) -> (r: Vec<StoreAction>)
    ensures
        action_views(r@) == seq![ActionModel::Append { scope, text: entry_text(entry@) }],
{
    let mut actions: Vec<StoreAction> = Vec::new();
    let action = StoreAction::Append { scope, text: entry.to_markdown() };
    actions.push(action);
    assert(action_views(actions@) =~= seq![action@]);
    actions
}

/// Plans the promotion of an entry to a file with the given content (nothing
/// where the file is missing or cannot be read): what the entry supersedes is
/// marked first, then the entry is appended.
pub fn promote_with_supersession(
    scope: MemoryScope,
    entry: &TypedEntry,
    existing: Option<&str>,
) -> (r: Vec<StoreAction>)
    ensures
        action_views(r@) == promotion(scope, entry@, text::optional_str(existing)),
{
    let mut actions: Vec<StoreAction> = Vec::new();
    if let Some(old_id) = &entry.supersedes {
        if let Some(markdown) = existing {
            if let Some(content) = mark_superseded_in_markdown(markdown, old_id.as_str()) {
                actions.push(StoreAction::Rewrite { scope, content });
            }
        }
    }
    let ghost before = action_views(actions@);
    let action = StoreAction::Append { scope, text: entry.to_markdown() };
    actions.push(action);
    assert(action_views(actions@) =~= before.push(action@));
    assert(action_views(actions@) =~= promotion(scope, entry@, text::optional_str(existing)));
    actions
}

} // verus!
