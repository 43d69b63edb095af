//! What is written of an entry is read back from it.

use crate::kind;
use crate::kind::{ChunkMetaModel, LineCue, MemoryKind};
use crate::promote;
use crate::promote::EntryModel;
use crate::text;
use crate::text::CharSet;
use crate::text_facts;
use vstd::prelude::*;

verus! {

// ---------------------------------------------------------------------------
// Kinds
// ---------------------------------------------------------------------------

/// The name of a kind names it.
proof fn lemma_named_kind(kind: MemoryKind)
    ensures
        kind::named_kind(kind::kind_name(kind)) == Some(kind),
        text_facts::is_tight(kind::kind_name(kind)),
        text_facts::is_line(kind::kind_name(kind)),
        text::lowercase(kind::kind_name(kind)) == kind::kind_name(kind),
{
    reveal_strlit("fact");
    reveal_strlit("facts");
    reveal_strlit("decision");
    reveal_strlit("decisions");
    reveal_strlit("adr");
    reveal_strlit("preference");
    reveal_strlit("preferences");
    reveal_strlit("pref");
    reveal_strlit("prefs");
    reveal_strlit("procedure");
    reveal_strlit("procedures");
    reveal_strlit("runbook");
    reveal_strlit("howto");
    reveal_strlit("how-to");
    reveal_strlit("episode");
    reveal_strlit("session");
    reveal_strlit("sessions");
    reveal_strlit("entity");
    reveal_strlit("entities");
    reveal_strlit("unknown");
    reveal_strlit("");
    assert("fact"@.len() == 4);
    assert("facts"@.len() == 5);
    assert("decision"@.len() == 8);
    assert("decisions"@.len() == 9);
    assert("adr"@.len() == 3);
    assert("preference"@.len() == 10);
    assert("preferences"@.len() == 11);
    assert("pref"@.len() == 4);
    assert("prefs"@.len() == 5);
    assert("procedure"@.len() == 9);
    assert("procedures"@.len() == 10);
    assert("runbook"@.len() == 7);
    assert("howto"@.len() == 5);
    assert("how-to"@.len() == 6);
    assert("episode"@.len() == 7);
    assert("session"@.len() == 7);
    assert("sessions"@.len() == 8);
    assert("entity"@.len() == 6);
    match kind {
        MemoryKind::Procedure => {
            assert("procedure"@[0] != "decisions"@[0]);
        },
        MemoryKind::Episode => {
            assert("episode"@[0] != "runbook"@[0]);
        },
        MemoryKind::Entity => {
            assert("entity"@[0] != "how-to"@[0]);
        },
        MemoryKind::Unknown => {
            assert("unknown"@[0] != "runbook"@[0]);
            assert("unknown"@[0] != "episode"@[0]);
            assert("unknown"@[0] != "session"@[0]);
        },
        _ => {},
    }
    assert(text::lowercase(kind::kind_name(kind)) =~= kind::kind_name(kind));
}

/// A small letter is no white space, and neither is its capital.
proof fn lemma_lower_white(c: char)
    requires
        text::is_white_space(c),
    ensures
        text::ascii_lower(c) == c,
{
}

/// A kind is read back from its name, whatever the case of its letters and
/// the white space around it.
pub proof fn law_kind_reads_back(
    kind: MemoryKind,
    before: Seq<char>,
    word: Seq<char>,
    after: Seq<char>,
)
    requires
        text_facts::all_white(before),
        text_facts::all_white(after),
        text::lowercase(word) == kind::kind_name(kind),
    ensures
        kind::parsed_kind(before + word + after) == Some(kind),
{
    lemma_named_kind(kind);
    let name = kind::kind_name(kind);
    assert(name.len() == word.len());
    assert(name[0] == text::ascii_lower(word[0]));
    assert(name.last() == text::ascii_lower(word.last()));
    if text::is_white_space(word[0]) {
        lemma_lower_white(word[0]);
    }
    if text::is_white_space(word.last()) {
        lemma_lower_white(word.last());
    }
    text_facts::lemma_trim_is(before, word, after);
}

// ---------------------------------------------------------------------------
// Cues
// ---------------------------------------------------------------------------

/// The kind of a chunk after some more lines, where `before` is the kind that
/// the lines before them give.
pub open spec fn kind_after(before: MemoryKind, ls: Seq<Seq<char>>) -> MemoryKind
    decreases ls.len(),
{
    if ls.len() == 0 {
        before
    } else {
        let so_far = kind_after(before, ls.drop_last());
        match kind::line_cue(ls.last()) {
            LineCue::Kind(kind) => kind,
            LineCue::Heading(kind) => if so_far == MemoryKind::Unknown {
                kind
            } else {
                so_far
            },
            _ => so_far,
        }
    }
}

/// The status of a chunk after some more lines.
pub open spec fn status_after(before: Seq<char>, ls: Seq<Seq<char>>) -> Seq<char>
    decreases ls.len(),
{
    if ls.len() == 0 {
        before
    } else {
        match kind::line_cue(ls.last()) {
            LineCue::Status(status) => status,
            _ => status_after(before, ls.drop_last()),
        }
    }
}

/// What a chunk supersedes after some more lines.
pub open spec fn supersedes_after(before: Option<Seq<char>>, ls: Seq<Seq<char>>) -> Option<
    Seq<char>,
>
    decreases ls.len(),
{
    if ls.len() == 0 {
        before
    } else {
        match kind::line_cue(ls.last()) {
            LineCue::Supersedes(id) => Some(id),
            _ => supersedes_after(before, ls.drop_last()),
        }
    }
}

/// The cues of lines that stand one after the other.
proof fn lemma_cues_add(a: Seq<Seq<char>>, b: Seq<Seq<char>>)
    ensures
        kind::kind_of(a + b) == kind_after(kind::kind_of(a), b),
        kind::status_of(a + b) == status_after(kind::status_of(a), b),
        kind::supersedes_of(a + b) == supersedes_after(kind::supersedes_of(a), b),
    decreases b.len(),
{
    if b.len() == 0 {
        assert(a + b =~= a);
    } else {
        lemma_cues_add(a, b.drop_last());
        assert((a + b).drop_last() =~= a + b.drop_last());
    }
}

/// One more line among the ones that are not blank.
pub proof fn lemma_nonblank_push(ls: Seq<Seq<char>>, line: Seq<char>)
    ensures
        kind::nonblank(ls.push(line)) == (if text::is_blank(line) {
            kind::nonblank(ls)
        } else {
            kind::nonblank(ls).push(text::trim(line))
        }),
{
    assert(ls.push(line).drop_last() =~= ls);
}

/// The lines that are not blank, of lines that stand one after the other.
pub proof fn lemma_nonblank_add(a: Seq<Seq<char>>, b: Seq<Seq<char>>)
    ensures
        kind::nonblank(a + b) == kind::nonblank(a) + kind::nonblank(b),
    decreases b.len(),
{
    if b.len() == 0 {
        assert(a + b =~= a);
        assert(kind::nonblank(a) + kind::nonblank(b) =~= kind::nonblank(a));
    } else {
        lemma_nonblank_add(a, b.drop_last());
        assert((a + b).drop_last() =~= a + b.drop_last());
        assert(kind::nonblank(a + b) =~= kind::nonblank(a) + kind::nonblank(b));
    }
}

/// Carriage returns at the ends of lines do not change what is scanned.
pub proof fn lemma_nonblank_stripped(ls: Seq<Seq<char>>)
    ensures
        kind::nonblank(text_facts::stripped(ls)) == kind::nonblank(ls),
    decreases ls.len(),
{
    if ls.len() > 0 {
        lemma_nonblank_stripped(ls.drop_last());
        assert(text_facts::stripped(ls).drop_last() =~= text_facts::stripped(ls.drop_last()));
        text_facts::lemma_trim_stripped(ls.last());
    }
}

/// The nonblank lines are trimmed lines of the list.
pub proof fn lemma_nonblank_from(ls: Seq<Seq<char>>)
    ensures
        forall|k: int|
            0 <= k < kind::nonblank(ls).len() ==> exists|j: int|
                0 <= j < ls.len() && #[trigger] kind::nonblank(ls)[k] == text::trim(
                    #[trigger] ls[j],
                ),
    decreases ls.len(),
{
    if ls.len() > 0 {
        let init = ls.drop_last();
        lemma_nonblank_from(init);
        assert forall|k: int| 0 <= k < kind::nonblank(ls).len() implies exists|j: int|
            0 <= j < ls.len() && #[trigger] kind::nonblank(ls)[k] == text::trim(
                #[trigger] ls[j],
            ) by {
            if k < kind::nonblank(init).len() {
                assert(kind::nonblank(ls)[k] == kind::nonblank(init)[k]);
                let j = choose|j: int|
                    0 <= j < init.len() && kind::nonblank(init)[k] == text::trim(
                        #[trigger] init[j],
                    );
                assert(ls[j] == init[j]);
            } else {
                assert(ls[ls.len() - 1] == ls.last());
            }
        }
    }
}

/// A line `name: value` as a field. A heading is none, and neither is a line
/// with another name.
pub proof fn lemma_field_line(name: Seq<char>, value: Seq<char>, key: Seq<char>)
    requires
        text_facts::is_tight(name),
        forall|k: int| 0 <= k < name.len() ==> #[trigger] name[k] != ':',
    ensures
        ({
            let t = text::trim(name + ": "@ + value);
            &&& kind::field_value(t, key) == if name[0] != '#' && text::lowercase(name)
                == text::lowercase(key) {
                Some(text::trim(value))
            } else {
                None
            }
            &&& t.len() > name.len()
            &&& t[0] == name[0]
        }),
{
    reveal_strlit(": ");
    reveal_strlit("#");
    let prefix = name.push(':');
    let space = seq![' '];
    assert(name + ": "@ + value =~= prefix + (space + value));
    let end = text_facts::lemma_trim_after_prefix(prefix, space + value);
    text_facts::lemma_trim_padded(space, value, seq![]);
    assert(space + value + Seq::<char>::empty() =~= space + value);
    let t = prefix + end;
    let n = name.len() as int;
    assert forall|k: int| 0 <= k < n implies !CharSet::Only(':').has(#[trigger] t[k]) by {
        assert(t[k] == name[k]);
    }
    assert(t[n] == ':');
    text::lemma_find_is(t, CharSet::Only(':'), n as nat);
    assert(t.take(n) =~= name);
    assert(t.skip(n + 1) =~= end);
    text_facts::lemma_trim_tight(name);
    assert(text::trim_start(name) == name);
    assert(name.take(1)[0] == name[0]);
    if name[0] == '#' {
        assert(name.take(1) =~= "#"@);
    }
}

/// The names of the fields of an entry differ.
proof fn lemma_field_names()
    ensures
        text::lowercase("status"@) != text::lowercase("type"@),
        text::lowercase("status"@) != text::lowercase("kind"@),
        text::lowercase("supersedes"@) != text::lowercase("type"@),
        text::lowercase("supersedes"@) != text::lowercase("kind"@),
        text::lowercase("supersedes"@) != text::lowercase("status"@),
        text::lowercase("id"@) != text::lowercase("type"@),
        text::lowercase("id"@) != text::lowercase("kind"@),
        text::lowercase("id"@) != text::lowercase("status"@),
        text::lowercase("id"@) != text::lowercase("supersedes"@),
{
    reveal_strlit("type");
    reveal_strlit("kind");
    reveal_strlit("status");
    reveal_strlit("supersedes");
    reveal_strlit("id");
    assert(text::lowercase("type"@).len() == 4);
    assert(text::lowercase("kind"@).len() == 4);
    assert(text::lowercase("status"@).len() == 6);
    assert(text::lowercase("supersedes"@).len() == 10);
    assert(text::lowercase("id"@).len() == 2);
}

/// The heading of an entry gives no field.
pub proof fn lemma_heading_cue(kind: MemoryKind, title: Seq<char>)
    ensures
        ({
            let cue = kind::line_cue(
                text::trim("## "@ + promote::kind_label(kind) + ": "@ + title),
            );
            cue is Heading || cue is Nothing
        }),
        text_facts::is_tight("## "@ + promote::kind_label(kind)),
        text_facts::is_line("## "@ + promote::kind_label(kind)),
        !text::is_blank("## "@ + promote::kind_label(kind) + ": "@ + title),
{
    reveal_strlit("## ");
    reveal_strlit("Decision");
    reveal_strlit("Fact");
    reveal_strlit("Preference");
    reveal_strlit("Procedure");
    reveal_strlit("Episode");
    reveal_strlit("Entity");
    reveal_strlit("Note");
    let name = "## "@ + promote::kind_label(kind);
    assert(name.last() == promote::kind_label(kind).last());
    lemma_field_line(name, title, "type"@);
    lemma_field_line(name, title, "kind"@);
    lemma_field_line(name, title, "status"@);
    lemma_field_line(name, title, "supersedes"@);
}

/// The `type` field of an entry gives its kind.
proof fn lemma_type_cue(kind: MemoryKind)
    ensures
        kind::line_cue(text::trim("type"@ + ": "@ + kind::kind_name(kind))) == LineCue::Kind(kind),
        !text::is_blank("type"@ + ": "@ + kind::kind_name(kind)),
{
    reveal_strlit("type");
    lemma_named_kind(kind);
    lemma_field_line("type"@, kind::kind_name(kind), "type"@);
    let name = kind::kind_name(kind);
    text_facts::lemma_trim_tight(name);
    law_kind_reads_back(kind, seq![], name, seq![]);
    assert(Seq::<char>::empty() + name + Seq::<char>::empty() =~= name);
}

/// The `status` field of an entry gives its status.
pub proof fn lemma_status_cue(status: Seq<char>)
    requires
        kind::is_status(status),
    ensures
        kind::line_cue(text::trim("status"@ + ": "@ + status)) == LineCue::Status(status),
        !text::is_blank("status"@ + ": "@ + status),
        text_facts::is_line(status),
{
    reveal_strlit("status");
    reveal_strlit("active");
    reveal_strlit("superseded");
    lemma_field_names();
    lemma_field_line("status"@, status, "type"@);
    lemma_field_line("status"@, status, "kind"@);
    lemma_field_line("status"@, status, "status"@);
    text_facts::lemma_trim_tight(status);
    assert(text::lowercase(status) =~= status);
}

/// The `id` field of an entry says nothing of its kind or status.
proof fn lemma_id_cue(id: Seq<char>)
    ensures
        kind::line_cue(text::trim("id"@ + ": "@ + id)) == LineCue::Nothing,
        !text::is_blank("id"@ + ": "@ + id),
{
    reveal_strlit("id");
    reveal_strlit("#");
    lemma_field_names();
    lemma_field_line("id"@, id, "type"@);
    lemma_field_line("id"@, id, "kind"@);
    lemma_field_line("id"@, id, "status"@);
    lemma_field_line("id"@, id, "supersedes"@);
    let t = text::trim("id"@ + ": "@ + id);
    text_facts::lemma_trim_twice("id"@ + ": "@ + id);
    if text::starts_with(t, "#"@) {
        assert(t.take(1)[0] == t[0]);
    }
}

/// The `supersedes` field of an entry gives what it supersedes.
proof fn lemma_supersedes_cue(old: Seq<char>)
    ensures
        kind::line_cue(text::trim("supersedes"@ + ": "@ + old)) == if text::is_blank(old) {
            LineCue::Nothing
        } else {
            LineCue::Supersedes(text::trim(old))
        },
        !text::is_blank("supersedes"@ + ": "@ + old),
{
    reveal_strlit("supersedes");
    lemma_field_names();
    lemma_field_line("supersedes"@, old, "type"@);
    lemma_field_line("supersedes"@, old, "kind"@);
    lemma_field_line("supersedes"@, old, "status"@);
    lemma_field_line("supersedes"@, old, "supersedes"@);
    text_facts::lemma_trim_twice(old);
}

// ---------------------------------------------------------------------------
// Entries
// ---------------------------------------------------------------------------

/// Whether an entry can be written so that each of its fields stands on a
/// line of its own, with a status that a chunk can have.
pub open spec fn is_writable(e: EntryModel) -> bool {
    &&& text_facts::is_line(text::trim(e.title))
    &&& kind::is_status(e.status)
    &&& match e.id {
        Some(id) => text_facts::is_line(id),
        None => true,
    }
    &&& match e.supersedes {
        Some(old) => text_facts::is_line(old),
        None => true,
    }
}

/// What an entry supersedes, as it is read: without white space around it, and
/// nothing where it is blank.
pub open spec fn read_supersedes(e: EntryModel) -> Option<Seq<char>> {
    match e.supersedes {
        Some(old) => if text::is_blank(old) {
            None
        } else {
            Some(text::trim(old))
        },
        None => None,
    }
}

/// How many lines an entry has above its body, not counting the empty one.
pub open spec fn header_len(e: EntryModel) -> nat {
    (3 + (if e.id is Some {
        1int
    } else {
        0
    }) + (if e.supersedes is Some {
        1int
    } else {
        0
    })) as nat
}

/// The lines of an entry's body that are read for cues.
pub open spec fn scanned_body(e: EntryModel) -> Seq<Seq<char>> {
    let all = kind::nonblank(text::lines(text::trim(e.body)));
    let room = kind::SCANNED_LINES - header_len(e);
    if all.len() > room {
        all.take(room)
    } else {
        all
    }
}

/// One more line that is read for cues.
proof fn lemma_cues_push(ls: Seq<Seq<char>>, line: Seq<char>)
    ensures
        kind::kind_of(ls.push(line)) == (match kind::line_cue(line) {
            LineCue::Kind(kind) => kind,
            LineCue::Heading(kind) => if kind::kind_of(ls) == MemoryKind::Unknown {
                kind
            } else {
                kind::kind_of(ls)
            },
            _ => kind::kind_of(ls),
        }),
        kind::status_of(ls.push(line)) == (match kind::line_cue(line) {
            LineCue::Status(status) => status,
            _ => kind::status_of(ls),
        }),
        kind::supersedes_of(ls.push(line)) == (match kind::line_cue(line) {
            LineCue::Supersedes(id) => Some(id),
            _ => kind::supersedes_of(ls),
        }),
{
    assert(ls.push(line).drop_last() =~= ls);
}

/// What is read of the lines above an entry's body.
pub proof fn lemma_header(e: EntryModel)
    requires
        is_writable(e),
    ensures
        ({
            let hs = kind::nonblank(promote::entry_header(e));
            &&& hs.len() == header_len(e)
            &&& kind::kind_of(hs) == e.kind
            &&& kind::status_of(hs) == e.status
            &&& kind::supersedes_of(hs) == read_supersedes(e)
        }),
        forall|k: int|
            0 <= k < promote::entry_header(e).len() ==> text_facts::is_line(
                #[trigger] promote::entry_header(e)[k],
            ),
{
    let heading = "## "@ + promote::kind_label(e.kind) + ": "@ + text::trim(e.title);
    let kind_line = "type"@ + ": "@ + kind::kind_name(e.kind);
    let status_line = "status"@ + ": "@ + e.status;
    lemma_heading_cue(e.kind, text::trim(e.title));
    lemma_type_cue(e.kind);
    lemma_status_cue(e.status);
    lemma_named_kind(e.kind);
    reveal_strlit(": ");
    reveal_strlit("type");
    reveal_strlit("status");
    reveal_strlit("id");
    reveal_strlit("supersedes");

    let none = Seq::<Seq<char>>::empty();
    lemma_nonblank_push(none, heading);
    lemma_cues_push(kind::nonblank(none), text::trim(heading));
    let one = none.push(heading);
    lemma_nonblank_push(one, kind_line);
    lemma_cues_push(kind::nonblank(one), text::trim(kind_line));
    let two = one.push(kind_line);
    lemma_nonblank_push(two, status_line);
    lemma_cues_push(kind::nonblank(two), text::trim(status_line));
    let three = two.push(status_line);
    assert forall|k: int| 0 <= k < three.len() implies text_facts::is_line(#[trigger] three[k]) by {
        if k == 0 {
            assert(text_facts::is_line(heading));
        } else if k == 1 {
            assert(text_facts::is_line(kind_line));
        } else {
            assert(text_facts::is_line(status_line));
        }
    }

    let four = match e.id {
        Some(id) => {
            let id_line = "id"@ + ": "@ + id;
            lemma_id_cue(id);
            lemma_nonblank_push(three, id_line);
            lemma_cues_push(kind::nonblank(three), text::trim(id_line));
            assert(text_facts::is_line(id_line));
            three.push(id_line)
        },
        None => three,
    };
    let five = match e.supersedes {
        Some(old) => {
            let old_line = "supersedes"@ + ": "@ + old;
            lemma_supersedes_cue(old);
            lemma_nonblank_push(four, old_line);
            lemma_cues_push(kind::nonblank(four), text::trim(old_line));
            assert(text_facts::is_line(old_line));
            four.push(old_line)
        },
        None => four,
    };
    let empty = Seq::<char>::empty();
    lemma_nonblank_push(five, empty);
    text_facts::lemma_blank(empty);
    assert(promote::entry_header(e) =~= five.push(empty));
}

/// A kind that is read from a chunk of `source`: what a session log leaves
/// open is an episode.
pub open spec fn kind_from(kind: MemoryKind, source: Seq<char>) -> MemoryKind {
    if kind == MemoryKind::Unknown && source == "session"@ {
        MemoryKind::Episode
    } else {
        kind
    }
}

/// The text of an entry gives back its kind, its status and what it
/// supersedes. Only fields in the body come after them, and a heading in the
/// body counts where the kind is unknown.
pub proof fn law_entry_reads_back(e: EntryModel, source: Seq<char>)
    requires
        is_writable(e),
    ensures
        kind::classification(promote::entry_text(e), source) == (ChunkMetaModel {
            kind: kind_from(kind_after(e.kind, scanned_body(e)), source),
            supersedes: supersedes_after(read_supersedes(e), scanned_body(e)),
            status: status_after(e.status, scanned_body(e)),
        }),
{
    lemma_header(e);
    let header = promote::entry_header(e);
    let hs = kind::nonblank(header);
    text_facts::lemma_lines_join(header);
    text_facts::lemma_join_closed(header);
    lemma_nonblank_stripped(header);
    let body = text::trim(e.body);
    let _ = text_facts::lemma_trim(e.body);
    let tail = if text::is_blank(e.body) {
        body
    } else {
        body.push('\n')
    };
    if !text::is_blank(e.body) {
        text_facts::lemma_lines_closed(body);
    }
    assert(promote::entry_text(e) =~= text::join_lines(header) + tail);
    text_facts::lemma_lines_add(text::join_lines(header), tail);
    assert(text::lines(tail) == text::lines(body));
    lemma_nonblank_add(text_facts::stripped(header), text::lines(body));
    let all = kind::nonblank(text::lines(body));
    assert(kind::nonblank(text::lines(promote::entry_text(e))) == hs + all);
    assert(kind::scanned(promote::entry_text(e)) =~= hs + scanned_body(e));
    lemma_cues_add(hs, scanned_body(e));
}

/// Whether no line of an entry's body that is read says otherwise than its
/// fields.
pub open spec fn is_body_consistent(e: EntryModel) -> bool {
    forall|k: int|
        0 <= k < scanned_body(e).len() ==> match kind::line_cue(#[trigger] scanned_body(e)[k]) {
            LineCue::Kind(kind) => kind == e.kind,
            LineCue::Status(status) => status == e.status,
            LineCue::Supersedes(id) => Some(id) == read_supersedes(e),
            LineCue::Heading(_) => e.kind != MemoryKind::Unknown,
            LineCue::Nothing => true,
        }
}

/// Lines that do not say otherwise change nothing.
proof fn lemma_consistent(e: EntryModel, n: int)
    requires
        is_body_consistent(e),
        0 <= n <= scanned_body(e).len(),
    ensures
        kind_after(e.kind, scanned_body(e).take(n)) == e.kind,
        status_after(e.status, scanned_body(e).take(n)) == e.status,
        supersedes_after(read_supersedes(e), scanned_body(e).take(n)) == read_supersedes(e),
    decreases n,
{
    if n > 0 {
        lemma_consistent(e, n - 1);
        let ls = scanned_body(e).take(n);
        assert(ls.drop_last() =~= scanned_body(e).take(n - 1));
        assert(ls.last() == scanned_body(e)[n - 1]);
    }
}

/// An entry whose body does not say otherwise is read back as it was written.
pub proof fn law_consistent_entry_reads_back(e: EntryModel, source: Seq<char>)
    requires
        is_writable(e),
        is_body_consistent(e),
    ensures
        kind::classification(promote::entry_text(e), source) == (ChunkMetaModel {
            kind: kind_from(e.kind, source),
            supersedes: read_supersedes(e),
            status: e.status,
        }),
{
    law_entry_reads_back(e, source);
    lemma_consistent(e, scanned_body(e).len() as int);
    assert(scanned_body(e).take(scanned_body(e).len() as int) =~= scanned_body(e));
}

// ---------------------------------------------------------------------------
// Notes
// ---------------------------------------------------------------------------

/// Parts of a line are lines.
pub proof fn lemma_parts_of_line(s: Seq<char>, set: CharSet)
    requires
        text_facts::is_line(s),
    ensures
        text_facts::is_line(text::trim(s)),
        text_facts::is_line(text::skip_while(s, set)),
{
    let (left, right) = text_facts::lemma_trim(s);
    let t = text::trim(s);
    assert forall|k: int| 0 <= k < t.len() implies #[trigger] t[k] != '\n' by {
        assert(t[k] == s[left.len() + k]);
    }
    let i = text_facts::lemma_skip_while(s, set);
    let u = s.skip(i);
    assert forall|k: int| 0 <= k < u.len() implies #[trigger] u[k] != '\n' by {
        assert(u[k] == s[i + k]);
    }
}

/// What follows prefixes of a line is a line.
proof fn lemma_skip_prefixes_line(s: Seq<char>, prefix: Seq<char>)
    requires
        text_facts::is_line(s),
    ensures
        text_facts::is_line(text::skip_prefixes(s, prefix)),
    decreases s.len(),
{
    if prefix.len() > 0 && text::starts_with(s, prefix) {
        let rest = s.skip(prefix.len() as int);
        assert forall|k: int| 0 <= k < rest.len() implies #[trigger] rest[k] != '\n' by {
            assert(rest[k] == s[prefix.len() + k]);
        }
        lemma_skip_prefixes_line(rest, prefix);
    }
}

/// The title of a note stands on one line.
proof fn lemma_note_title(note: Seq<char>)
    ensures
        text_facts::is_line(text::trim(promote::note_title(note))),
{
    let ls = text::lines(note);
    text_facts::lemma_lines_are_lines(note);
    let first = if ls.len() > 0 {
        ls[0]
    } else {
        note
    };
    assert(text_facts::is_line(first));
    lemma_parts_of_line(first, CharSet::WhiteSpace);
    let a = text::trim(first);
    lemma_parts_of_line(a, CharSet::Only('#'));
    let b = text::skip_while(a, CharSet::Only('#'));
    lemma_parts_of_line(b, CharSet::WhiteSpace);
    let c = text::trim(b);
    lemma_skip_prefixes_line(c, "remember"@);
    let d = text::skip_prefixes(c, "remember"@);
    lemma_skip_prefixes_line(d, "Remember"@);
    let f = text::skip_prefixes(d, "Remember"@);
    lemma_parts_of_line(f, CharSet::Only(':'));
    let g = text::skip_while(f, CharSet::Only(':'));
    lemma_parts_of_line(g, CharSet::WhiteSpace);
    let subject = text::trim(g);
    assert(subject == promote::note_subject(note));
    reveal_strlit("note");
    let title = promote::note_title(note);
    assert(text_facts::is_line(title));
    lemma_parts_of_line(title, CharSet::WhiteSpace);
}

/// A remembered note gives back its kind, and it is active, unless the note
/// itself holds a field or, where its kind is unknown, a heading.
pub proof fn law_note_reads_back(note: Seq<char>, kind: Option<MemoryKind>, source: Seq<char>)
    ensures
        ({
            let e = promote::note_entry(note, kind);
            kind::classification(promote::entry_text(e), source) == (ChunkMetaModel {
                kind: kind_from(kind_after(e.kind, scanned_body(e)), source),
                supersedes: supersedes_after(None, scanned_body(e)),
                status: status_after("active"@, scanned_body(e)),
            })
        }),
{
    lemma_note_title(text::trim(note));
    law_entry_reads_back(promote::note_entry(note, kind), source);
}

/// The status of a chunk is `active` or `superseded`, and `active` where no
/// line of it is a status field.
pub proof fn law_status_of_a_chunk(chunk: Seq<char>, source: Seq<char>)
    ensures
        ({
            let status = kind::classification(chunk, source).status;
            &&& status == "active"@ || status == "superseded"@
            &&& (forall|k: int|
                0 <= k < text::lines(chunk).len() ==> kind::field_value(
                    text::trim(#[trigger] text::lines(chunk)[k]),
                    "status"@,
                ) is None) ==> status == "active"@
        }),
{
    let ls = text::lines(chunk);
    let read = kind::scanned(chunk);
    kind::lemma_status_of(read);
    if forall|k: int|
        0 <= k < ls.len() ==> kind::field_value(text::trim(#[trigger] ls[k]), "status"@) is None {
        lemma_nonblank_from(ls);
        assert forall|k: int| 0 <= k < read.len() implies !(kind::line_cue(
            #[trigger] read[k],
        ) is Status) by {
            assert(read[k] == kind::nonblank(ls)[k]);
        }
        lemma_no_status(read);
    }
}

/// Lines without a status field give the status `active`.
proof fn lemma_no_status(ls: Seq<Seq<char>>)
    requires
        forall|k: int| 0 <= k < ls.len() ==> !(kind::line_cue(#[trigger] ls[k]) is Status),
    ensures
        kind::status_of(ls) == "active"@,
    decreases ls.len(),
{
    if ls.len() > 0 {
        let init = ls.drop_last();
        assert forall|k: int| 0 <= k < init.len() implies !(kind::line_cue(
            #[trigger] init[k],
        ) is Status) by {
            assert(init[k] == ls[k]);
        }
        assert(!(kind::line_cue(ls[ls.len() - 1]) is Status));
        lemma_no_status(init);
    }
}

/// A chunk of a session log always has a kind, and the source of a chunk
/// changes nothing else.
pub proof fn law_session_chunks_have_a_kind(chunk: Seq<char>, source: Seq<char>)
    ensures
        kind::classification(chunk, "session"@).kind != MemoryKind::Unknown,
        kind::classification(chunk, source).status == kind::classification(
            chunk,
            "session"@,
        ).status,
        kind::classification(chunk, source).supersedes == kind::classification(
            chunk,
            "session"@,
        ).supersedes,
        kind::classification(chunk, source).kind != MemoryKind::Unknown
            ==> kind::classification(chunk, source).kind == kind::classification(
            chunk,
            "session"@,
        ).kind,
{
}

} // verus!
