//! Entries and notes as they are written, word by word.

use crate::kind;
use crate::kind::MemoryKind;
use crate::promote;
use crate::promote::{ActionModel, EntryModel, StoreAction, TypedEntry};
use crate::text;
use crate::text::CharSet;
use crate::text_facts;
use vstd::prelude::*;

verus! {

// ---------------------------------------------------------------------------
// Entries
// ---------------------------------------------------------------------------

/// A field line of an entry, where there is a value.
pub open spec fn field_text(name: Seq<char>, value: Option<Seq<char>>) -> Seq<char> {
    match value {
        Some(v) => name + ": "@ + v + "\n"@,
        None => seq![],
    }
}

/// The text of an entry: a heading of the second level with the word for its
/// kind and its title, the fields for its kind and its status, those for its
/// id and for what it supersedes where there are such, an empty line, and the
/// body unless it is blank.
pub proof fn law_entry_text(e: EntryModel)
    ensures
        promote::entry_text(e) == "## "@ + promote::kind_label(e.kind) + ": "@ + text::trim(
            e.title,
        ) + "\n"@ + field_text("type"@, Some(kind::kind_name(e.kind))) + field_text(
            "status"@,
            Some(e.status),
        ) + field_text("id"@, e.id) + field_text("supersedes"@, e.supersedes) + "\n"@ + (
        if text_facts::all_white(e.body) {
            seq![]
        } else {
            text::trim(e.body) + "\n"@
        }),
{
    reveal_strlit("\n");
    text_facts::lemma_blank(e.body);
    let heading = "## "@ + promote::kind_label(e.kind) + ": "@ + text::trim(e.title);
    let kind_line = "type"@ + ": "@ + kind::kind_name(e.kind);
    let status_line = "status"@ + ": "@ + e.status;
    let a = seq![heading, kind_line, status_line];
    let b = promote::optional_field("id"@, e.id);
    let c = promote::optional_field("supersedes"@, e.supersedes);
    let d = seq![Seq::<char>::empty()];
    text_facts::lemma_join_add(a + b + c, d);
    text_facts::lemma_join_add(a + b, c);
    text_facts::lemma_join_add(a, b);
    lemma_join_one(Seq::empty());
    lemma_join_field("id"@, e.id);
    lemma_join_field("supersedes"@, e.supersedes);
    assert(a =~= seq![heading] + seq![kind_line] + seq![status_line]);
    text_facts::lemma_join_add(seq![heading] + seq![kind_line], seq![status_line]);
    text_facts::lemma_join_add(seq![heading], seq![kind_line]);
    lemma_join_one(heading);
    lemma_join_one(kind_line);
    lemma_join_one(status_line);
    let header = text::join_lines(promote::entry_header(e));
    let tail = if text_facts::all_white(e.body) {
        seq![]
    } else {
        text::trim(e.body) + "\n"@
    };
    assert(text::trim(e.body).push('\n') =~= text::trim(e.body) + "\n"@);
    assert(promote::entry_text(e) =~= header + tail);
    assert(Seq::<char>::empty().push('\n') =~= "\n"@);
    assert(heading.push('\n') =~= heading + "\n"@);
    assert(kind_line.push('\n') =~= field_text("type"@, Some(kind::kind_name(e.kind))));
    assert(status_line.push('\n') =~= field_text("status"@, Some(e.status)));
}

proof fn lemma_join_one(line: Seq<char>)
    ensures
        text::join_lines(seq![line]) == line.push('\n'),
{
    assert(seq![line].drop_last() =~= seq![]);
    assert(text::join_lines(Seq::<Seq<char>>::empty()) =~= seq![]);
    assert(text::join_lines(seq![line]) =~= line.push('\n'));
}

proof fn lemma_join_field(name: Seq<char>, value: Option<Seq<char>>)
    ensures
        text::join_lines(promote::optional_field(name, value)) == field_text(name, value),
{
    reveal_strlit("\n");
    match value {
        Some(v) => {
            lemma_join_one(name + ": "@ + v);
            assert((name + ": "@ + v).push('\n') =~= name + ": "@ + v + "\n"@);
        },
        None => {},
    }
}

/// An entry as it is modelled.
pub proof fn law_entry_model(e: TypedEntry)
    ensures
        e@.kind == e.kind,
        e@.title == e.title@,
        e@.body == e.body@,
        e@.status == e.status@,
        e@.id is Some <==> e.id is Some,
        e.id is Some ==> e@.id->0 == e.id->0@,
        e@.supersedes is Some <==> e.supersedes is Some,
        e.supersedes is Some ==> e@.supersedes->0 == e.supersedes->0@,
{
}

/// An action on the store as it is modelled.
pub proof fn law_action_model(a: StoreAction)
    ensures
        a matches StoreAction::Append { scope, text } ==> a@ == (ActionModel::Append {
            scope,
            text: text@,
        }),
        a matches StoreAction::Rewrite { scope, content } ==> a@ == (ActionModel::Rewrite {
            scope,
            content: content@,
        }),
{
}

// ---------------------------------------------------------------------------
// Notes
// ---------------------------------------------------------------------------

/// A note becomes an active entry of the kind that is asked for, or of the one
/// that its wording suggests. Its body is the whole note without the white
/// space around it; it has no id and supersedes nothing.
pub proof fn law_note_entry(note: Seq<char>, kind: MemoryKind)
    ensures
        promote::note_entry(note, Some(kind)).kind == kind,
        promote::note_entry(note, None).kind == promote::inferred_kind(text::trim(note)),
        forall|asked: Option<MemoryKind>|
            #![trigger promote::note_entry(note, asked)]
            {
                let e = promote::note_entry(note, asked);
                &&& e.body == text::trim(note)
                &&& e.title == promote::note_title(text::trim(note))
                &&& e.status == "active"@
                &&& e.id is None
                &&& e.supersedes is None
            },
{
}

/// A title is a subject of up to eighty characters as it is. Of a longer one
/// it is the first eighty and an ellipsis, and where there is no subject it is
/// the word `note`.
pub proof fn law_note_title(note: Seq<char>, i: int)
    ensures
        ({
            let subject = promote::note_subject(note);
            let title = promote::note_title(note);
            &&& subject.len() == 0 ==> title == "note"@
            &&& 1 <= subject.len() <= 80 ==> title == subject
            &&& subject.len() > 80 ==> {
                &&& title.len() == 81
                &&& 0 <= i < 80 ==> title[i] == subject[i]
                &&& title[80] as int == 0x2026
            }
        }),
{
}

/// Whether a text is a word to remember, or nothing.
pub open spec fn is_call(word: Seq<char>) -> bool {
    word.len() == 0 || word == "remember"@ || word == "Remember"@
}

/// Whether a text is a subject: it has no white space around it, and begins
/// with neither a mark nor a word to remember.
pub open spec fn is_subject(s: Seq<char>) -> bool {
    &&& text_facts::is_tight(s)
    &&& s[0] != '#'
    &&& s[0] != ':'
    &&& !text::starts_with(s, "remember"@)
    &&& !text::starts_with(s, "Remember"@)
}

/// A text that begins with white space or a colon begins with no word.
proof fn lemma_no_call(s: Seq<char>)
    requires
        s.len() > 0 ==> s[0] != 'r' && s[0] != 'R',
    ensures
        !text::starts_with(s, "remember"@),
        !text::starts_with(s, "Remember"@),
{
    reveal_strlit("remember");
    reveal_strlit("Remember");
    if text::starts_with(s, "remember"@) {
        assert(s.take(8)[0] == s[0]);
    }
    if text::starts_with(s, "Remember"@) {
        assert(s.take(8)[0] == s[0]);
    }
}

/// The subject of a note is what its first line says after number signs, a
/// word to remember and colons.
pub proof fn law_note_subject(
    marks: Seq<char>,
    gap: Seq<char>,
    call: Seq<char>,
    colons: Seq<char>,
    space: Seq<char>,
    subject: Seq<char>,
    rest: Seq<char>,
)
    requires
        forall|i: int| 0 <= i < marks.len() ==> #[trigger] marks[i] == '#',
        text_facts::all_white(gap),
        text_facts::is_line(gap),
        is_call(call),
        forall|i: int| 0 <= i < colons.len() ==> #[trigger] colons[i] == ':',
        text_facts::all_white(space),
        text_facts::is_line(space),
        is_subject(subject),
        text_facts::is_line(subject),
    ensures
        promote::note_subject(marks + gap + call + colons + space + subject) == subject,
        promote::note_subject(
            (marks + gap + call + colons + space + subject).push('\n') + rest,
        ) == subject,
{
    reveal_strlit("remember");
    reveal_strlit("Remember");
    let line = marks + gap + call + colons + space + subject;
    assert(text_facts::is_line(line)) by {
        assert forall|i: int| 0 <= i < line.len() implies #[trigger] line[i] != '\n' by {
            let a = marks.len() as int;
            let b = a + gap.len();
            let c = b + call.len();
            let d = c + colons.len();
            let e = d + space.len();
            if i < a {
                assert(line[i] == marks[i]);
            } else if i < b {
                assert(line[i] == gap[i - a]);
            } else if i < c {
                assert(line[i] == call[i - b]);
            } else if i < d {
                assert(line[i] == colons[i - c]);
            } else if i < e {
                assert(line[i] == space[i - d]);
            } else {
                assert(line[i] == subject[i - e]);
            }
        }
    }
    text_facts::lemma_lines_first(line, rest);
    text::lemma_find_is(line, CharSet::Only('\n'), line.len());
    assert(text::lines(line) == seq![line]);
    text_facts::lemma_trim_stripped(line);
    lemma_subject(marks, gap, call, colons, space, subject);
}

/// What is left of a line after its number signs, without white space around.
proof fn lemma_body(call: Seq<char>, colons: Seq<char>, space: Seq<char>, subject: Seq<char>)
    requires
        is_call(call),
        forall|i: int| 0 <= i < colons.len() ==> #[trigger] colons[i] == ':',
        text_facts::all_white(space),
        is_subject(subject),
    ensures
        ({
            let tail = colons + space + subject;
            text::trim(call + tail) == (if call.len() == 0 && colons.len() == 0 {
                subject
            } else {
                call + tail
            })
        }),
        text::trim(call + (colons + space + subject)).len() > 0,
        text::trim(call + (colons + space + subject))[0] != '#',
{
    reveal_strlit("remember");
    reveal_strlit("Remember");
    let empty = Seq::<char>::empty();
    let tail = colons + space + subject;
    let body = call + tail;
    assert(body.last() == subject.last());
    if call.len() > 0 {
        assert(call[0] == 'r' || call[0] == 'R');
        assert(body[0] == call[0]);
        text_facts::lemma_trim_tight(body);
    } else if colons.len() > 0 {
        assert(colons[0] == ':');
        assert(body[0] == colons[0]);
        text_facts::lemma_trim_tight(body);
    } else {
        assert(body =~= space + subject + empty);
        text_facts::lemma_trim_is(space, subject, empty);
    }
}

/// The steps by which the subject of a line is found.
proof fn lemma_subject(
    marks: Seq<char>,
    gap: Seq<char>,
    call: Seq<char>,
    colons: Seq<char>,
    space: Seq<char>,
    subject: Seq<char>,
)
    requires
        forall|i: int| 0 <= i < marks.len() ==> #[trigger] marks[i] == '#',
        text_facts::all_white(gap),
        is_call(call),
        forall|i: int| 0 <= i < colons.len() ==> #[trigger] colons[i] == ':',
        text_facts::all_white(space),
        is_subject(subject),
    ensures
        ({
            let first = text::trim(marks + gap + call + colons + space + subject);
            let s = text::trim(text::skip_while(first, CharSet::Only('#')));
            let s = text::skip_prefixes(s, "remember"@);
            let s = text::skip_prefixes(s, "Remember"@);
            text::trim(text::skip_while(s, CharSet::Only(':')))
        }) == subject,
{
    reveal_strlit("remember");
    reveal_strlit("Remember");
    let empty = Seq::<char>::empty();
    let tail = colons + space + subject;
    let body = call + tail;
    let line = marks + gap + call + colons + space + subject;
    assert(line =~= marks + (gap + body));
    lemma_body(call, colons, space, subject);
    lemma_tail(colons, space, subject);
    lemma_after_call(colons, space, subject);
    // Without the white space around it and the number signs.
    text_facts::lemma_trim_padded(gap, body, empty);
    assert(gap + body + empty =~= gap + body);
    let first = text::trim(line);
    if marks.len() > 0 {
        assert(marks[0] == '#');
        let end = text_facts::lemma_trim_after_prefix(marks, gap + body);
        lemma_unmarked(marks, end, body);
    } else {
        assert(line =~= gap + body);
        text_facts::lemma_trim_twice(body);
        lemma_unmarked(empty, first, body);
        assert(empty + first =~= first);
    }
    let s1 = text::trim(text::skip_while(first, CharSet::Only('#')));
    assert(s1 == text::trim(body));
    if call.len() > 0 {
        assert(call.len() == 8);
        assert(body.take(8) =~= call);
        assert(body.skip(8) =~= tail);
        if call == "remember"@ {
            assert(text::skip_prefixes(body, "remember"@) == text::skip_prefixes(
                tail,
                "remember"@,
            ));
        } else {
            assert("remember"@[0] != "Remember"@[0]);
            assert(!text::starts_with(body, "remember"@));
            assert(text::skip_prefixes(body, "Remember"@) == text::skip_prefixes(
                tail,
                "Remember"@,
            ));
        }
    } else {
        assert(body =~= tail);
        if colons.len() == 0 {
            text::lemma_skip_while_is(subject, CharSet::Only(':'), 0);
            assert(subject.skip(0) =~= subject);
            text_facts::lemma_trim_tight(subject);
        }
    }
}

/// What follows the word to remember begins with no such word.
proof fn lemma_tail(colons: Seq<char>, space: Seq<char>, subject: Seq<char>)
    requires
        forall|i: int| 0 <= i < colons.len() ==> #[trigger] colons[i] == ':',
        text_facts::all_white(space),
        is_subject(subject),
    ensures
        ({
            let tail = colons + space + subject;
            &&& !text::starts_with(tail, "remember"@)
            &&& !text::starts_with(tail, "Remember"@)
        }),
{
    let tail = colons + space + subject;
    if colons.len() > 0 {
        assert(tail[0] == colons[0]);
        lemma_no_call(tail);
    } else if space.len() > 0 {
        assert(tail[0] == space[0]);
        lemma_no_call(tail);
    } else {
        assert(tail =~= subject);
    }
}

/// The colons and the white space after them are left out.
proof fn lemma_after_call(colons: Seq<char>, space: Seq<char>, subject: Seq<char>)
    requires
        forall|i: int| 0 <= i < colons.len() ==> #[trigger] colons[i] == ':',
        text_facts::all_white(space),
        is_subject(subject),
    ensures
        text::trim(text::skip_while(colons + space + subject, CharSet::Only(':'))) == subject,
{
    let tail = colons + space + subject;
    let n = colons.len() as int;
    assert forall|j: int| 0 <= j < n implies CharSet::Only(':').has(#[trigger] tail[j]) by {
        assert(tail[j] == colons[j]);
    }
    if space.len() > 0 {
        assert(tail[n] == space[0]);
    } else {
        assert(tail[n] == subject[0]);
    }
    text::lemma_skip_while_is(tail, CharSet::Only(':'), n);
    assert(tail.skip(n) =~= space + subject + Seq::<char>::empty());
    text_facts::lemma_trim_is(space, subject, Seq::empty());
}

/// The number signs at the start of a line are left out.
proof fn lemma_unmarked(marks: Seq<char>, end: Seq<char>, body: Seq<char>)
    requires
        forall|i: int| 0 <= i < marks.len() ==> #[trigger] marks[i] == '#',
        text::trim(end) == text::trim(body),
        text::trim(body).len() > 0,
        text::trim(body)[0] != '#',
    ensures
        text::trim(text::skip_while(marks + end, CharSet::Only('#'))) == text::trim(body),
{
    let s = marks + end;
    let m = marks.len() as int;
    let (c, d) = text_facts::lemma_trim(end);
    let t = text::trim(end);
    assert(end.len() > 0);
    if c.len() > 0 {
        assert(end[0] == c[0]);
    } else {
        assert(end[0] == t[0]);
    }
    assert forall|j: int| 0 <= j < m implies CharSet::Only('#').has(#[trigger] s[j]) by {
        assert(s[j] == marks[j]);
    }
    assert(s[m] == end[0]);
    text::lemma_skip_while_is(s, CharSet::Only('#'), m);
    assert(s.skip(m) =~= end);
}

/// Lists of actions are modelled item by item.
pub proof fn law_lists_of_actions(actions: Seq<StoreAction>)
    ensures
        promote::action_views(actions).len() == actions.len(),
        forall|i: int|
            0 <= i < actions.len() ==> #[trigger] promote::action_views(actions)[i] == actions[i]@,
{
}

} // verus!
