//! How texts are split and trimmed, and what is read from a chunk.

use crate::kind;
use crate::kind::{ChunkMeta, LineCue, MemoryKind};
use crate::text;
use crate::text::CharSet;
use crate::text_facts;
use vstd::prelude::*;

verus! {

// ---------------------------------------------------------------------------
// Texts
// ---------------------------------------------------------------------------

/// White space is what Unicode gives the property `White_Space`: the code
/// points in these ranges.
pub proof fn law_white_space(c: char)
    ensures
        text::is_white_space(c) <==> {
            let n = c as int;
            ||| 9 <= n <= 13
            ||| n == 0x20
            ||| n == 0x85
            ||| n == 0xa0
            ||| n == 0x1680
            ||| 0x2000 <= n <= 0x200a
            ||| 0x2028 <= n <= 0x2029
            ||| n == 0x202f
            ||| n == 0x205f
            ||| n == 0x3000
        },
{
}

/// The characters that separate the first word of a heading, and those that
/// may close a greeting.
pub proof fn law_char_sets(c: char)
    ensures
        CharSet::HeadingSeparator.has(c) <==> c == ':' || c == '-' || c == '|' || c as int == 0x2014
            || text::is_white_space(c),
        CharSet::ClosingMark.has(c) <==> c == '.' || c == '!' || c == '?' || c == ',',
{
}

/// A trimmed text is what stands between white space: it is empty, or begins
/// and ends with something else.
pub proof fn law_trim(s: Seq<char>) -> (around: (Seq<char>, Seq<char>))
    ensures
        s == around.0 + text::trim(s) + around.1,
        forall|i: int| 0 <= i < around.0.len() ==> text::is_white_space(#[trigger] around.0[i]),
        forall|i: int| 0 <= i < around.1.len() ==> text::is_white_space(#[trigger] around.1[i]),
        text::trim(s).len() > 0 ==> !text::is_white_space(text::trim(s)[0])
            && !text::is_white_space(text::trim(s).last()),
{
    text_facts::lemma_trim(s)
}

/// A text is split after each line feed. A carriage return before it belongs
/// to the line end, and the last line needs no end.
pub proof fn law_lines(line: Seq<char>, rest: Seq<char>)
    requires
        forall|i: int| 0 <= i < line.len() ==> #[trigger] line[i] != '\n',
    ensures
        text::lines(Seq::empty()) == Seq::<Seq<char>>::empty(),
        line.len() > 0 ==> text::lines(line) == seq![line],
        text::lines(line.push('\r').push('\n') + rest) == seq![line] + text::lines(rest),
        line.len() == 0 || line.last() != '\r' ==> text::lines(line.push('\n') + rest) == seq![line]
            + text::lines(rest),
{
    if line.len() > 0 {
        text::lemma_find_is(line, CharSet::Only('\n'), line.len());
    }
    let returned = line.push('\r');
    assert forall|i: int| 0 <= i < returned.len() implies #[trigger] returned[i] != '\n' by {
        if i < line.len() {
            assert(returned[i] == line[i]);
        }
    }
    assert(returned.drop_last() =~= line);
    text_facts::lemma_lines_first(returned, rest);
    text_facts::lemma_lines_first(line, rest);
}

// ---------------------------------------------------------------------------
// Lines
// ---------------------------------------------------------------------------

/// Whether a text holds no colon.
pub open spec fn has_no_colon(s: Seq<char>) -> bool {
    forall|i: int| 0 <= i < s.len() ==> #[trigger] s[i] != ':'
}

/// A field is a line with a colon: its name stands before the first one, its
/// value after it, white space around both and the case of the name's letters
/// not counted. A line without a colon has no field.
pub proof fn law_fields(left: Seq<char>, right: Seq<char>, key: Seq<char>)
    requires
        has_no_colon(left),
        key.len() > 0,
        key[0] != '#',
    ensures
        kind::field_value(left, key) is None,
        kind::field_value(left + ":"@ + right, key) == (if text::lowercase(text::trim(left))
            == text::lowercase(key) {
            Some(text::trim(right))
        } else {
            None
        }),
{
    reveal_strlit(":");
    reveal_strlit("#");
    let line = left + ":"@ + right;
    let n = left.len();
    assert forall|j: int| 0 <= j < n implies !CharSet::Only(':').has(#[trigger] line[j]) by {
        assert(line[j] == left[j]);
    }
    assert(line[n as int] == ':');
    text::lemma_find_is(line, CharSet::Only(':'), n);
    text::lemma_find_is(left, CharSet::Only(':'), n);
    assert(line.take(n as int) =~= left);
    assert(line.skip((n + 1) as int) =~= right);
    if text::lowercase(text::trim(left)) == text::lowercase(key) {
        let t = text::trim(left);
        let u = text::trim_start(left);
        assert(t.len() == text::lowercase(t).len());
        assert(text::lowercase(t)[0] == text::lowercase(key)[0]);
        assert(t[0] != '#');
        let i = text_facts::lemma_drop_while(u, CharSet::WhiteSpace);
        assert(t[0] == u[0]);
        if text::starts_with(u, "#"@) {
            assert(u.take(1)[0] == u[0]);
        }
    }
}

/// What a field says of its chunk. A `type` or `kind` field names a kind, a
/// `status` field a status, and a `supersedes` field what is replaced; a value
/// that is not known, or empty, says nothing. Case does not matter for names
/// of kinds and of statuses, and what is deprecated is superseded. Any other
/// line says what it says as a heading.
pub proof fn law_field_cues(left: Seq<char>, right: Seq<char>)
    requires
        has_no_colon(left),
    ensures
        ({
            let name = text::lowercase(text::trim(left));
            let value = text::trim(right);
            let word = text::lowercase(value);
            let cue = kind::line_cue(left + ":"@ + right);
            &&& name == "type"@ || name == "kind"@ ==> match kind::named_kind(word) {
                Some(kind) => cue == LineCue::Kind(kind),
                None => cue == LineCue::Nothing,
            }
            &&& name == "status"@ ==> {
                &&& word == "active"@ ==> cue == LineCue::Status("active"@)
                &&& word == "superseded"@ || word == "deprecated"@ ==> cue == LineCue::Status(
                    "superseded"@,
                )
                &&& word != "active"@ && word != "superseded"@ && word != "deprecated"@ ==> cue
                    == LineCue::Nothing
            }
            &&& name == "supersedes"@ ==> {
                &&& value.len() > 0 ==> cue == LineCue::Supersedes(value)
                &&& value.len() == 0 ==> cue == LineCue::Nothing
            }
            &&& name != "type"@ && name != "kind"@ && name != "status"@ && name != "supersedes"@
                ==> match kind::heading_kind(left + ":"@ + right) {
                Some(kind) => cue == LineCue::Heading(kind),
                None => cue == LineCue::Nothing,
            }
        }),
        match kind::heading_kind(left) {
            Some(kind) => kind::line_cue(left) == LineCue::Heading(kind),
            None => kind::line_cue(left) == LineCue::Nothing,
        },
{
    reveal_strlit("type");
    reveal_strlit("kind");
    reveal_strlit("status");
    reveal_strlit("supersedes");
    reveal_strlit("active");
    reveal_strlit("superseded");
    reveal_strlit("deprecated");
    law_fields(left, right, "type"@);
    law_fields(left, right, "kind"@);
    law_fields(left, right, "status"@);
    law_fields(left, right, "supersedes"@);
    assert(text::lowercase("type"@) =~= "type"@);
    assert(text::lowercase("kind"@) =~= "kind"@);
    assert(text::lowercase("status"@) =~= "status"@);
    assert(text::lowercase("supersedes"@) =~= "supersedes"@);
    assert("type"@[0] != "kind"@[0]);
    assert("type"@.len() == 4);
    assert("kind"@.len() == 4);
    assert("status"@.len() == 6);
    assert("supersedes"@.len() == 10);
    assert("active"@.len() == 6);
    text_facts::lemma_trim_twice(right);
}

/// Whether a text consists of what may stand around the first word of a
/// heading.
pub open spec fn all_separators(s: Seq<char>) -> bool {
    forall|i: int| 0 <= i < s.len() ==> CharSet::HeadingSeparator.has(#[trigger] s[i])
}

/// A heading names a kind by its first word, whatever the case of its letters:
/// what stands after the number signs and any separators, and before the next
/// separator.
pub proof fn law_heading_cues(
    marks: Seq<char>,
    gap: Seq<char>,
    word: Seq<char>,
    separator: char,
    rest: Seq<char>,
)
    requires
        marks.len() > 0,
        forall|i: int| 0 <= i < marks.len() ==> #[trigger] marks[i] == '#',
        all_separators(gap),
        word.len() > 0,
        word[0] != '#',
        forall|i: int| 0 <= i < word.len() ==> !CharSet::HeadingSeparator.has(#[trigger] word[i]),
        CharSet::HeadingSeparator.has(separator),
    ensures
        kind::heading_kind(marks + gap + word) == kind::heading_word_kind(text::lowercase(word)),
        kind::heading_kind((marks + gap + word).push(separator) + rest) == kind::heading_word_kind(
            text::lowercase(word),
        ),
{
    let empty = Seq::<char>::empty();
    lemma_heading(marks, gap, word, empty);
    assert(marks + gap + word + empty =~= marks + gap + word);
    lemma_heading(marks, gap, word, seq![separator] + rest);
    assert(marks + gap + word + (seq![separator] + rest) =~= (marks + gap + word).push(separator)
        + rest);
}

/// What trimming takes off a title stands before and after its first word.
proof fn lemma_title(gap: Seq<char>, word: Seq<char>, tail: Seq<char>) -> (r: (
    Seq<char>,
    Seq<char>,
))
    requires
        word.len() > 0,
        forall|i: int| 0 <= i < word.len() ==> !CharSet::HeadingSeparator.has(#[trigger] word[i]),
    ensures
        gap + word + tail == r.0 + text::trim(gap + word + tail) + r.1,
        r.0.len() <= gap.len(),
        r.1.len() <= tail.len(),
{
    let s = gap + word + tail;
    let (a, b) = text_facts::lemma_trim(s);
    let t = text::trim(s);
    let g = gap.len() as int;
    let n = word.len() as int;
    if a.len() > g {
        assert(a[g] == s[g]);
        assert(s[g] == word[0]);
        assert(CharSet::HeadingSeparator.has(word[0]));
    }
    if b.len() > tail.len() {
        let j = g + n - 1 - a.len() - t.len();
        assert(b[j] == s[g + n - 1]);
        assert(s[g + n - 1] == word[n - 1]);
        assert(CharSet::HeadingSeparator.has(word[n - 1]));
    }
    (a, b)
}

/// The first word of a title is found, whatever stands around it.
proof fn lemma_first_word(gap: Seq<char>, word: Seq<char>, tail: Seq<char>)
    requires
        all_separators(gap),
        word.len() > 0,
        forall|i: int| 0 <= i < word.len() ==> !CharSet::HeadingSeparator.has(#[trigger] word[i]),
        tail.len() == 0 || CharSet::HeadingSeparator.has(tail[0]),
    ensures
        kind::heading_word(text::lowercase(text::trim(gap + word + tail))) == text::lowercase(word),
{
    let s = gap + word + tail;
    let (a, b) = lemma_title(gap, word, tail);
    let t = text::trim(s);
    let title = text::lowercase(t);
    let m = gap.len() - a.len();
    let n = word.len() as int;
    assert forall|j: int| 0 <= j < m implies CharSet::HeadingSeparator.has(#[trigger] title[j]) by {
        assert(t[j] == s[a.len() + j]);
        assert(s[a.len() + j] == gap[a.len() + j]);
    }
    assert(t[m] == s[gap.len() as int]);
    assert(s[gap.len() as int] == word[0]);
    text::lemma_skip_while_is(title, CharSet::HeadingSeparator, m);
    let rest = title.skip(m);
    assert forall|j: int| 0 <= j < n implies !CharSet::HeadingSeparator.has(#[trigger] rest[j])
        && rest[j] == text::lowercase(word)[j] by {
        assert(rest[j] == title[m + j]);
        assert(t[m + j] == s[gap.len() + j]);
        assert(s[gap.len() + j] == word[j]);
    }
    if n < rest.len() {
        assert(rest[n] == title[m + n]);
        assert(t[m + n] == s[gap.len() + n]);
        assert(s[gap.len() + n] == tail[0]);
    }
    text::lemma_find_is(rest, CharSet::HeadingSeparator, n as nat);
    assert(rest.take(n) =~= text::lowercase(word));
}

/// The first word of a heading is found, whatever follows it.
proof fn lemma_heading(marks: Seq<char>, gap: Seq<char>, word: Seq<char>, tail: Seq<char>)
    requires
        marks.len() > 0,
        forall|i: int| 0 <= i < marks.len() ==> #[trigger] marks[i] == '#',
        all_separators(gap),
        word.len() > 0,
        word[0] != '#',
        forall|i: int| 0 <= i < word.len() ==> !CharSet::HeadingSeparator.has(#[trigger] word[i]),
        tail.len() == 0 || CharSet::HeadingSeparator.has(tail[0]),
    ensures
        kind::heading_kind(marks + gap + word + tail) == kind::heading_word_kind(
            text::lowercase(word),
        ),
{
    reveal_strlit("#");
    let line = marks + gap + word + tail;
    let s = gap + word + tail;
    assert(marks[0] == '#');
    assert(line =~= marks + s);
    let end = text_facts::lemma_trim_after_prefix(marks, s);
    let heading = text::trim(line);
    assert(heading == marks + end);
    assert(heading.take(1) =~= "#"@);
    let t = text::trim(end);
    assert(t == text::trim(s));
    let (a, b) = lemma_title(gap, word, tail);
    assert(t.len() > 0);
    assert(t[0] == s[a.len() as int]);
    if a.len() < gap.len() {
        assert(t[0] == gap[a.len() as int]);
    } else {
        assert(t[0] == word[0]);
    }
    let (c, d) = text_facts::lemma_trim(end);
    assert(end.len() > 0);
    if c.len() > 0 {
        assert(end[0] == c[0]);
        assert(text::is_white_space(c[0]));
    } else {
        assert(end[0] == t[0]);
    }
    let m = marks.len() as int;
    assert forall|j: int| 0 <= j < m implies CharSet::Only('#').has(#[trigger] heading[j]) by {
        assert(heading[j] == marks[j]);
    }
    assert(heading[m] == end[0]);
    text::lemma_skip_while_is(heading, CharSet::Only('#'), m);
    assert(heading.skip(m) =~= end);
    lemma_first_word(gap, word, tail);
}

/// A line that does not begin with a number sign names no kind as a heading.
pub proof fn law_only_headings_name_kinds(line: Seq<char>)
    requires
        text::trim(line).len() == 0 || text::trim(line)[0] != '#',
    ensures
        kind::heading_kind(line) is None,
{
    reveal_strlit("#");
    let t = text::trim(line);
    if text::starts_with(t, "#"@) {
        assert(t.take(1)[0] == t[0]);
    }
}

// ---------------------------------------------------------------------------
// Chunks
// ---------------------------------------------------------------------------

/// Whether line `k` is the last one that names a kind in a field.
pub open spec fn is_last_kind(ls: Seq<Seq<char>>, k: int) -> bool {
    &&& 0 <= k < ls.len()
    &&& kind::line_cue(ls[k]) is Kind
    &&& forall|j: int| k < j < ls.len() ==> !(kind::line_cue(#[trigger] ls[j]) is Kind)
}

/// Whether line `k` is the first heading that names a kind, from line `from`.
pub open spec fn is_first_heading(ls: Seq<Seq<char>>, from: int, k: int) -> bool {
    &&& from <= k < ls.len()
    &&& kind::line_cue(ls[k]) is Heading
    &&& forall|j: int| from <= j < k ==> !(kind::line_cue(#[trigger] ls[j]) is Heading)
}

/// A heading names no kind that is not one.
proof fn lemma_heading_is_known(line: Seq<char>)
    ensures
        kind::line_cue(line) is Heading ==> kind::line_cue(line)->Heading_0 != MemoryKind::Unknown,
{
}

/// Lines without a field for the kind keep it, but for a first heading.
proof fn lemma_kind_stays(ls: Seq<Seq<char>>, from: int)
    requires
        0 <= from <= ls.len(),
        forall|j: int| from <= j < ls.len() ==> !(kind::line_cue(#[trigger] ls[j]) is Kind),
    ensures
        ({
            let before = kind::kind_of(ls.take(from));
            &&& before != MemoryKind::Unknown ==> kind::kind_of(ls) == before
            &&& before == MemoryKind::Unknown && (forall|j: int|
                from <= j < ls.len() ==> !(kind::line_cue(#[trigger] ls[j]) is Heading))
                ==> kind::kind_of(ls) == MemoryKind::Unknown
        }),
        forall|k: int|
            kind::kind_of(ls.take(from)) == MemoryKind::Unknown && #[trigger] is_first_heading(
                ls,
                from,
                k,
            ) ==> LineCue::Heading(kind::kind_of(ls)) == kind::line_cue(ls[k]),
    decreases ls.len(),
{
    if from == ls.len() {
        assert(ls.take(from) =~= ls);
    } else {
        let init = ls.drop_last();
        let n = init.len() as int;
        assert forall|j: int| from <= j < init.len() implies !(kind::line_cue(
            #[trigger] init[j],
        ) is Kind) by {
            assert(init[j] == ls[j]);
        }
        lemma_kind_stays(init, from);
        assert(init.take(from) =~= ls.take(from));
        assert(ls.last() == ls[n]);
        assert(!(kind::line_cue(ls[n]) is Kind));
        lemma_heading_is_known(ls.last());
        let before = kind::kind_of(ls.take(from));
        if before == MemoryKind::Unknown {
            if forall|j: int| from <= j < n ==> !(kind::line_cue(#[trigger] ls[j]) is Heading) {
                assert forall|j: int| from <= j < init.len() implies !(kind::line_cue(
                    #[trigger] init[j],
                ) is Heading) by {
                    assert(init[j] == ls[j]);
                }
                assert(kind::kind_of(init) == MemoryKind::Unknown);
            }
        }
        assert forall|k: int|
            before == MemoryKind::Unknown && #[trigger] is_first_heading(ls, from, k) implies
            LineCue::Heading(kind::kind_of(ls)) == kind::line_cue(ls[k]) by {
            if k < n {
                assert(is_first_heading(init, from, k)) by {
                    assert forall|j: int| from <= j < k implies !(kind::line_cue(
                        #[trigger] init[j],
                    ) is Heading) by {
                        assert(init[j] == ls[j]);
                    }
                }
                lemma_heading_is_known(ls[k]);
            } else {
                assert forall|j: int| from <= j < init.len() implies !(kind::line_cue(
                    #[trigger] init[j],
                ) is Heading) by {
                    assert(init[j] == ls[j]);
                }
            }
        }
    }
}

/// The kind of some lines is that of the last field which names one. Where no
/// field does, it is that of the first heading which names one, and otherwise
/// it is not known.
pub proof fn law_kind_of_lines(ls: Seq<Seq<char>>, k: int)
    ensures
        is_last_kind(ls, k) && kind::line_cue(ls[k]) != LineCue::Kind(MemoryKind::Unknown)
            ==> LineCue::Kind(kind::kind_of(ls)) == kind::line_cue(ls[k]),
        (forall|j: int| 0 <= j < ls.len() ==> !(kind::line_cue(#[trigger] ls[j]) is Kind))
            && is_first_heading(ls, 0, k) ==> LineCue::Heading(kind::kind_of(ls))
            == kind::line_cue(ls[k]),
        (forall|j: int|
            0 <= j < ls.len() ==> !(kind::line_cue(#[trigger] ls[j]) is Kind) && !(kind::line_cue(
                ls[j],
            ) is Heading)) ==> kind::kind_of(ls) == MemoryKind::Unknown,
{
    if is_last_kind(ls, k) {
        let upto = ls.take(k + 1);
        assert(upto.last() == ls[k]);
        lemma_kind_stays(ls, k + 1);
    }
    assert(ls.take(0) =~= seq![]);
    if forall|j: int| 0 <= j < ls.len() ==> !(kind::line_cue(#[trigger] ls[j]) is Kind) {
        lemma_kind_stays(ls, 0);
    }
}

/// A `type` or `kind` field that says the kind is unknown forgets what came
/// before: after it the first heading counts again.
pub proof fn law_unknown_forgets(ls: Seq<Seq<char>>, k: int, h: int)
    requires
        is_last_kind(ls, k),
        kind::line_cue(ls[k]) == LineCue::Kind(MemoryKind::Unknown),
    ensures
        is_first_heading(ls, k + 1, h) ==> LineCue::Heading(kind::kind_of(ls)) == kind::line_cue(
            ls[h],
        ),
        (forall|j: int| k < j < ls.len() ==> !(kind::line_cue(#[trigger] ls[j]) is Heading))
            ==> kind::kind_of(ls) == MemoryKind::Unknown,
{
    let upto = ls.take(k + 1);
    assert(upto.last() == ls[k]);
    lemma_kind_stays(ls, k + 1);
}

/// The status of some lines is that of the last field which gives one; without
/// such a field it is active.
pub proof fn law_status_of_lines(ls: Seq<Seq<char>>, k: int)
    ensures
        0 <= k < ls.len() && kind::line_cue(ls[k]) is Status && (forall|j: int|
            k < j < ls.len() ==> !(kind::line_cue(#[trigger] ls[j]) is Status)) ==> LineCue::Status(
            kind::status_of(ls),
        ) == kind::line_cue(ls[k]),
        (forall|j: int| 0 <= j < ls.len() ==> !(kind::line_cue(#[trigger] ls[j]) is Status))
            ==> kind::status_of(ls) == "active"@,
    decreases ls.len(),
{
    if ls.len() > 0 {
        let init = ls.drop_last();
        law_status_of_lines(init, k);
        assert forall|j: int| 0 <= j < init.len() implies #[trigger] init[j] == ls[j] by {}
        assert(ls.last() == ls[ls.len() - 1]);
    }
}

/// What some lines supersede is what the last field which names something
/// says; without such a field they supersede nothing.
pub proof fn law_supersedes_of_lines(ls: Seq<Seq<char>>, k: int)
    ensures
        0 <= k < ls.len() && kind::line_cue(ls[k]) is Supersedes && (forall|j: int|
            k < j < ls.len() ==> !(kind::line_cue(#[trigger] ls[j]) is Supersedes))
            ==> kind::supersedes_of(ls) == Some(kind::line_cue(ls[k])->Supersedes_0),
        (forall|j: int| 0 <= j < ls.len() ==> !(kind::line_cue(#[trigger] ls[j]) is Supersedes))
            ==> kind::supersedes_of(ls) is None,
    decreases ls.len(),
{
    if ls.len() > 0 {
        let init = ls.drop_last();
        law_supersedes_of_lines(init, k);
        assert forall|j: int| 0 <= j < init.len() implies #[trigger] init[j] == ls[j] by {}
        assert(ls.last() == ls[ls.len() - 1]);
    }
}

/// The lines that are not blank.
pub open spec fn lines_with_text(ls: Seq<Seq<char>>) -> Seq<Seq<char>> {
    ls.filter(|line: Seq<char>| !text_facts::all_white(line))
}

proof fn lemma_lines_with_text(ls: Seq<Seq<char>>)
    ensures
        kind::nonblank(ls).len() == lines_with_text(ls).len(),
        forall|k: int|
            0 <= k < lines_with_text(ls).len() ==> #[trigger] kind::nonblank(ls)[k] == text::trim(
                lines_with_text(ls)[k],
            ),
    decreases ls.len(),
{
    reveal(Seq::filter);
    if ls.len() > 0 {
        lemma_lines_with_text(ls.drop_last());
        text_facts::lemma_blank(ls.last());
    }
}

/// A chunk is read by its first forty lines that are not blank, trimmed, and
/// by no others: its metadata are what these lines say. One from a session
/// whose kind is not known is an episode.
pub proof fn law_what_is_read(chunk: Seq<char>, source: Seq<char>)
    ensures
        ({
            let all = lines_with_text(text::lines(chunk));
            let n = if all.len() < 40 {
                all.len()
            } else {
                40
            };
            let read = Seq::new(n, |k: int| text::trim(all[k]));
            let meta = kind::classification(chunk, source);
            let found = kind::kind_of(read);
            &&& meta.status == kind::status_of(read)
            &&& meta.supersedes == kind::supersedes_of(read)
            &&& found != MemoryKind::Unknown ==> meta.kind == found
            &&& found == MemoryKind::Unknown && source == "session"@ ==> meta.kind
                == MemoryKind::Episode
            &&& found == MemoryKind::Unknown && source != "session"@ ==> meta.kind
                == MemoryKind::Unknown
        }),
{
    let ls = text::lines(chunk);
    let all = lines_with_text(ls);
    lemma_lines_with_text(ls);
    let n = if all.len() < 40 {
        all.len()
    } else {
        40
    };
    let read = Seq::new(n, |k: int| text::trim(all[k]));
    assert(kind::scanned(chunk) =~= read);
}

/// A text names a kind by one of its words, white space around it and the case
/// of its letters not counted.
pub proof fn law_named_kinds(s: Seq<char>)
    ensures
        kind::parsed_kind(s) == kind::named_kind(text::lowercase(text::trim(s))),
{
}

/// Optional texts as they are modelled.
pub proof fn law_optional_texts(s: &str, t: String)
    ensures
        text::optional_str(Some(s)) == Some(s@),
        text::optional_str(None) is None,
        text::optional(Some(t)) == Some(t@),
        text::optional(None) is None,
{
}

/// Metadata as they are modelled.
pub proof fn law_chunk_model(meta: ChunkMeta)
    ensures
        meta@.kind == meta.kind,
        meta@.status == meta.status@,
        meta@.supersedes is Some <==> meta.supersedes is Some,
        meta.supersedes is Some ==> meta@.supersedes->0 == meta.supersedes->0@,
{
}

} // verus!
