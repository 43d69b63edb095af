//! Facts about trimmed texts and about lines.

use crate::text;
use crate::text::CharSet;
use vstd::prelude::*;

verus! {

// ---------------------------------------------------------------------------
// Trimming
// ---------------------------------------------------------------------------

/// Whether every character of `s` is white space.
pub open spec fn all_white(s: Seq<char>) -> bool {
    forall|k: int| 0 <= k < s.len() ==> text::is_white_space(#[trigger] s[k])
}

/// Whether `s` is not empty and neither begins nor ends with white space.
pub open spec fn is_tight(s: Seq<char>) -> bool {
    s.len() > 0 && !text::is_white_space(s[0]) && !text::is_white_space(s.last())
}

/// What `skip_while` removes: the characters before the position returned.
pub proof fn lemma_skip_while(s: Seq<char>, set: CharSet) -> (i: int)
    ensures
        0 <= i <= s.len(),
        forall|k: int| 0 <= k < i ==> set.has(#[trigger] s[k]),
        i < s.len() ==> !set.has(s[i]),
        text::skip_while(s, set) == s.skip(i),
    decreases s.len(),
{
    if s.len() > 0 && set.has(s[0]) {
        let rest = s.skip(1);
        let i = lemma_skip_while(rest, set);
        assert forall|k: int| 0 <= k < i + 1 implies set.has(#[trigger] s[k]) by {
            if k > 0 {
                assert(s[k] == rest[k - 1]);
            }
        }
        assert(rest.skip(i) =~= s.skip(i + 1));
        i + 1
    } else {
        assert(s.skip(0) =~= s);
        0
    }
}

/// What `drop_while` removes: the characters from the position returned on.
pub proof fn lemma_drop_while(s: Seq<char>, set: CharSet) -> (i: int)
    ensures
        0 <= i <= s.len(),
        forall|k: int| i <= k < s.len() ==> set.has(#[trigger] s[k]),
        i > 0 ==> !set.has(s[i - 1]),
        text::drop_while(s, set) == s.take(i),
    decreases s.len(),
{
    if s.len() > 0 && set.has(s.last()) {
        let rest = s.drop_last();
        let i = lemma_drop_while(rest, set);
        assert forall|k: int| i <= k < s.len() implies set.has(#[trigger] s[k]) by {
            if k < rest.len() {
                assert(s[k] == rest[k]);
            }
        }
        assert(rest.take(i) =~= s.take(i));
        i
    } else {
        assert(s.take(s.len() as int) =~= s);
        s.len() as int
    }
}

/// Between white space on both sides, `trim` keeps the part that neither
/// begins nor ends with it.
pub proof fn lemma_trim_is(before: Seq<char>, middle: Seq<char>, after: Seq<char>)
    requires
        all_white(before),
        all_white(after),
        middle.len() == 0 || is_tight(middle),
    ensures
        text::trim(before + middle + after) == middle,
{
    let s = before + middle + after;
    if middle.len() == 0 {
        assert forall|k: int| 0 <= k < s.len() implies text::is_white_space(#[trigger] s[k]) by {
            if k < before.len() {
                assert(s[k] == before[k]);
            } else {
                assert(s[k] == after[k - before.len()]);
            }
        }
        text::lemma_skip_while_is(s, CharSet::WhiteSpace, s.len() as int);
        assert(text::trim(s) =~= middle);
    } else {
        let i = before.len() as int;
        assert forall|k: int| 0 <= k < i implies text::is_white_space(#[trigger] s[k]) by {
            assert(s[k] == before[k]);
        }
        assert(s[i] == middle[0]);
        text::lemma_skip_while_is(s, CharSet::WhiteSpace, i);
        let t = middle + after;
        assert(s.skip(i) =~= t);
        let j = middle.len() as int;
        assert forall|k: int| j <= k < t.len() implies text::is_white_space(#[trigger] t[k]) by {
            assert(t[k] == after[k - j]);
        }
        assert(t[j - 1] == middle.last());
        text::lemma_drop_while_is(t, CharSet::WhiteSpace, j);
        assert(t.take(j) =~= middle);
    }
}

/// A text is white space, its trimmed form, and white space again.
pub proof fn lemma_trim(s: Seq<char>) -> (r: (Seq<char>, Seq<char>))
    ensures
        s == r.0 + text::trim(s) + r.1,
        all_white(r.0),
        all_white(r.1),
        text::trim(s).len() == 0 || is_tight(text::trim(s)),
{
    let i = lemma_skip_while(s, CharSet::WhiteSpace);
    let t = s.skip(i);
    let j = lemma_drop_while(t, CharSet::WhiteSpace);
    let before = s.take(i);
    let after = t.skip(j);
    assert(s =~= before + t.take(j) + after);
    assert forall|k: int| 0 <= k < after.len() implies text::is_white_space(
        #[trigger] after[k],
    ) by {
        assert(after[k] == t[j + k]);
    }
    if j > 0 {
        assert(t[0] == s[i]);
        assert(t.take(j)[0] == t[0]);
        assert(t.take(j).last() == t[j - 1]);
    }
    (before, after)
}

/// Trimming twice is trimming once.
pub proof fn lemma_trim_twice(s: Seq<char>)
    ensures
        text::trim(text::trim(s)) == text::trim(s),
{
    let _ = lemma_trim(s);
    let t = text::trim(s);
    lemma_trim_is(seq![], t, seq![]);
    assert(Seq::<char>::empty() + t + Seq::<char>::empty() =~= t);
}

/// A tight text is its own trimmed form.
pub proof fn lemma_trim_tight(s: Seq<char>)
    requires
        is_tight(s),
    ensures
        text::trim(s) == s,
{
    lemma_trim_is(seq![], s, seq![]);
    assert(Seq::<char>::empty() + s + Seq::<char>::empty() =~= s);
}

/// White space around a text does not change its trimmed form.
pub proof fn lemma_trim_padded(before: Seq<char>, s: Seq<char>, after: Seq<char>)
    requires
        all_white(before),
        all_white(after),
    ensures
        text::trim(before + s + after) == text::trim(s),
{
    let (left, right) = lemma_trim(s);
    let t = text::trim(s);
    assert(before + s + after =~= (before + left) + t + (right + after));
    lemma_trim_is(before + left, t, right + after);
}

/// A tight text at the start of another stays when that one is trimmed; what
/// follows it loses the white space at its end.
pub proof fn lemma_trim_after_prefix(prefix: Seq<char>, s: Seq<char>) -> (end: Seq<char>)
    requires
        is_tight(prefix),
    ensures
        text::trim(prefix + s) == prefix + end,
        text::trim(end) == text::trim(s),
{
    let j = lemma_drop_while(s, CharSet::WhiteSpace);
    let end = s.take(j);
    let after = s.skip(j);
    assert(s =~= end + after);
    assert forall|k: int| 0 <= k < after.len() implies text::is_white_space(
        #[trigger] after[k],
    ) by {
        assert(after[k] == s[j + k]);
    }
    let middle = prefix + end;
    if j > 0 {
        assert(middle.last() == s[j - 1]);
    } else {
        assert(middle =~= prefix);
    }
    assert(Seq::<char>::empty() + middle + after =~= prefix + s);
    lemma_trim_is(seq![], middle, after);
    lemma_trim_padded(seq![], end, after);
    assert(Seq::<char>::empty() + end + after =~= s);
    end
}

/// A carriage return at the end of a line does not change its trimmed form.
pub proof fn lemma_trim_stripped(s: Seq<char>)
    ensures
        text::trim(text::strip_carriage_return(s)) == text::trim(s),
{
    let t = text::strip_carriage_return(s);
    if s.len() > 0 && s.last() == '\r' {
        let after = seq!['\r'];
        lemma_trim_padded(seq![], t, after);
        assert(Seq::<char>::empty() + t + after =~= s);
    }
}

/// A text is blank exactly where all of it is white space.
pub proof fn lemma_blank(s: Seq<char>)
    ensures
        text::is_blank(s) == all_white(s),
{
    let (left, right) = lemma_trim(s);
    let t = text::trim(s);
    if t.len() > 0 {
        assert(s[left.len() as int] == t[0]);
    } else {
        assert forall|k: int| 0 <= k < s.len() implies text::is_white_space(#[trigger] s[k]) by {
            if k < left.len() {
                assert(s[k] == left[k]);
            } else {
                assert(s[k] == right[k - left.len()]);
            }
        }
    }
}

// ---------------------------------------------------------------------------
// Lines
// ---------------------------------------------------------------------------

/// Whether `s` has no line feed.
pub open spec fn is_line(s: Seq<char>) -> bool {
    forall|k: int| 0 <= k < s.len() ==> #[trigger] s[k] != '\n'
}

/// Whether `s` is empty or ends in a line feed.
pub open spec fn is_closed(s: Seq<char>) -> bool {
    s.len() == 0 || s.last() == '\n'
}

/// Whether `s` can stand between two line ends: it has no line feed and no
/// carriage return at its end.
pub open spec fn is_bare_line(s: Seq<char>) -> bool {
    is_line(s) && (s.len() > 0 ==> s.last() != '\r')
}

/// The lines of a closed line with more text after it.
pub proof fn lemma_lines_first(line: Seq<char>, rest: Seq<char>)
    requires
        is_line(line),
    ensures
        text::lines(line.push('\n') + rest) == seq![text::strip_carriage_return(line)]
            + text::lines(rest),
{
    let s = line.push('\n') + rest;
    let n = line.len();
    assert(s[n as int] == '\n');
    assert forall|k: int| 0 <= k < n implies !CharSet::Only('\n').has(#[trigger] s[k]) by {
        assert(s[k] == line[k]);
    }
    text::lemma_find_is(s, CharSet::Only('\n'), n);
    assert(s.take(n as int) =~= line);
    assert(s.skip(n as int + 1) =~= rest);
}

/// A text that is not empty is a line without an end, or a closed line and
/// more text.
pub proof fn lemma_lines_split(s: Seq<char>) -> (r: (Seq<char>, Seq<char>))
    requires
        s.len() > 0,
    ensures
        is_line(r.0),
        r.1.len() < s.len(),
        s == r.0.push('\n') + r.1 || (r.1.len() == 0 && s == r.0 && text::lines(s) == seq![s]),
        s == r.0.push('\n') + r.1 ==> text::lines(s) == seq![text::strip_carriage_return(r.0)]
            + text::lines(r.1),
{
    text::lemma_find(s, CharSet::Only('\n'));
    let end = text::find(s, CharSet::Only('\n')) as int;
    let line = s.take(end);
    assert forall|k: int| 0 <= k < line.len() implies #[trigger] line[k] != '\n' by {
        assert(!CharSet::Only('\n').has(s[k]));
    }
    if end < s.len() {
        let rest = s.skip(end + 1);
        assert(s =~= line.push('\n') + rest);
        lemma_lines_first(line, rest);
        (line, rest)
    } else {
        assert(line =~= s);
        (line, seq![])
    }
}

/// The lines of a closed text with more text after it.
pub proof fn lemma_lines_add(a: Seq<char>, b: Seq<char>)
    requires
        is_closed(a),
    ensures
        text::lines(a + b) == text::lines(a) + text::lines(b),
    decreases a.len(),
{
    if a.len() == 0 {
        assert(a + b =~= b);
        assert(text::lines(a) + text::lines(b) =~= text::lines(b));
    } else {
        let (line, rest) = lemma_lines_split(a);
        assert(a == line.push('\n') + rest) by {
            if a == line {
                assert(line[a.len() - 1] == '\n');
            }
        }
        if rest.len() > 0 {
            assert(rest.last() == a.last());
        }
        lemma_lines_add(rest, b);
        assert(a + b =~= line.push('\n') + (rest + b));
        lemma_lines_first(line, rest + b);
        let first = seq![text::strip_carriage_return(line)];
        assert(first + (text::lines(rest) + text::lines(b)) =~= (first + text::lines(rest))
            + text::lines(b));
    }
}

/// No line of a text holds a line feed.
pub proof fn lemma_lines_are_lines(s: Seq<char>)
    ensures
        forall|k: int| 0 <= k < text::lines(s).len() ==> is_line(#[trigger] text::lines(s)[k]),
    decreases s.len(),
{
    if s.len() > 0 {
        let (line, rest) = lemma_lines_split(s);
        if s == line.push('\n') + rest {
            lemma_lines_are_lines(rest);
            let first = text::strip_carriage_return(line);
            assert(is_line(first));
            assert forall|k: int| 0 <= k < text::lines(s).len() implies is_line(
                #[trigger] text::lines(s)[k],
            ) by {
                if k > 0 {
                    assert(text::lines(s)[k] == text::lines(rest)[k - 1]);
                }
            }
        }
    }
}

/// A line feed at the end of a text that ends in neither a line feed nor a
/// carriage return changes no line.
pub proof fn lemma_lines_closed(s: Seq<char>)
    requires
        s.len() > 0,
        s.last() != '\n',
        s.last() != '\r',
    ensures
        text::lines(s.push('\n')) == text::lines(s),
    decreases s.len(),
{
    let (line, rest) = lemma_lines_split(s);
    let empty = Seq::<char>::empty();
    if s == line.push('\n') + rest {
        if rest.len() == 0 {
            assert(s.last() == '\n');
        }
        assert(rest.last() == s.last());
        lemma_lines_closed(rest);
        assert(s.push('\n') =~= line.push('\n') + rest.push('\n'));
        lemma_lines_first(line, rest.push('\n'));
    } else {
        assert(s.push('\n') =~= line.push('\n') + empty);
        lemma_lines_first(line, empty);
        assert(text::lines(s.push('\n')) =~= seq![s]);
    }
}

/// White space after a text does not change its lines, but for white space at
/// the end of the last one.
pub proof fn lemma_lines_padded(s: Seq<char>, after: Seq<char>, k: int)
    requires
        all_white(after),
        0 <= k < text::lines(s).len(),
    ensures
        k < text::lines(s + after).len(),
        text::trim(text::lines(s)[k]) == text::trim(text::lines(s + after)[k]),
    decreases s.len(),
{
    let (line, rest) = lemma_lines_split(s);
    if s == line.push('\n') + rest {
        assert(s + after =~= line.push('\n') + (rest + after));
        lemma_lines_first(line, rest + after);
        if k > 0 {
            lemma_lines_padded(rest, after, k - 1);
        }
    } else {
        let whole = s + after;
        let (first, tail) = lemma_lines_split(whole);
        if whole == first.push('\n') + tail {
            assert(whole[first.len() as int] == '\n');
            if first.len() < s.len() {
                assert(line[first.len() as int] == '\n');
            }
        }
        let pad = after.take(first.len() - s.len());
        assert(first =~= whole.take(first.len() as int));
        assert(first =~= Seq::<char>::empty() + s + pad);
        lemma_trim_padded(seq![], s, pad);
        lemma_trim_stripped(first);
    }
}

/// Joined lines end in a line feed.
pub proof fn lemma_join_closed(ls: Seq<Seq<char>>)
    ensures
        is_closed(text::join_lines(ls)),
{
    if ls.len() > 0 {
        assert(text::join_lines(ls).last() == '\n');
    }
}

/// Lines that are joined one list after the other.
pub proof fn lemma_join_add(a: Seq<Seq<char>>, b: Seq<Seq<char>>)
    ensures
        text::join_lines(a + b) == text::join_lines(a) + text::join_lines(b),
    decreases b.len(),
{
    if b.len() == 0 {
        assert(a + b =~= a);
        assert(text::join_lines(a) + text::join_lines(b) =~= text::join_lines(a));
    } else {
        lemma_join_add(a, b.drop_last());
        assert((a + b).drop_last() =~= a + b.drop_last());
        assert(text::join_lines(a + b) =~= text::join_lines(a) + text::join_lines(b));
    }
}

/// The lines without the carriage return that each may end in.
pub open spec fn stripped(ls: Seq<Seq<char>>) -> Seq<Seq<char>> {
    Seq::new(ls.len(), |i: int| text::strip_carriage_return(ls[i]))
}

/// The lines of joined lines are those lines, without carriage returns at
/// their ends.
pub proof fn lemma_lines_join(ls: Seq<Seq<char>>)
    requires
        forall|k: int| 0 <= k < ls.len() ==> is_line(#[trigger] ls[k]),
    ensures
        text::lines(text::join_lines(ls)) == stripped(ls),
    decreases ls.len(),
{
    if ls.len() == 0 {
        assert(text::lines(text::join_lines(ls)) =~= stripped(ls));
    } else {
        let init = ls.drop_last();
        assert forall|k: int| 0 <= k < init.len() implies is_line(#[trigger] init[k]) by {
            assert(init[k] == ls[k]);
        }
        lemma_lines_join(init);
        lemma_join_closed(init);
        let last = ls.last();
        assert(is_line(ls[ls.len() - 1]));
        lemma_lines_add(text::join_lines(init), last.push('\n'));
        lemma_lines_first(last, seq![]);
        assert(last.push('\n') + Seq::<char>::empty() =~= last.push('\n'));
        assert(text::lines(text::join_lines(ls)) =~= stripped(ls));
    }
}

} // verus!
