//! Text as sequences of characters.
//!
//! A `&str` or `String` is modelled by its view, a `Seq<char>`. The spec
//! functions here say what a line, a trimmed text or a substring is; the
//! executable functions work on character slices and are proved to compute
//! exactly that.

use vstd::prelude::*;
use vstd::slice::slice_subrange;

verus! {

// ---------------------------------------------------------------------------
// Characters
// ---------------------------------------------------------------------------

/// The characters with the Unicode property `White_Space`.
pub open spec fn is_white_space(c: char) -> bool {
    ||| '\u{9}' <= c <= '\u{d}'
    ||| c == ' '
    ||| c == '\u{85}'
    ||| c == '\u{a0}'
    ||| c == '\u{1680}'
    ||| '\u{2000}' <= c <= '\u{200a}'
    ||| c == '\u{2028}'
    ||| c == '\u{2029}'
    ||| c == '\u{202f}'
    ||| c == '\u{205f}'
    ||| c == '\u{3000}'
}

/// Whether a character is white space.
fn is_white_space_char(c: char) -> (r: bool)
    ensures
        r == is_white_space(c),
{
    ('\u{9}' <= c && c <= '\u{d}') || c == ' ' || c == '\u{85}' || c == '\u{a0}' || c == '\u{1680}'
        || ('\u{2000}' <= c && c <= '\u{200a}') || c == '\u{2028}' || c == '\u{2029}' || c
        == '\u{202f}' || c == '\u{205f}' || c == '\u{3000}'
}

/// `String::push`: appends one character to the end of the string.
pub assume_specification[ String::push ](s: &mut String, c: char)
    ensures
        final(s)@ == old(s)@.push(c),
;

/// `c` with `A`..`Z` mapped to `a`..`z`; every other character stays.
pub open spec fn ascii_lower(c: char) -> char {
    if 'A' <= c <= 'Z' {
        ((c as u8) + 32) as char
    } else {
        c
    }
}

fn ascii_lower_char(c: char) -> (r: char)
    ensures
        r == ascii_lower(c),
{
    if 'A' <= c && c <= 'Z' {
        (c as u8 + 32) as char
    } else {
        c
    }
}

/// A set of characters that a text is trimmed by or split on.
#[derive(Clone, Copy)]
pub enum CharSet {
    /// The Unicode white space.
    WhiteSpace,
    /// One character.
    Only(char),
    /// What may stand between the kind word of a heading and its title:
    /// a colon, a dash, an em dash, a bar or white space.
    HeadingSeparator,
    /// The punctuation that may close a greeting.
    ClosingMark,
}

impl CharSet {
    /// Whether `c` belongs to the set.
    pub open spec fn has(self, c: char) -> bool {
        match self {
            CharSet::WhiteSpace => is_white_space(c),
            CharSet::Only(x) => c == x,
            CharSet::HeadingSeparator => {
                c == ':' || c == '\u{2014}' || c == '-' || c == '|' || is_white_space(c)
            },
            CharSet::ClosingMark => c == '.' || c == '!' || c == '?' || c == ',',
        }
    }

    fn contains(self, c: char) -> (r: bool)
        ensures
            r == self.has(c),
    {
        match self {
            CharSet::WhiteSpace => is_white_space_char(c),
            CharSet::Only(x) => c == x,
            CharSet::HeadingSeparator => {
                c == ':' || c == '\u{2014}' || c == '-' || c == '|' || is_white_space_char(
                    c,
                )
            },
            CharSet::ClosingMark => c == '.' || c == '!' || c == '?' || c == ',',
        }
    }
}

// ---------------------------------------------------------------------------
// Models
// ---------------------------------------------------------------------------

/// `s` without the characters of `set` at its start.
pub open spec fn skip_while(s: Seq<char>, set: CharSet) -> Seq<char>
    decreases s.len(),
{
    if s.len() > 0 && set.has(s[0]) {
        skip_while(s.skip(1), set)
    } else {
        s
    }
}

/// `s` without the characters of `set` at its end.
pub open spec fn drop_while(s: Seq<char>, set: CharSet) -> Seq<char>
    decreases s.len(),
{
    if s.len() > 0 && set.has(s.last()) {
        drop_while(s.drop_last(), set)
    } else {
        s
    }
}

/// `s` without white space at its start.
pub open spec fn trim_start(s: Seq<char>) -> Seq<char> {
    skip_while(s, CharSet::WhiteSpace)
}

/// `s` without white space at its start and its end.
pub open spec fn trim(s: Seq<char>) -> Seq<char> {
    drop_while(trim_start(s), CharSet::WhiteSpace)
}

/// Whether `s` is empty or holds white space only.
pub open spec fn is_blank(s: Seq<char>) -> bool {
    trim(s).len() == 0
}

/// Whether `s` begins with `prefix`.
pub open spec fn starts_with(s: Seq<char>, prefix: Seq<char>) -> bool {
    prefix.len() <= s.len() && s.take(prefix.len() as int) == prefix
}

/// `s` without the copies of `prefix` at its start, as long as one is there.
pub open spec fn skip_prefixes(s: Seq<char>, prefix: Seq<char>) -> Seq<char>
    decreases s.len(),
{
    if prefix.len() > 0 && starts_with(s, prefix) {
        skip_prefixes(s.skip(prefix.len() as int), prefix)
    } else {
        s
    }
}

/// Whether `needle` stands in `s` at position `i`.
pub open spec fn occurs_at(s: Seq<char>, needle: Seq<char>, i: int) -> bool {
    &&& 0 <= i
    &&& i + needle.len() <= s.len()
    &&& s.subrange(i, i + needle.len()) == needle
}

/// Whether `needle` is a substring of `s`.
pub open spec fn contains(s: Seq<char>, needle: Seq<char>) -> bool {
    exists|i: int| #[trigger] occurs_at(s, needle, i)
}

/// Whether one of `needles` is a substring of `s`.
pub open spec fn contains_any(s: Seq<char>, needles: Seq<Seq<char>>) -> bool {
    exists|k: int| 0 <= k < needles.len() && contains(s, #[trigger] needles[k])
}

/// `s` with each ASCII capital letter mapped to its small letter.
pub open spec fn lowercase(s: Seq<char>) -> Seq<char> {
    Seq::new(s.len(), |i: int| ascii_lower(s[i]))
}

/// The position of the first character of `set` in `s`, or the length of `s`.
pub open spec fn find(s: Seq<char>, set: CharSet) -> nat
    decreases s.len(),
{
    if s.len() == 0 || set.has(s[0]) {
        0
    } else {
        1 + find(s.skip(1), set)
    }
}

/// `s` without one carriage return at its end.
pub open spec fn strip_carriage_return(s: Seq<char>) -> Seq<char> {
    if s.len() > 0 && s.last() == '\r' {
        s.drop_last()
    } else {
        s
    }
}

/// The lines of `s`, without their line ends. A line ends in a line feed, or
/// in a carriage return and a line feed; the last line needs no end.
pub open spec fn lines(s: Seq<char>) -> Seq<Seq<char>>
    decreases s.len(),
{
    if s.len() == 0 {
        seq![]
    } else {
        let end = find(s, CharSet::Only('\n'));
        if end >= s.len() {
            seq![s]
        } else {
            seq![strip_carriage_return(s.take(end as int))] + lines(s.skip((end + 1) as int))
        }
    }
}

/// The lines of `ls`, each closed by a line feed.
pub open spec fn join_lines(ls: Seq<Seq<char>>) -> Seq<char>
    decreases ls.len(),
{
    if ls.len() == 0 {
        seq![]
    } else {
        join_lines(ls.drop_last()) + ls.last().push('\n')
    }
}

/// The decimal digit of `d`.
pub open spec fn digit(d: nat) -> char {
    (('0' as u8) + d) as char
}

/// `n` in decimal, without leading zeros.
pub open spec fn decimal(n: nat) -> Seq<char>
    decreases n,
{
    if n < 10 {
        seq![digit(n)]
    } else {
        decimal(n / 10).push(digit(n % 10))
    }
}

/// The length of `s` in UTF-8.
pub open spec fn byte_len(s: Seq<char>) -> nat {
    vstd::utf8::encode_utf8(s).len()
}

/// The first `n` characters of `s`, or all of them where it has no more.
pub open spec fn clip(s: Seq<char>, n: nat) -> Seq<char> {
    if s.len() > n {
        s.take(n as int)
    } else {
        s
    }
}

/// The view of an optional string.
pub open spec fn optional(s: Option<String>) -> Option<Seq<char>> {
    match s {
        Some(t) => Some(t@),
        None => None,
    }
}

/// The view of an optional text.
pub open spec fn optional_str(s: Option<&str>) -> Option<Seq<char>> {
    match s {
        Some(t) => Some(t@),
        None => None,
    }
}

/// The views of some character slices.
pub open spec fn slice_views(v: Seq<&[char]>) -> Seq<Seq<char>> {
    Seq::new(v.len(), |i: int| v[i]@)
}

/// The views of some strings.
pub open spec fn str_views(v: Seq<&str>) -> Seq<Seq<char>> {
    Seq::new(v.len(), |i: int| v[i]@)
}

// ---------------------------------------------------------------------------
// Facts about the models
// ---------------------------------------------------------------------------

/// `find` is the first position that holds a character of `set`.
pub proof fn lemma_find(s: Seq<char>, set: CharSet)
    ensures
        find(s, set) <= s.len(),
        forall|j: int| 0 <= j < find(s, set) ==> !set.has(#[trigger] s[j]),
        find(s, set) < s.len() ==> set.has(s[find(s, set) as int]),
    decreases s.len(),
{
    if s.len() > 0 && !set.has(s[0]) {
        let rest = s.skip(1);
        lemma_find(rest, set);
        assert forall|j: int| 0 <= j < find(s, set) implies !set.has(#[trigger] s[j]) by {
            if j > 0 {
                assert(s[j] == rest[j - 1]);
            }
        }
    }
}

/// A position with no character of `set` before it, and one at it unless the
/// text ends there, is what `find` gives.
pub proof fn lemma_find_is(s: Seq<char>, set: CharSet, i: nat)
    requires
        i <= s.len(),
        forall|j: int| 0 <= j < i ==> !set.has(#[trigger] s[j]),
        i < s.len() ==> set.has(s[i as int]),
    ensures
        find(s, set) == i,
{
    lemma_find(s, set);
    if find(s, set) < i {
        assert(!set.has(s[find(s, set) as int]));
    } else if i < find(s, set) {
        assert(!set.has(s[i as int]));
    }
}

/// Where the first `i` characters belong to `set` and the next does not,
/// `skip_while` removes those `i`.
pub proof fn lemma_skip_while_is(s: Seq<char>, set: CharSet, i: int)
    requires
        0 <= i <= s.len(),
        forall|j: int| 0 <= j < i ==> set.has(#[trigger] s[j]),
        i < s.len() ==> !set.has(s[i]),
    ensures
        skip_while(s, set) == s.skip(i),
    decreases s.len(),
{
    if i == 0 {
        assert(s.skip(0) =~= s);
    } else {
        let rest = s.skip(1);
        assert(set.has(s[0]));
        assert forall|j: int| 0 <= j < i - 1 implies set.has(#[trigger] rest[j]) by {
            assert(rest[j] == s[j + 1]);
        }
        lemma_skip_while_is(rest, set, i - 1);
        assert(rest.skip(i - 1) =~= s.skip(i));
    }
}

/// Where the characters from `i` on belong to `set` and the one before does
/// not, `drop_while` keeps the first `i`.
pub proof fn lemma_drop_while_is(s: Seq<char>, set: CharSet, i: int)
    requires
        0 <= i <= s.len(),
        forall|j: int| i <= j < s.len() ==> set.has(#[trigger] s[j]),
        i > 0 ==> !set.has(s[i - 1]),
    ensures
        drop_while(s, set) == s.take(i),
    decreases s.len(),
{
    if i == s.len() {
        assert(s.take(i) =~= s);
    } else {
        let rest = s.drop_last();
        assert(set.has(s[s.len() - 1]));
        assert forall|j: int| i <= j < rest.len() implies set.has(#[trigger] rest[j]) by {
            assert(rest[j] == s[j]);
        }
        lemma_drop_while_is(rest, set, i);
        assert(rest.take(i) =~= s.take(i));
    }
}

// ---------------------------------------------------------------------------
// Conversions
// ---------------------------------------------------------------------------

/// The characters of a string.
pub(crate) fn to_chars(s: &str) -> (r: Vec<char>)
    ensures
        r@ == s@,
{
    let mut out: Vec<char> = Vec::new();
    for c in it: s.chars()
        invariant
            out@ == s@.take(it.index()),
            it.seq() == s@,
    {
        assert(s@.take(it.index() + 1) =~= s@.take(it.index()).push(c));
        out.push(c);
    }
    assert(s@.take(s@.len() as int) =~= s@);
    out
}

/// Appends characters to a string.
pub(crate) fn append_chars(out: &mut String, s: &[char])
    ensures
        final(out)@ == old(out)@ + s@,
{
    let ghost before = out@;
    for i in 0..s.len()
        invariant
            out@ == before + s@.take(i as int),
    {
        assert(before + s@.take(i + 1) =~= (before + s@.take(i as int)).push(s@[i as int]));
        out.push(s[i]);
    }
    assert(s@.take(s@.len() as int) =~= s@);
    assert(s@.len() == 0 ==> before + s@ =~= before);
}

/// A string of the given characters.
pub(crate) fn from_chars(s: &[char]) -> (r: String)
    ensures
        r@ == s@,
{
    let mut out = String::new();
    append_chars(&mut out, s);
    assert(Seq::<char>::empty() + s@ =~= s@);
    out
}

/// Appends `n` in decimal.
pub(crate) fn append_decimal(out: &mut String, n: usize)
    ensures
        final(out)@ == old(out)@ + decimal(n as nat),
    decreases n,
{
    let ghost before = out@;
    if n >= 10 {
        append_decimal(out, n / 10);
    }
    let d: u8 = (n % 10) as u8;
    out.push(('0' as u8 + d) as char);
    assert(out@ =~= before + decimal(n as nat));
}

/// The length of a string in UTF-8, in bytes.
pub(crate) fn utf8_len(s: &str) -> (r: usize)
    ensures
        r == byte_len(s@),
{
    s.as_bytes().len()
}

// ---------------------------------------------------------------------------
// Trimming and searching
// ---------------------------------------------------------------------------

/// `s` without the characters of `set` at its start.
pub(crate) fn skip_while_chars(s: &[char], set: CharSet) -> (r: &[char])
    ensures
        r@ == skip_while(s@, set),
{
    let mut i: usize = 0;
    while i < s.len() && set.contains(s[i])
        invariant
            i <= s@.len(),
            forall|j: int| 0 <= j < i ==> set.has(#[trigger] s@[j]),
        decreases s@.len() - i,
    {
        i += 1;
    }
    proof {
        lemma_skip_while_is(s@, set, i as int);
        assert(s@.skip(i as int) =~= s@.subrange(i as int, s@.len() as int));
    }
    slice_subrange(s, i, s.len())
}

/// `s` without the characters of `set` at its end.
pub(crate) fn drop_while_chars(s: &[char], set: CharSet) -> (r: &[char])
    ensures
        r@ == drop_while(s@, set),
{
    let mut i: usize = s.len();
    while i > 0 && set.contains(s[i - 1])
        invariant
            i <= s@.len(),
            forall|j: int| i <= j < s@.len() ==> set.has(#[trigger] s@[j]),
        decreases i,
    {
        i -= 1;
    }
    proof {
        lemma_drop_while_is(s@, set, i as int);
        assert(s@.take(i as int) =~= s@.subrange(0, i as int));
    }
    slice_subrange(s, 0, i)
}

/// `s` without white space at its start.
pub(crate) fn trim_start_chars(s: &[char]) -> (r: &[char])
    ensures
        r@ == trim_start(s@),
{
    skip_while_chars(s, CharSet::WhiteSpace)
}

/// `s` without white space at its start and its end.
pub(crate) fn trim_chars(s: &[char]) -> (r: &[char])
    ensures
        r@ == trim(s@),
{
    drop_while_chars(trim_start_chars(s), CharSet::WhiteSpace)
}

/// `s` with each ASCII capital letter mapped to its small letter.
pub(crate) fn lowercase_chars(s: &[char]) -> (r: Vec<char>)
    ensures
        r@ == lowercase(s@),
{
    let mut out: Vec<char> = Vec::new();
    for i in 0..s.len()
        invariant
            out@ == lowercase(s@).take(i as int),
    {
        let c = ascii_lower_char(s[i]);
        assert(lowercase(s@).take(i + 1) =~= lowercase(s@).take(i as int).push(c));
        out.push(c);
    }
    assert(lowercase(s@).take(s@.len() as int) =~= lowercase(s@));
    out
}

/// The position of the first character of `set`, or the length of `s`.
pub(crate) fn find_char(s: &[char], set: CharSet) -> (r: usize)
    ensures
        r == find(s@, set),
        r <= s@.len(),
{
    let mut i: usize = 0;
    while i < s.len() && !set.contains(s[i])
        invariant
            i <= s@.len(),
            forall|j: int| 0 <= j < i ==> !set.has(#[trigger] s@[j]),
        decreases s@.len() - i,
    {
        i += 1;
    }
    proof {
        lemma_find_is(s@, set, i as nat);
    }
    i
}

/// Whether `needle` stands in `s` at position `i`.
fn occurs_at_chars(s: &[char], needle: &[char], i: usize) -> (r: bool)
    requires
        i <= s@.len(),
    ensures
        r == occurs_at(s@, needle@, i as int),
{
    if needle.len() > s.len() - i {
        return false;
    }
    let mut j: usize = 0;
    while j < needle.len()
        invariant
            j <= needle@.len(),
            i + needle@.len() <= s.len(),
            forall|k: int| 0 <= k < j ==> s@[i + k] == #[trigger] needle@[k],
        decreases needle@.len() - j,
    {
        if s[i + j] != needle[j] {
            assert(s@.subrange(i as int, i + needle@.len())[j as int] != needle@[j as int]);
            return false;
        }
        j += 1;
    }
    assert(s@.subrange(i as int, i + needle@.len()) =~= needle@);
    true
}

/// Whether the two texts are the same.
pub(crate) fn same_chars(s: &[char], t: &[char]) -> (r: bool)
    ensures
        r == (s@ == t@),
{
    if s.len() != t.len() {
        return false;
    }
    let r = occurs_at_chars(s, t, 0);
    assert(s@.subrange(0, s@.len() as int) =~= s@);
    r
}

/// Whether `s` is the text of `t`.
pub(crate) fn is_text(s: &[char], t: &str) -> (r: bool)
    ensures
        r == (s@ == t@),
{
    let t = to_chars(t);
    same_chars(s, t.as_slice())
}

/// Whether `s` begins with `prefix`.
pub(crate) fn starts_with_text(s: &[char], prefix: &str) -> (r: bool)
    ensures
        r == starts_with(s@, prefix@),
{
    let prefix = to_chars(prefix);
    let r = occurs_at_chars(s, prefix.as_slice(), 0);
    assert(prefix@.len() <= s@.len() ==> s@.subrange(0, prefix@.len() as int) =~= s@.take(
        prefix@.len() as int,
    ));
    r
}

/// Whether `needle` is a substring of `s`.
pub(crate) fn contains_chars(s: &[char], needle: &[char]) -> (r: bool)
    ensures
        r == contains(s@, needle@),
{
    let mut i: usize = 0;
    while i < s.len()
        invariant
            i <= s@.len(),
            forall|j: int| 0 <= j < i ==> !#[trigger] occurs_at(s@, needle@, j),
        decreases s@.len() - i,
    {
        if occurs_at_chars(s, needle, i) {
            return true;
        }
        i += 1;
    }
    occurs_at_chars(s, needle, i)
}

/// Whether `needle` is a substring of `s`.
pub(crate) fn contains_text(s: &[char], needle: &str) -> (r: bool)
    ensures
        r == contains(s@, needle@),
{
    let needle = to_chars(needle);
    contains_chars(s, needle.as_slice())
}

/// Whether one of `needles` is a substring of `s`.
pub(crate) fn contains_any_text(s: &[char], needles: &[&str]) -> (r: bool)
    ensures
        r == contains_any(s@, str_views(needles@)),
{
    let ghost models = str_views(needles@);
    for i in 0..needles.len()
        invariant
            models == str_views(needles@),
            forall|k: int| 0 <= k < i ==> !contains(s@, #[trigger] models[k]),
    {
        assert(models[i as int] == needles@[i as int]@);
        if contains_text(s, needles[i]) {
            return true;
        }
    }
    false
}

/// `s` without the copies of `prefix` at its start.
pub(crate) fn skip_prefixes_text<'a>(s: &'a [char], prefix: &str) -> (r: &'a [char])
    ensures
        r@ == skip_prefixes(s@, prefix@),
{
    let p = to_chars(prefix);
    let mut rest = s;
    while p.len() > 0 && occurs_at_chars(rest, p.as_slice(), 0)
        invariant
            p@ == prefix@,
            skip_prefixes(rest@, prefix@) == skip_prefixes(s@, prefix@),
        decreases rest@.len(),
    {
        assert(rest@.subrange(0, p@.len() as int) =~= rest@.take(p@.len() as int));
        assert(rest@.subrange(p@.len() as int, rest@.len() as int) =~= rest@.skip(p@.len() as int));
        rest = slice_subrange(rest, p.len(), rest.len());
    }
    assert(p@.len() <= rest@.len() ==> rest@.subrange(0, p@.len() as int) =~= rest@.take(
        p@.len() as int,
    ));
    rest
}

/// `s` without one carriage return at its end.
pub(crate) fn strip_carriage_return_chars(s: &[char]) -> (r: &[char])
    ensures
        r@ == strip_carriage_return(s@),
{
    if s.len() > 0 && s[s.len() - 1] == '\r' {
        assert(s@.subrange(0, s@.len() - 1) =~= s@.drop_last());
        slice_subrange(s, 0, s.len() - 1)
    } else {
        s
    }
}

/// The lines of `s`.
pub(crate) fn lines_chars(s: &[char]) -> (r: Vec<&[char]>)
    ensures
        slice_views(r@) == lines(s@),
{
    let mut out: Vec<&[char]> = Vec::new();
    let mut rest = s;
    assert(slice_views(out@) + lines(s@) =~= lines(s@));
    while rest.len() > 0
        invariant
            slice_views(out@) + lines(rest@) == lines(s@),
        decreases rest@.len(),
    {
        let ghost before = slice_views(out@);
        let ghost tail = rest@;
        let end = find_char(rest, CharSet::Only('\n'));
        if end >= rest.len() {
            out.push(rest);
            rest = slice_subrange(rest, rest.len(), rest.len());
            assert(slice_views(out@) =~= before.push(tail));
            assert(slice_views(out@) + lines(rest@) =~= before + lines(tail));
        } else {
            let line = strip_carriage_return_chars(slice_subrange(rest, 0, end));
            assert(tail.subrange(0, end as int) =~= tail.take(end as int));
            out.push(line);
            rest = slice_subrange(rest, end + 1, rest.len());
            assert(rest@ =~= tail.skip(end + 1));
            assert(slice_views(out@) =~= before.push(line@));
            assert(slice_views(out@) + lines(rest@) =~= before + lines(tail));
        }
    }
    assert(slice_views(out@) + lines(rest@) =~= slice_views(out@));
    out
}

/// The first `n` characters of `s`, or all of them where it has no more.
pub(crate) fn clip_chars(s: &[char], n: usize) -> (r: &[char])
    ensures
        r@ == clip(s@, n as nat),
{
    if s.len() > n {
        assert(s@.subrange(0, n as int) =~= s@.take(n as int));
        slice_subrange(s, 0, n)
    } else {
        s
    }
}

} // verus!
