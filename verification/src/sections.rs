//! Markdown split at its `##` headings.

use crate::text;
use crate::text::{
    find_char, lines_chars, skip_while_chars, starts_with_text, trim_chars, trim_start_chars,
    CharSet,
};
use vstd::prelude::*;
use vstd::slice::slice_subrange;

verus! {

/// The mathematical content of a section: its heading line, and the lines
/// below it, each closed by a line feed.
#[verifier::ext_equal]
pub struct SectionModel {
    pub heading: Seq<char>,
    pub body: Seq<char>,
}

impl SectionModel {
    /// The heading without its number signs and the white space around it.
    pub open spec fn title(self) -> Seq<char> {
        text::trim(text::skip_while(self.heading, CharSet::Only('#')))
    }

    /// The section as text.
    pub open spec fn full(self) -> Seq<char> {
        self.heading.push('\n') + self.body
    }
}

/// Whether a line is a heading of the second level.
pub open spec fn is_h2(line: Seq<char>) -> bool {
    let t = text::trim_start(line);
    text::starts_with(t, "## "@) && !text::starts_with(t, "### "@)
}

/// How many lines stand before the first heading of `ls`.
pub open spec fn lines_before_h2(ls: Seq<Seq<char>>) -> nat
    decreases ls.len(),
{
    if ls.len() == 0 || is_h2(ls[0]) {
        0
    } else {
        1 + lines_before_h2(ls.skip(1))
    }
}

/// The sections of some lines: each heading with the lines up to the next
/// one. Lines before the first heading belong to no section.
pub open spec fn sections(ls: Seq<Seq<char>>) -> Seq<SectionModel>
    decreases ls.len(),
{
    if ls.len() == 0 {
        seq![]
    } else if is_h2(ls[0]) {
        let rest = ls.skip(1);
        let n = lines_before_h2(rest) as int;
        proof {
            lemma_lines_before_h2(rest);
        }
        seq![
            SectionModel { heading: ls[0], body: text::join_lines(rest.take(n)) },
        ] + sections(rest.skip(n))
    } else {
        sections(ls.skip(1))
    }
}

/// The sections of a markdown text.
pub open spec fn markdown_sections(markdown: Seq<char>) -> Seq<SectionModel> {
    sections(text::lines(markdown))
}

/// Where the first heading line of a markdown text begins, or the length of
/// the text.
pub open spec fn first_h2(markdown: Seq<char>) -> nat
    decreases markdown.len(),
{
    if markdown.len() == 0 || is_h2(text::lines(markdown)[0]) {
        0
    } else {
        let end = text::find(markdown, CharSet::Only('\n'));
        if end >= markdown.len() {
            markdown.len()
        } else {
            end + 1 + first_h2(markdown.skip((end + 1) as int))
        }
    }
}

/// The text before the first heading; empty where that is blank.
pub open spec fn preamble(markdown: Seq<char>) -> Seq<char> {
    let before = markdown.take(first_h2(markdown) as int);
    if text::is_blank(before) {
        seq![]
    } else {
        before
    }
}

/// A section of a markdown text.
pub struct Section<'a> {
    pub heading: &'a [char],
    pub body: Vec<char>,
}

impl<'a> View for Section<'a> {
    type V = SectionModel;

    open spec fn view(&self) -> SectionModel {
        SectionModel { heading: self.heading@, body: self.body@ }
    }
}

/// The models of some sections.
pub open spec fn section_views<'a>(v: Seq<Section<'a>>) -> Seq<SectionModel> {
    Seq::new(v.len(), |i: int| v[i]@)
}

/// Whether a line is a heading of the second level.
pub(crate) fn is_h2_line(line: &[char]) -> (r: bool)
    ensures
        r == is_h2(line@),
{
    let t = trim_start_chars(line);
    starts_with_text(t, "## ") && !starts_with_text(t, "### ")
}

/// The heading without its number signs and the white space around it.
pub(crate) fn section_title<'a>(heading: &'a [char]) -> (r: &'a [char])
    ensures
        r@ == text::trim(text::skip_while(heading@, CharSet::Only('#'))),
{
    trim_chars(skip_while_chars(heading, CharSet::Only('#')))
}

/// The lines before the first heading are no headings, and the line after
/// them is one.
pub proof fn lemma_lines_before_h2(ls: Seq<Seq<char>>)
    ensures
        lines_before_h2(ls) <= ls.len(),
        forall|j: int| 0 <= j < lines_before_h2(ls) ==> !is_h2(#[trigger] ls[j]),
        lines_before_h2(ls) < ls.len() ==> is_h2(ls[lines_before_h2(ls) as int]),
    decreases ls.len(),
{
    if ls.len() > 0 && !is_h2(ls[0]) {
        let rest = ls.skip(1);
        lemma_lines_before_h2(rest);
        assert forall|j: int| 0 <= j < lines_before_h2(ls) implies !is_h2(#[trigger] ls[j]) by {
            if j > 0 {
                assert(ls[j] == rest[j - 1]);
            }
        }
    }
}

/// A count with no heading before it, and one at it unless the lines end
/// there, is the number of lines before the first heading.
pub proof fn lemma_lines_before_h2_is(ls: Seq<Seq<char>>, n: nat)
    requires
        n <= ls.len(),
        forall|j: int| 0 <= j < n ==> !is_h2(#[trigger] ls[j]),
        n < ls.len() ==> is_h2(ls[n as int]),
    ensures
        lines_before_h2(ls) == n,
{
    lemma_lines_before_h2(ls);
    if lines_before_h2(ls) < n {
        assert(!is_h2(ls[lines_before_h2(ls) as int]));
    } else if n < lines_before_h2(ls) {
        assert(!is_h2(ls[n as int]));
    }
}

/// Splits a markdown text into its sections.
pub(crate) fn split_sections<'a>(markdown: &'a [char]) -> (r: Vec<Section<'a>>)
    ensures
        section_views(r@) == markdown_sections(markdown@),
{
    let ls = lines_chars(markdown);
    let ghost models = text::lines(markdown@);
    let mut out: Vec<Section<'a>> = Vec::new();
    let mut i: usize = 0;
    assert(models.skip(0) =~= models);
    assert(section_views(out@) + sections(models) =~= sections(models));
    while i < ls.len()
        invariant
            i <= ls@.len(),
            models == text::slice_views(ls@),
            section_views(out@) + sections(models.skip(i as int)) == sections(models),
        decreases ls@.len() - i,
    {
        let ghost here = models.skip(i as int);
        let ghost before = section_views(out@);
        let heading = ls[i];
        assert(here[0] == heading@);
        assert(here.skip(1) =~= models.skip(i + 1));
        i += 1;
        if is_h2_line(heading) {
            let start = i;
            let ghost rest = here.skip(1);
            let mut body: Vec<char> = Vec::new();
            assert(rest.take(0) =~= seq![]);
            while i < ls.len() && !is_h2_line(ls[i])
                invariant
                    start <= i <= ls@.len(),
                    models == text::slice_views(ls@),
                    rest == models.skip(start as int),
                    body@ == text::join_lines(rest.take(i - start)),
                    forall|j: int| 0 <= j < i - start ==> !is_h2(#[trigger] rest[j]),
                decreases ls@.len() - i,
            {
                let line = ls[i];
                assert(rest[i - start] == line@);
                assert(rest.take(i - start + 1).drop_last() =~= rest.take(i - start));
                append_line(&mut body, line);
                i += 1;
            }
            proof {
                if i < ls@.len() {
                    assert(rest[i - start] == ls@[i as int]@);
                }
                lemma_lines_before_h2_is(rest, (i - start) as nat);
                assert(rest.skip(i - start) =~= models.skip(i as int));
            }
            let section = Section { heading, body };
            out.push(section);
            assert(section_views(out@) =~= before.push(section@));
            assert(section_views(out@) + sections(models.skip(i as int)) =~= before + sections(
                here,
            ));
        }
    }
    assert(section_views(out@) + sections(models.skip(i as int)) =~= section_views(out@));
    out
}

/// Appends a line and a line feed.
pub(crate) fn append_line(out: &mut Vec<char>, line: &[char])
    ensures
        final(out)@ == old(out)@ + line@.push('\n'),
{
    let ghost before = out@;
    for i in 0..line.len()
        invariant
            out@ == before + line@.take(i as int),
    {
        assert(before + line@.take(i + 1) =~= (before + line@.take(i as int)).push(
            line@[i as int],
        ));
        out.push(line[i]);
    }
    assert(line@.take(line@.len() as int) =~= line@);
    out.push('\n');
    assert(out@ =~= before + line@.push('\n'));
}

/// The text before the first heading of a markdown text; empty where that is
/// blank.
pub(crate) fn preamble_before_h2(markdown: &[char]) -> (r: &[char])
    ensures
        r@ == preamble(markdown@),
{
    let mut start: usize = 0;
    assert(markdown@.skip(0) =~= markdown@);
    loop
        invariant
            start <= markdown@.len(),
            first_h2(markdown@) == start + first_h2(markdown@.skip(start as int)),
        ensures
            start == first_h2(markdown@),
            start <= markdown@.len(),
        decreases markdown@.len() - start,
    {
        let rest = slice_subrange(markdown, start, markdown.len());
        assert(rest@ =~= markdown@.skip(start as int));
        if rest.len() == 0 {
            break;
        }
        let end = find_char(rest, CharSet::Only('\n'));
        let first = first_line(rest);
        if is_h2_line(first) {
            break;
        }
        if end >= rest.len() {
            start = markdown.len();
            assert(markdown@.skip(start as int) =~= seq![]);
        } else {
            assert(rest@.skip(end + 1) =~= markdown@.skip(start + end + 1));
            start = start + end + 1;
        }
    }
    let before = slice_subrange(markdown, 0, start);
    assert(before@ =~= markdown@.take(start as int));
    if trim_chars(before).len() == 0 {
        slice_subrange(markdown, 0, 0)
    } else {
        before
    }
}

/// The first line of a text that is not empty.
pub(crate) fn first_line(s: &[char]) -> (r: &[char])
    requires
        s@.len() > 0,
    ensures
        text::lines(s@).len() > 0,
        r@ == text::lines(s@)[0],
{
    let end = find_char(s, CharSet::Only('\n'));
    if end >= s.len() {
        s
    } else {
        let line = slice_subrange(s, 0, end);
        assert(line@ =~= s@.take(end as int));
        text::strip_carriage_return_chars(line)
    }
}

} // verus!
