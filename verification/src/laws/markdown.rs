//! Sections as parts of a text, and a marked text line by line.

use crate::laws::supersession;
use crate::laws::terms;
use crate::promote;
use crate::sections;
use crate::sections::SectionModel;
use crate::text;
use crate::text::CharSet;
use crate::text_facts;
use vstd::prelude::*;

verus! {

// ---------------------------------------------------------------------------
// Sections
// ---------------------------------------------------------------------------

/// A line is a heading of the second level exactly where it is two number
/// signs and a space, after any white space.
pub proof fn law_headings(line: Seq<char>)
    ensures
        sections::is_h2(line) <==> exists|indent: Seq<char>, rest: Seq<char>|
            text_facts::all_white(indent) && line == #[trigger] (indent + "## "@ + rest),
{
    reveal_strlit("## ");
    reveal_strlit("### ");
    if sections::is_h2(line) {
        let i = text_facts::lemma_skip_while(line, CharSet::WhiteSpace);
        let indent = line.take(i);
        let t = line.skip(i);
        let rest = t.skip(3);
        assert forall|k: int| 0 <= k < indent.len() implies text::is_white_space(
            #[trigger] indent[k],
        ) by {
            assert(CharSet::WhiteSpace.has(line[k]));
        }
        assert(t =~= t.take(3) + rest);
        assert(line =~= indent + "## "@ + rest);
    }
    if exists|indent: Seq<char>, rest: Seq<char>|
        text_facts::all_white(indent) && line == #[trigger] (indent + "## "@ + rest) {
        let (indent, rest) = choose|indent: Seq<char>, rest: Seq<char>|
            text_facts::all_white(indent) && line == #[trigger] (indent + "## "@ + rest);
        let i = indent.len() as int;
        assert forall|k: int| 0 <= k < i implies CharSet::WhiteSpace.has(#[trigger] line[k]) by {
            assert(line[k] == indent[k]);
        }
        assert(line[i] == '#');
        text::lemma_skip_while_is(line, CharSet::WhiteSpace, i);
        let t = line.skip(i);
        assert(t =~= "## "@ + rest);
        assert(t.take(3) =~= "## "@);
        if text::starts_with(t, "### "@) {
            assert(t.take(4)[2] == t[2]);
        }
    }
}

/// The text of some sections.
pub open spec fn section_texts(all: Seq<SectionModel>) -> Seq<char>
    decreases all.len(),
{
    if all.len() == 0 {
        seq![]
    } else {
        all[0].heading + "\n"@ + all[0].body + section_texts(all.skip(1))
    }
}

proof fn lemma_section_texts(ls: Seq<Seq<char>>)
    ensures
        sections::lines_before_h2(ls) <= ls.len(),
        text::join_lines(ls.skip(sections::lines_before_h2(ls) as int)) == section_texts(
            sections::sections(ls),
        ),
    decreases ls.len(),
{
    reveal_strlit("\n");
    sections::lemma_lines_before_h2(ls);
    if ls.len() == 0 {
        assert(ls.skip(0) =~= ls);
        assert(text::join_lines(ls) =~= section_texts(sections::sections(ls)));
    } else if sections::is_h2(ls[0]) {
        let tail = ls.skip(1);
        sections::lemma_lines_before_h2(tail);
        let n = sections::lines_before_h2(tail) as int;
        let body = tail.take(n);
        let rest = tail.skip(n);
        lemma_section_texts(rest);
        assert(sections::lines_before_h2(rest) == 0) by {
            if rest.len() > 0 {
                assert(rest[0] == tail[n]);
            }
        }
        assert(rest.skip(0) =~= rest);
        assert(ls.skip(0) =~= seq![ls[0]] + body + rest);
        text_facts::lemma_join_add(seq![ls[0]] + body, rest);
        text_facts::lemma_join_add(seq![ls[0]], body);
        let init = seq![ls[0]].drop_last();
        assert(text::join_lines(init) =~= seq![]);
        assert(text::join_lines(seq![ls[0]]) =~= ls[0].push('\n'));
        let all = sections::sections(ls);
        assert(all.skip(1) =~= sections::sections(rest));
        assert(text::join_lines(ls.skip(0)) =~= section_texts(all));
    } else {
        lemma_section_texts(ls.skip(1));
        let m = sections::lines_before_h2(ls.skip(1)) as int;
        assert(ls.skip(1).skip(m) =~= ls.skip(m + 1));
    }
}

/// The sections of a text are all of it from its first heading on: each begins
/// with a heading and holds no other, and their texts, one after the other, are
/// the lines of the text, each closed by a line feed.
pub proof fn law_sections_are_the_text(markdown: Seq<char>) -> (n: int)
    ensures
        0 <= n <= text::lines(markdown).len(),
        forall|k: int| 0 <= k < n ==> !sections::is_h2(#[trigger] text::lines(markdown)[k]),
        section_texts(sections::markdown_sections(markdown)) == text::join_lines(
            text::lines(markdown).skip(n),
        ),
        forall|k: int|
            0 <= k < sections::markdown_sections(markdown).len() ==> sections::is_h2(
                (#[trigger] sections::markdown_sections(markdown)[k]).heading,
            ),
        forall|k: int, j: int|
            0 <= k < sections::markdown_sections(markdown).len() && 0 <= j < text::lines(
                sections::markdown_sections(markdown)[k].body,
            ).len() ==> !sections::is_h2(
                #[trigger] text::lines(sections::markdown_sections(markdown)[k].body)[j],
            ),
{
    let ls = text::lines(markdown);
    let all = sections::markdown_sections(markdown);
    sections::lemma_lines_before_h2(ls);
    lemma_section_texts(ls);
    supersession::lemma_markdown_sections(markdown);
    assert forall|k: int| 0 <= k < all.len() implies sections::is_h2(
        (#[trigger] all[k]).heading,
    ) by {
        assert(supersession::is_plain(all[k]));
    }
    assert forall|k: int, j: int|
        0 <= k < all.len() && 0 <= j < text::lines(all[k].body).len() implies !sections::is_h2(
        #[trigger] text::lines(all[k].body)[j],
    ) by {
        assert(supersession::is_plain(all[k]));
    }
    sections::lines_before_h2(ls) as int
}

/// The text before the first heading is kept as it is, unless it is blank.
pub proof fn law_preamble(markdown: Seq<char>) -> (before: Seq<char>)
    ensures
        exists|rest: Seq<char>| markdown == #[trigger] (before + rest),
        forall|k: int|
            0 <= k < text::lines(before).len() ==> !sections::is_h2(
                #[trigger] text::lines(before)[k],
            ),
        sections::markdown_sections(markdown).len() > 0 ==> before.len() < markdown.len()
            && sections::is_h2(text::lines(markdown.skip(before.len() as int))[0]),
        sections::preamble(markdown) == (if text_facts::all_white(before) {
            seq![]
        } else {
            before
        }),
{
    supersession::lemma_first_h2(markdown);
    supersession::lemma_markdown_sections(markdown);
    let n = sections::first_h2(markdown) as int;
    let before = markdown.take(n);
    assert(markdown =~= before + markdown.skip(n));
    text_facts::lemma_blank(before);
    before
}

// ---------------------------------------------------------------------------
// Marking
// ---------------------------------------------------------------------------

/// Whether a line begins with the field name `status:`, after any white space.
pub open spec fn begins_with_status(line: Seq<char>) -> bool {
    exists|rest: Seq<char>| text::trim(line) == #[trigger] ("status:"@ + rest)
}

proof fn lemma_begins_with_status(line: Seq<char>)
    ensures
        promote::is_status_line(line) == begins_with_status(line),
{
    reveal_strlit("status:");
    let t = text::trim(line);
    if promote::is_status_line(line) {
        let rest = t.skip(7);
        assert(t =~= t.take(7) + rest);
        assert(t == "status:"@ + rest);
    }
    if begins_with_status(line) {
        let rest = choose|rest: Seq<char>| t == #[trigger] ("status:"@ + rest);
        assert(t.take(7) =~= "status:"@);
    }
}

/// The lines of a section with an empty one after it.
proof fn lemma_spaced_lines(s: SectionModel)
    ensures
        text::lines(supersession::spaced(s).body) == text_facts::stripped(
            text::lines(s.body),
        ).push(seq![]),
{
    let ls = text::lines(s.body);
    let below = ls.push(seq![]);
    text_facts::lemma_lines_are_lines(s.body);
    assert forall|k: int| 0 <= k < below.len() implies text_facts::is_line(#[trigger] below[k]) by {
        if k < ls.len() {
            assert(text_facts::is_line(text::lines(s.body)[k]));
        }
    }
    assert(below.drop_last() =~= ls);
    assert(text::join_lines(below) =~= text::join_lines(ls).push('\n'));
    text_facts::lemma_lines_join(below);
    assert(text_facts::stripped(below) =~= text_facts::stripped(ls).push(seq![]));
}

/// The lines of a section that was marked.
proof fn lemma_marked_body(s: SectionModel, id: Seq<char>)
    requires
        promote::is_target(s, id),
    ensures
        text::lines(promote::marked_section(s, id).body) == text_facts::stripped(
            promote::marked_lines(text::lines(s.body)),
        ),
{
    let ls = text::lines(s.body);
    let marked = promote::marked_lines(ls);
    text_facts::lemma_lines_are_lines(s.body);
    supersession::lemma_mark();
    assert forall|k: int| 0 <= k < marked.len() implies text_facts::is_line(
        #[trigger] marked[k],
    ) by {
        if k < ls.len() {
            assert(marked[k] == promote::marked_line(ls[k]));
            assert(text_facts::is_line(text::lines(s.body)[k]));
        }
    }
    text_facts::lemma_lines_join(marked);
}

/// A marked text, line by line. It has the same sections. One without the id
/// field keeps every line. In one with it, each line that begins with
/// `status:` says that the section is superseded, every other line stays, and
/// such a line is added at the end where there was none. An empty line closes
/// each section.
pub proof fn law_marking_line_by_line(markdown: Seq<char>, id: Seq<char>, k: int)
    requires
        promote::superseded_markdown(markdown, id) is Some,
        0 <= k < sections::markdown_sections(markdown).len(),
    ensures
        ({
            let all = sections::markdown_sections(markdown);
            let after = sections::markdown_sections(
                promote::superseded_markdown(markdown, id)->0,
            );
            let old_lines = text::lines(all[k].body);
            let new_lines = text::lines(after[k].body);
            let n = old_lines.len() as int;
            let marked = terms::has_id_field(all[k].full(), id);
            let none = forall|i: int| 0 <= i < n ==> !begins_with_status(#[trigger] old_lines[i]);
            &&& after.len() == all.len()
            &&& text::trim(after[k].heading) == text::trim(all[k].heading)
            &&& new_lines.len() == n + (if marked && none {
                2int
            } else {
                1int
            })
            &&& new_lines.last().len() == 0
            &&& forall|i: int|
                0 <= i < n ==> if marked && begins_with_status(old_lines[i]) {
                    #[trigger] new_lines[i] == "status: superseded"@
                } else {
                    text::trim(new_lines[i]) == text::trim(old_lines[i]) && (
                    text_facts::is_bare_line(old_lines[i]) ==> new_lines[i] == old_lines[i])
                }
            &&& marked && none ==> new_lines[n] == "status: superseded"@
        }),
{
    let all = sections::markdown_sections(markdown);
    let s = all[k];
    let target = promote::marked_section(s, id);
    let ls = text::lines(s.body);
    let n = ls.len() as int;
    supersession::law_marking_is_in_place(markdown, id);
    terms::law_declared_id(s.full(), id);
    supersession::lemma_mark();
    lemma_spaced_lines(target);
    text_facts::lemma_trim_stripped(s.heading);
    assert forall|i: int| 0 <= i < n implies promote::is_status_line(ls[i])
        == #[trigger] begins_with_status(ls[i]) by {
        lemma_begins_with_status(ls[i]);
    }
    let new_lines = text::lines(supersession::spaced(target).body);
    if promote::is_target(s, id) {
        lemma_marked_body(s, id);
        let marked = promote::marked_lines(ls);
        if promote::has_status_line(ls) {
            let q = choose|q: int| 0 <= q < ls.len() && promote::is_status_line(#[trigger] ls[q]);
            assert(begins_with_status(ls[q]));
        }
        assert forall|i: int| 0 <= i < marked.len() implies #[trigger] new_lines[i]
            == text::strip_carriage_return(text::strip_carriage_return(marked[i])) by {}
        assert forall|i: int| 0 <= i < n implies if begins_with_status(ls[i]) {
            #[trigger] new_lines[i] == "status: superseded"@
        } else {
            text::trim(new_lines[i]) == text::trim(ls[i]) && (text_facts::is_bare_line(ls[i])
                ==> new_lines[i] == ls[i])
        } by {
            assert(marked[i] == promote::marked_line(ls[i]));
            text_facts::lemma_trim_stripped(marked[i]);
            text_facts::lemma_trim_stripped(text::strip_carriage_return(marked[i]));
        }
        assert(!promote::has_status_line(ls) ==> new_lines[n] == "status: superseded"@) by {
            if !promote::has_status_line(ls) {
                assert(marked[n] == "status: superseded"@);
            }
        }
        if forall|i: int| 0 <= i < n ==> !begins_with_status(#[trigger] ls[i]) {
            assert(!promote::has_status_line(ls));
        }
    } else {
        assert forall|i: int| 0 <= i < n implies text::trim(#[trigger] new_lines[i]) == text::trim(
            ls[i],
        ) && (text_facts::is_bare_line(ls[i]) ==> new_lines[i] == ls[i]) by {
            text_facts::lemma_trim_stripped(ls[i]);
        }
    }
}

// ---------------------------------------------------------------------------
// When something is marked
// ---------------------------------------------------------------------------

/// Whether every line of `some` is one of `all`, up to a carriage return at
/// its end.
pub open spec fn are_lines_of(some: Seq<Seq<char>>, all: Seq<Seq<char>>) -> bool {
    forall|k: int|
        0 <= k < some.len() ==> exists|j: int|
            0 <= j < all.len() && text::trim(#[trigger] some[k]) == text::trim(#[trigger] all[j])
}

/// The lines of a section are lines of the text.
proof fn lemma_section_lines_are_lines(ls: Seq<Seq<char>>, k: int)
    requires
        0 <= k < sections::sections(ls).len(),
        forall|j: int| 0 <= j < ls.len() ==> text_facts::is_line(#[trigger] ls[j]),
    ensures
        are_lines_of(text::lines(sections::sections(ls)[k].full()), ls),
    decreases ls.len(),
{
    let tail = ls.skip(1);
    let s = sections::sections(ls)[k];
    assert forall|j: int| 0 <= j < tail.len() implies text_facts::is_line(#[trigger] tail[j]) by {
        assert(tail[j] == ls[j + 1]);
    }
    if sections::is_h2(ls[0]) {
        sections::lemma_lines_before_h2(tail);
        let n = sections::lines_before_h2(tail) as int;
        let body = tail.take(n);
        let rest = tail.skip(n);
        if k == 0 {
            assert forall|j: int| 0 <= j < body.len() implies text_facts::is_line(
                #[trigger] body[j],
            ) by {
                assert(body[j] == tail[j]);
            }
            assert(text_facts::is_line(ls[0]));
            text_facts::lemma_lines_join(body);
            text_facts::lemma_lines_first(s.heading, s.body);
            let out = text::lines(s.full());
            assert forall|i: int| 0 <= i < out.len() implies exists|j: int|
                0 <= j < ls.len() && text::trim(#[trigger] out[i]) == text::trim(
                    #[trigger] ls[j],
                ) by {
                if i == 0 {
                    text_facts::lemma_trim_stripped(ls[0]);
                    assert(text::trim(out[0]) == text::trim(ls[0]));
                } else {
                    assert(out[i] == text::strip_carriage_return(body[i - 1]));
                    text_facts::lemma_trim_stripped(body[i - 1]);
                    assert(body[i - 1] == ls[i]);
                    assert(text::trim(out[i]) == text::trim(ls[i]));
                }
            }
        } else {
            assert forall|j: int| 0 <= j < rest.len() implies text_facts::is_line(
                #[trigger] rest[j],
            ) by {
                assert(rest[j] == tail[n + j]);
            }
            lemma_section_lines_are_lines(rest, k - 1);
            let out = text::lines(s.full());
            assert(s == sections::sections(rest)[k - 1]);
            assert forall|i: int| 0 <= i < out.len() implies exists|j: int|
                0 <= j < ls.len() && text::trim(#[trigger] out[i]) == text::trim(
                    #[trigger] ls[j],
                ) by {
                let j = choose|j: int|
                    0 <= j < rest.len() && text::trim(out[i]) == text::trim(#[trigger] rest[j]);
                assert(rest[j] == ls[n + 1 + j]);
                assert(text::trim(out[i]) == text::trim(ls[n + 1 + j]));
            }
        }
    } else {
        lemma_section_lines_are_lines(tail, k);
        let out = text::lines(s.full());
        assert(s == sections::sections(tail)[k]);
        assert forall|i: int| 0 <= i < out.len() implies exists|j: int|
            0 <= j < ls.len() && text::trim(#[trigger] out[i]) == text::trim(
                #[trigger] ls[j],
            ) by {
            let j = choose|j: int|
                0 <= j < tail.len() && text::trim(out[i]) == text::trim(#[trigger] tail[j]);
            assert(tail[j] == ls[j + 1]);
            assert(text::trim(out[i]) == text::trim(ls[j + 1]));
        }
    }
}

/// A line of a text stands in it.
proof fn lemma_line_occurs(s: Seq<char>, k: int) -> (r: (Seq<char>, Seq<char>))
    requires
        0 <= k < text::lines(s).len(),
    ensures
        s == r.0 + text::lines(s)[k] + r.1,
    decreases s.len(),
{
    let (line, rest) = text_facts::lemma_lines_split(s);
    let empty = Seq::<char>::empty();
    if s == line.push('\n') + rest {
        if k == 0 {
            let shown = text::strip_carriage_return(line);
            let after = s.skip(shown.len() as int);
            assert(s =~= empty + shown + after);
            (empty, after)
        } else {
            let (a, b) = lemma_line_occurs(rest, k - 1);
            assert(s =~= (line.push('\n') + a) + text::lines(s)[k] + b);
            (line.push('\n') + a, b)
        }
    } else {
        assert(s =~= empty + s + empty);
        (empty, empty)
    }
}

/// Something is marked exactly where the id is not empty and a section of the
/// text has the id field with it.
pub proof fn law_when_something_is_marked(markdown: Seq<char>, id: Seq<char>)
    ensures
        ({
            let all = sections::markdown_sections(markdown);
            promote::superseded_markdown(markdown, id) is Some <==> id.len() > 0 && exists|k: int|
                0 <= k < all.len() && terms::has_id_field(#[trigger] all[k].full(), id)
        }),
{
    let ls = text::lines(markdown);
    let all = sections::markdown_sections(markdown);
    assert forall|k: int| 0 <= k < all.len() implies promote::is_target(all[k], id)
        == terms::has_id_field(#[trigger] all[k].full(), id) by {
        terms::law_declared_id(all[k].full(), id);
    }
    if promote::superseded_markdown(markdown, id) is Some {
        let k = choose|k: int| 0 <= k < all.len() && promote::is_target(#[trigger] all[k], id);
        assert(terms::has_id_field(all[k].full(), id));
    }
    if id.len() > 0 && exists|k: int|
        0 <= k < all.len() && terms::has_id_field(#[trigger] all[k].full(), id) {
        let k = choose|k: int|
            0 <= k < all.len() && terms::has_id_field(#[trigger] all[k].full(), id);
        assert(promote::is_target(all[k], id));
        let own = text::lines(all[k].full());
        let i = choose|i: int| 0 <= i < own.len() && terms::is_id_field(#[trigger] own[i], id);
        text_facts::lemma_lines_are_lines(markdown);
        lemma_section_lines_are_lines(ls, k);
        assert(text::trim(own[i]) == text::trim(own[i]));
        let j = choose|j: int|
            0 <= j < ls.len() && text::trim(own[i]) == text::trim(#[trigger] ls[j]);
        let value = choose|value: Seq<char>|
            text::trim(own[i]) == #[trigger] ("id:"@ + value) && text::trim(value) == id;
        let (a, b) = lemma_line_occurs(markdown, j);
        let (c, d) = text_facts::lemma_trim(ls[j]);
        let (e, f) = text_facts::lemma_trim(value);
        let before = a + c + "id:"@ + e;
        let after = f + d + b;
        assert(markdown =~= before + id + after);
        let p = before.len() as int;
        assert(markdown.subrange(p, p + id.len()) =~= id);
        assert(text::occurs_at(markdown, id, p));
        assert(promote::has_target(all, id));
    }
}

/// The text of sections begins with the heading of the first one.
proof fn lemma_begins_with_heading(all: Seq<SectionModel>) -> (rest: Seq<char>)
    requires
        all.len() > 0,
    ensures
        promote::sections_text(all) == all[0].heading + rest,
    decreases all.len(),
{
    let before = all.drop_last();
    let last = all.last().full().push('\n');
    if before.len() == 0 {
        assert(promote::sections_text(before) =~= seq![]);
        let heading = all[0].heading;
        let rest = last.skip(heading.len() as int);
        assert(promote::sections_text(all) =~= last);
        assert(last =~= heading + rest);
        rest
    } else {
        let rest = lemma_begins_with_heading(before);
        assert(promote::sections_text(all) =~= all[0].heading + (rest + last));
        rest + last
    }
}

/// A marked text is the preamble, and after it at once the first heading.
pub proof fn law_marked_text_begins(markdown: Seq<char>, id: Seq<char>) -> (rest: Seq<char>)
    requires
        promote::superseded_markdown(markdown, id) is Some,
    ensures
        sections::markdown_sections(markdown).len() > 0,
        promote::superseded_markdown(markdown, id)->0 == sections::preamble(markdown)
            + sections::markdown_sections(markdown)[0].heading + rest,
{
    let all = sections::markdown_sections(markdown);
    let k = choose|k: int| 0 <= k < all.len() && promote::is_target(#[trigger] all[k], id);
    assert(all.len() > 0);
    let rest = lemma_begins_with_heading(promote::marked_sections(all, id));
    assert(promote::superseded_markdown(markdown, id)->0 =~= sections::preamble(markdown)
        + all[0].heading + rest);
    rest
}

} // verus!
