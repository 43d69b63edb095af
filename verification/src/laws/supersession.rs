//! What marking a section as superseded does to a text.

use crate::kind;
use crate::kind::{LineCue, MemoryKind};
use crate::laws::entries;
use crate::laws::pins;
use crate::promote;
use crate::promote::EntryModel;
use crate::sections;
use crate::sections::SectionModel;
use crate::text;
use crate::text::CharSet;
use crate::text_facts;
use vstd::prelude::*;

verus! {

// ---------------------------------------------------------------------------
// Sections and their text
// ---------------------------------------------------------------------------

/// Whether a section is a heading line and closed lines below it, none of
/// which is a heading.
pub open spec fn is_plain(s: SectionModel) -> bool {
    &&& text_facts::is_line(s.heading)
    &&& sections::is_h2(s.heading)
    &&& text_facts::is_closed(s.body)
    &&& forall|k: int|
        0 <= k < text::lines(s.body).len() ==> !sections::is_h2(#[trigger] text::lines(s.body)[k])
}

/// A section with an empty line at its end, and without the carriage returns
/// that its lines may end in.
pub open spec fn spaced(s: SectionModel) -> SectionModel {
    SectionModel {
        heading: text::strip_carriage_return(s.heading),
        body: text::join_lines(text::lines(s.body)).push('\n'),
    }
}

/// A carriage return at the end of a line does not make it a heading.
proof fn lemma_h2_stripped(line: Seq<char>)
    ensures
        sections::is_h2(text::strip_carriage_return(line)) == sections::is_h2(line),
{
    reveal_strlit("## ");
    reveal_strlit("### ");
    let l = text::strip_carriage_return(line);
    if line.len() > 0 && line.last() == '\r' {
        let i = text_facts::lemma_skip_while(line, CharSet::WhiteSpace);
        assert forall|k: int| 0 <= k < l.len() implies l[k] == #[trigger] line[k] by {}
        if i == line.len() {
            text::lemma_skip_while_is(l, CharSet::WhiteSpace, l.len() as int);
        } else {
            assert(i < l.len());
            text::lemma_skip_while_is(l, CharSet::WhiteSpace, i);
            let t = line.skip(i);
            let u = l.skip(i);
            assert(t =~= u.push('\r'));
            if t.len() > 3 {
                assert(t.take(3) =~= u.take(3));
            } else if t.len() == 3 {
                assert(t.take(3)[2] == '\r');
            }
            if t.len() > 4 {
                assert(t.take(4) =~= u.take(4));
            } else if t.len() == 4 {
                assert(t.take(4)[3] == '\r');
            }
        }
    }
}

/// Some sections, each with an empty line at its end.
pub open spec fn all_spaced(all: Seq<SectionModel>) -> Seq<SectionModel> {
    Seq::new(all.len(), |i: int| spaced(all[i]))
}

/// The sections of lines that stand before the first heading.
proof fn lemma_sections_of_no_heading(ls: Seq<Seq<char>>, rest: Seq<Seq<char>>)
    requires
        forall|k: int| 0 <= k < ls.len() ==> !sections::is_h2(#[trigger] ls[k]),
    ensures
        sections::sections(ls + rest) == sections::sections(rest),
    decreases ls.len(),
{
    if ls.len() == 0 {
        assert(ls + rest =~= rest);
    } else {
        assert(!sections::is_h2(ls[0]));
        let tail = ls.skip(1);
        assert forall|k: int| 0 <= k < tail.len() implies !sections::is_h2(#[trigger] tail[k]) by {
            assert(tail[k] == ls[k + 1]);
        }
        lemma_sections_of_no_heading(tail, rest);
        assert((ls + rest).skip(1) =~= tail + rest);
    }
}

/// The sections of a heading, some lines that are none, and what follows.
proof fn lemma_sections_first(heading: Seq<char>, body: Seq<Seq<char>>, rest: Seq<Seq<char>>)
    requires
        sections::is_h2(heading),
        forall|k: int| 0 <= k < body.len() ==> !sections::is_h2(#[trigger] body[k]),
        rest.len() > 0 ==> sections::is_h2(rest[0]),
    ensures
        sections::sections(seq![heading] + body + rest) == seq![
            SectionModel { heading, body: text::join_lines(body) },
        ] + sections::sections(rest),
{
    let ls = seq![heading] + body + rest;
    let tail = ls.skip(1);
    assert(tail =~= body + rest);
    let n = body.len();
    assert forall|k: int| 0 <= k < n implies !sections::is_h2(#[trigger] tail[k]) by {
        assert(tail[k] == body[k]);
    }
    if n < tail.len() {
        assert(tail[n as int] == rest[0]);
    }
    sections::lemma_lines_before_h2_is(tail, n);
    assert(tail.take(n as int) =~= body);
    assert(tail.skip(n as int) =~= rest);
}

/// The sections of lines, followed by lines that begin with a heading.
proof fn lemma_sections_add(a: Seq<Seq<char>>, b: Seq<Seq<char>>)
    requires
        b.len() > 0 ==> sections::is_h2(b[0]),
    ensures
        sections::sections(a + b) == sections::sections(a) + sections::sections(b),
    decreases a.len(),
{
    if a.len() == 0 {
        assert(a + b =~= b);
        assert(sections::sections(a) + sections::sections(b) =~= sections::sections(b));
    } else if sections::is_h2(a[0]) {
        let tail = a.skip(1);
        sections::lemma_lines_before_h2(tail);
        let n = sections::lines_before_h2(tail) as int;
        let body = tail.take(n);
        let rest = tail.skip(n);
        assert forall|k: int| 0 <= k < body.len() implies !sections::is_h2(#[trigger] body[k]) by {
            assert(body[k] == tail[k]);
        }
        lemma_sections_add(rest, b);
        if rest.len() > 0 {
            assert(rest[0] == tail[n]);
        }
        assert(a + b =~= seq![a[0]] + body + (rest + b));
        lemma_sections_first(a[0], body, rest + b);
        let first = seq![SectionModel { heading: a[0], body: text::join_lines(body) }];
        assert(sections::sections(a + b) =~= (first + sections::sections(rest))
            + sections::sections(b));
    } else {
        lemma_sections_add(a.skip(1), b);
        assert((a + b).skip(1) =~= a.skip(1) + b);
    }
}

/// The sections of lines are plain.
proof fn lemma_sections_plain(ls: Seq<Seq<char>>)
    requires
        forall|k: int| 0 <= k < ls.len() ==> text_facts::is_line(#[trigger] ls[k]),
    ensures
        forall|k: int|
            0 <= k < sections::sections(ls).len() ==> is_plain(
                #[trigger] sections::sections(ls)[k],
            ),
    decreases ls.len(),
{
    if ls.len() > 0 {
        let tail = ls.skip(1);
        assert forall|k: int| 0 <= k < tail.len() implies text_facts::is_line(
            #[trigger] tail[k],
        ) by {
            assert(tail[k] == ls[k + 1]);
        }
        if sections::is_h2(ls[0]) {
            sections::lemma_lines_before_h2(tail);
            let n = sections::lines_before_h2(tail) as int;
            let body = tail.take(n);
            let rest = tail.skip(n);
            assert forall|k: int| 0 <= k < rest.len() implies text_facts::is_line(
                #[trigger] rest[k],
            ) by {
                assert(rest[k] == tail[n + k]);
            }
            lemma_sections_plain(rest);
            assert forall|k: int| 0 <= k < body.len() implies text_facts::is_line(
                #[trigger] body[k],
            ) by {
                assert(body[k] == tail[k]);
            }
            text_facts::lemma_lines_join(body);
            text_facts::lemma_join_closed(body);
            assert(text_facts::is_line(ls[0]));
            let first = SectionModel { heading: ls[0], body: text::join_lines(body) };
            assert(is_plain(first)) by {
                assert forall|k: int|
                    0 <= k < text::lines(first.body).len() implies !sections::is_h2(
                    #[trigger] text::lines(first.body)[k],
                ) by {
                    assert(body[k] == tail[k]);
                    lemma_h2_stripped(body[k]);
                }
            }
            assert forall|k: int| 0 <= k < sections::sections(ls).len() implies is_plain(
                #[trigger] sections::sections(ls)[k],
            ) by {
                if k > 0 {
                    assert(sections::sections(ls)[k] == sections::sections(rest)[k - 1]);
                }
            }
        } else {
            lemma_sections_plain(tail);
            assert(sections::sections(ls) == sections::sections(tail));
        }
    } else {
        assert(sections::sections(ls).len() == 0);
    }
}

/// The lines of a plain section with an empty line after it.
proof fn lemma_section_lines(s: SectionModel)
    requires
        is_plain(s),
    ensures
        text::lines(s.full().push('\n')) == seq![text::strip_carriage_return(s.heading)]
            + text::lines(s.body).push(seq![]),
        sections::sections(text::lines(s.full().push('\n'))) == seq![spaced(s)],
{
    let body = text::lines(s.body);
    let heading = text::strip_carriage_return(s.heading);
    let line_feed = seq!['\n'];
    let empty = Seq::<char>::empty();
    assert(s.full().push('\n') =~= s.heading.push('\n') + (s.body + line_feed));
    text_facts::lemma_lines_first(s.heading, s.body + line_feed);
    text_facts::lemma_lines_add(s.body, line_feed);
    text_facts::lemma_lines_first(empty, empty);
    assert(empty.push('\n') + empty =~= line_feed);
    assert(text::lines(line_feed) =~= seq![empty]);
    let below = body.push(empty);
    assert(text::lines(s.body + line_feed) =~= below);
    assert(text::lines(s.full().push('\n')) =~= seq![heading] + below);
    assert(!sections::is_h2(empty)) by {
        reveal_strlit("## ");
        assert(text::trim_start(empty).len() == 0);
    }
    assert forall|k: int| 0 <= k < below.len() implies !sections::is_h2(#[trigger] below[k]) by {
        if k < body.len() {
            assert(below[k] == text::lines(s.body)[k]);
        }
    }
    let none = Seq::<Seq<char>>::empty();
    lemma_h2_stripped(s.heading);
    lemma_sections_first(heading, below, none);
    assert(seq![heading] + below + none =~= seq![heading] + below);
    assert(below.drop_last() =~= body);
    assert(text::join_lines(below) =~= text::join_lines(body).push('\n'));
    assert(sections::sections(text::lines(s.full().push('\n'))) =~= seq![spaced(s)]);
}

/// The text of plain sections, split again, gives those sections with an
/// empty line at the end of each.
proof fn lemma_sections_text(all: Seq<SectionModel>)
    requires
        forall|k: int| 0 <= k < all.len() ==> is_plain(#[trigger] all[k]),
    ensures
        text_facts::is_closed(promote::sections_text(all)),
        sections::markdown_sections(promote::sections_text(all)) == all_spaced(all),
        all.len() > 0 ==> promote::sections_text(all).len() > 0 && text::lines(
            promote::sections_text(all),
        ).len() > 0 && sections::is_h2(text::lines(promote::sections_text(all))[0]),
    decreases all.len(),
{
    if all.len() == 0 {
        assert(sections::markdown_sections(promote::sections_text(all)) =~= all_spaced(all));
    } else {
        let init = all.drop_last();
        let last = all.last();
        assert forall|k: int| 0 <= k < init.len() implies is_plain(#[trigger] init[k]) by {
            assert(init[k] == all[k]);
        }
        lemma_sections_text(init);
        assert(is_plain(all[all.len() - 1]));
        lemma_section_lines(last);
        let before = promote::sections_text(init);
        let after = last.full().push('\n');
        text_facts::lemma_lines_add(before, after);
        lemma_h2_stripped(last.heading);
        assert(text::lines(after)[0] == text::strip_carriage_return(last.heading));
        lemma_sections_add(text::lines(before), text::lines(after));
        assert(promote::sections_text(all) == before + after);
        assert(sections::markdown_sections(before + after) =~= all_spaced(init) + seq![
            spaced(last),
        ]);
        assert(all_spaced(init) + seq![spaced(last)] =~= all_spaced(all));
        assert((before + after).last() == '\n');
        if init.len() == 0 {
            assert(text::lines(before) =~= seq![]);
            assert(text::lines(before + after)[0] == text::strip_carriage_return(last.heading));
        } else {
            assert(text::lines(before + after)[0] == text::lines(before)[0]);
        }
    }
}

// ---------------------------------------------------------------------------
// The text before the first heading
// ---------------------------------------------------------------------------

/// A text is what stands before its first heading line, and the rest.
pub proof fn lemma_first_h2(markdown: Seq<char>)
    ensures
        sections::first_h2(markdown) <= markdown.len(),
        ({
            let before = markdown.take(sections::first_h2(markdown) as int);
            let rest = markdown.skip(sections::first_h2(markdown) as int);
            &&& text::lines(markdown) == text::lines(before) + text::lines(rest)
            &&& forall|k: int|
                0 <= k < text::lines(before).len() ==> !sections::is_h2(
                    #[trigger] text::lines(before)[k],
                )
            &&& rest.len() > 0 ==> text_facts::is_closed(before) && sections::is_h2(
                text::lines(rest)[0],
            )
        }),
    decreases markdown.len(),
{
    let n = sections::first_h2(markdown) as int;
    if markdown.len() == 0 || sections::is_h2(text::lines(markdown)[0]) {
        assert(markdown.take(0) =~= seq![]);
        assert(markdown.skip(0) =~= markdown);
        assert(text::lines(markdown.take(0)) =~= seq![]);
        assert(text::lines(markdown) =~= text::lines(markdown.take(0)) + text::lines(markdown));
    } else {
        text::lemma_find(markdown, CharSet::Only('\n'));
        let end = text::find(markdown, CharSet::Only('\n')) as int;
        if end >= markdown.len() {
            assert(markdown.take(n) =~= markdown);
            assert(markdown.skip(n) =~= seq![]);
            assert(text::lines(markdown) =~= seq![markdown]);
            assert(text::lines(markdown) =~= text::lines(markdown) + text::lines(
                markdown.skip(n),
            ));
        } else {
            let tail = markdown.skip(end + 1);
            lemma_first_h2(tail);
            let m = sections::first_h2(tail) as int;
            let first = markdown.take(end + 1);
            let before = markdown.take(n);
            let rest = markdown.skip(n);
            assert(n == end + 1 + m);
            assert(before =~= first + tail.take(m));
            assert(rest =~= tail.skip(m));
            assert(first.last() == markdown[end]);
            text_facts::lemma_lines_add(first, tail.take(m));
            text_facts::lemma_lines_add(first, tail);
            assert(first + tail =~= markdown);
            assert(text::lines(markdown) =~= text::lines(before) + text::lines(rest));
            let line = markdown.take(end);
            assert forall|k: int| 0 <= k < line.len() implies #[trigger] line[k] != '\n' by {
                assert(!CharSet::Only('\n').has(markdown[k]));
            }
            text_facts::lemma_lines_first(line, seq![]);
            assert(line.push('\n') + Seq::<char>::empty() =~= first);
            assert(text::lines(first) =~= seq![text::strip_carriage_return(line)]);
            assert(text::lines(markdown)[0] == text::lines(first)[0]);
            assert forall|k: int| 0 <= k < text::lines(before).len() implies !sections::is_h2(
                #[trigger] text::lines(before)[k],
            ) by {
                if k > 0 {
                    assert(text::lines(before)[k] == text::lines(tail.take(m))[k - 1]);
                }
            }
            if rest.len() > 0 {
                if m > 0 {
                    assert(before.last() == tail.take(m).last());
                } else {
                    assert(before =~= first);
                }
            }
        }
    }
}

/// Closed text without a heading, followed by a heading line: that is where
/// the first heading stands.
proof fn lemma_first_h2_is(before: Seq<char>, rest: Seq<char>)
    requires
        text_facts::is_closed(before),
        forall|k: int|
            0 <= k < text::lines(before).len() ==> !sections::is_h2(
                #[trigger] text::lines(before)[k],
            ),
        rest.len() > 0,
        sections::is_h2(text::lines(rest)[0]),
    ensures
        sections::first_h2(before + rest) == before.len(),
    decreases before.len(),
{
    let markdown = before + rest;
    if before.len() == 0 {
        assert(markdown =~= rest);
    } else {
        let (line, tail) = text_facts::lemma_lines_split(before);
        assert(before == line.push('\n') + tail) by {
            if before == line {
                assert(line[before.len() - 1] == '\n');
            }
        }
        text_facts::lemma_lines_add(before, rest);
        assert(!sections::is_h2(text::lines(before)[0]));
        assert(text::lines(markdown)[0] == text::lines(before)[0]);
        let n = line.len();
        assert forall|k: int| 0 <= k < n implies !CharSet::Only('\n').has(
            #[trigger] markdown[k],
        ) by {
            assert(markdown[k] == line[k]);
        }
        assert(markdown[n as int] == '\n');
        text::lemma_find_is(markdown, CharSet::Only('\n'), n);
        assert(markdown.skip(n as int + 1) =~= tail + rest);
        if tail.len() > 0 {
            assert(tail.last() == before.last());
        }
        assert forall|k: int| 0 <= k < text::lines(tail).len() implies !sections::is_h2(
            #[trigger] text::lines(tail)[k],
        ) by {
            assert(text::lines(tail)[k] == text::lines(before)[k + 1]);
        }
        lemma_first_h2_is(tail, rest);
    }
}

// ---------------------------------------------------------------------------
// Marking
// ---------------------------------------------------------------------------

/// The line that marks a section is bare and no heading.
pub proof fn lemma_mark()
    ensures
        text_facts::is_bare_line("status: superseded"@),
        text_facts::is_tight("status: superseded"@),
        !sections::is_h2("status: superseded"@),
        promote::is_status_line("status: superseded"@),
        kind::line_cue("status: superseded"@) == LineCue::Status("superseded"@),
{
    reveal_strlit("status: superseded");
    reveal_strlit("status:");
    reveal_strlit("status");
    reveal_strlit(": ");
    reveal_strlit("superseded");
    reveal_strlit("## ");
    let mark = "status: superseded"@;
    text_facts::lemma_trim_tight(mark);
    assert(text::trim_start(mark) == mark);
    assert(mark.take(3)[0] == 's');
    assert(mark.take(7) =~= "status:"@);
    assert("status"@ + ": "@ + "superseded"@ =~= mark);
    entries::lemma_status_cue("superseded"@);
}

/// A plain section stays plain when it is marked.
proof fn lemma_marked_plain(s: SectionModel, id: Seq<char>)
    requires
        is_plain(s),
    ensures
        is_plain(promote::marked_section(s, id)),
{
    lemma_mark();
    let ls = text::lines(s.body);
    let marked = promote::marked_lines(ls);
    text_facts::lemma_lines_are_lines(s.body);
    assert forall|k: int| 0 <= k < marked.len() implies text_facts::is_line(#[trigger] marked[k])
        && !sections::is_h2(text::strip_carriage_return(marked[k])) by {
        lemma_h2_stripped(marked[k]);
        if k < ls.len() {
            assert(marked[k] == promote::marked_line(ls[k]));
            assert(text_facts::is_line(text::lines(s.body)[k]));
            assert(!sections::is_h2(text::lines(s.body)[k]));
        }
    }
    text_facts::lemma_lines_join(marked);
    text_facts::lemma_join_closed(marked);
    if promote::is_target(s, id) {
        let body = promote::marked_section(s, id).body;
        assert forall|k: int| 0 <= k < text::lines(body).len() implies !sections::is_h2(
            #[trigger] text::lines(body)[k],
        ) by {
            assert(text::lines(body)[k] == text::strip_carriage_return(marked[k]));
        }
    }
}

/// The sections of a text are plain, and they stand from its first heading on.
pub proof fn lemma_markdown_sections(markdown: Seq<char>)
    ensures
        forall|k: int|
            0 <= k < sections::markdown_sections(markdown).len() ==> is_plain(
                #[trigger] sections::markdown_sections(markdown)[k],
            ),
        sections::markdown_sections(markdown).len() > 0 ==> sections::first_h2(markdown)
            < markdown.len(),
{
    text_facts::lemma_lines_are_lines(markdown);
    lemma_sections_plain(text::lines(markdown));
    lemma_first_h2(markdown);
    let n = sections::first_h2(markdown) as int;
    lemma_sections_of_no_heading(
        text::lines(markdown.take(n)),
        text::lines(markdown.skip(n)),
    );
    if markdown.skip(n).len() == 0 {
        assert(text::lines(markdown.skip(n)) =~= seq![]);
        assert(sections::sections(text::lines(markdown.skip(n))).len() == 0);
    }
}

/// Marking the sections that an id names changes the text in place: it has
/// the same sections in the same order, those that the id names are marked,
/// the others stay, each section gains an empty line and loses the carriage
/// returns before its line ends, and the text before the first heading stays.
pub proof fn law_marking_is_in_place(markdown: Seq<char>, id: Seq<char>)
    requires
        promote::superseded_markdown(markdown, id) is Some,
    ensures
        ({
            let marked = promote::superseded_markdown(markdown, id)->0;
            &&& sections::markdown_sections(marked) == all_spaced(
                promote::marked_sections(sections::markdown_sections(markdown), id),
            )
            &&& sections::preamble(marked) == sections::preamble(markdown)
        }),
{
    let all = sections::markdown_sections(markdown);
    let marked = promote::marked_sections(all, id);
    let before = sections::preamble(markdown);
    let rest = promote::sections_text(marked);
    lemma_first_h2(markdown);
    lemma_markdown_sections(markdown);
    assert forall|k: int| 0 <= k < marked.len() implies is_plain(#[trigger] marked[k]) by {
        assert(is_plain(all[k]));
        lemma_marked_plain(all[k], id);
    }
    lemma_sections_text(marked);
    assert(text::lines(Seq::<char>::empty()) =~= seq![]);
    assert(text_facts::is_closed(before));
    text_facts::lemma_lines_add(before, rest);
    lemma_sections_of_no_heading(text::lines(before), text::lines(rest));
    lemma_first_h2_is(before, rest);
    assert((before + rest).take(before.len() as int) =~= before);
    text_facts::lemma_blank(before);
    assert(text_facts::all_white(Seq::<char>::empty()));
}

// ---------------------------------------------------------------------------
// A superseded section is not pinned
// ---------------------------------------------------------------------------

/// What is read of a section once it is marked.
pub open spec fn read_once_marked(s: SectionModel, id: Seq<char>) -> Seq<Seq<char>> {
    kind::scanned(promote::pin_source(spaced(promote::marked_section(s, id))))
}

/// Whether a status line is among the lines that are read, and no status
/// field after it, in another spelling, says that the section is active.
pub open spec fn ends_in_status_line(ls: Seq<Seq<char>>) -> bool {
    exists|p: int|
        0 <= p < ls.len() && promote::is_status_line(#[trigger] ls[p]) && forall|k: int|
            p < k < ls.len() ==> kind::line_cue(#[trigger] ls[k]) != LineCue::Status("active"@)
}

/// A line that is not blank is among the nonblank lines.
proof fn lemma_nonblank_has(ls: Seq<Seq<char>>, j: int) -> (k: int)
    requires
        0 <= j < ls.len(),
        !text::is_blank(ls[j]),
    ensures
        0 <= k < kind::nonblank(ls).len(),
        kind::nonblank(ls)[k] == text::trim(ls[j]),
        forall|i: int|
            k < i < kind::nonblank(ls).len() ==> exists|m: int|
                j < m < ls.len() && #[trigger] kind::nonblank(ls)[i] == text::trim(
                    #[trigger] ls[m],
                ),
    decreases ls.len(),
{
    let init = ls.drop_last();
    if j == ls.len() - 1 {
        kind::nonblank(init).len() as int
    } else {
        let k = lemma_nonblank_has(init, j);
        assert forall|i: int| k < i < kind::nonblank(ls).len() implies exists|m: int|
            j < m < ls.len() && #[trigger] kind::nonblank(ls)[i] == text::trim(
                #[trigger] ls[m],
            ) by {
            if i < kind::nonblank(init).len() {
                assert(kind::nonblank(ls)[i] == kind::nonblank(init)[i]);
                let m = choose|m: int|
                    j < m < init.len() && kind::nonblank(init)[i] == text::trim(
                        #[trigger] init[m],
                    );
                assert(ls[m] == init[m]);
            } else {
                assert(ls[ls.len() - 1] == ls.last());
            }
        }
        k
    }
}

/// The heading of a section as it is pinned.
pub open spec fn pin_heading(s: SectionModel) -> Seq<char> {
    "## "@ + spaced(s).title()
}

/// The lines of a section as it is pinned: its heading, the lines of its body
/// and an empty one.
proof fn lemma_pin_lines(s: SectionModel)
    requires
        text_facts::is_line(s.heading),
    ensures
        text_facts::is_line(pin_heading(s)),
        text::lines(promote::pin_source(spaced(s))) == text_facts::stripped(
            seq![pin_heading(s)] + text::lines(s.body).push(seq![]),
        ),
{
    reveal_strlit("## ");
    let ls = text::lines(s.body);
    let heading = pin_heading(s);
    let bare = text::strip_carriage_return(s.heading);
    text_facts::lemma_lines_are_lines(s.body);
    assert(text_facts::is_line(bare));
    entries::lemma_parts_of_line(bare, CharSet::Only('#'));
    entries::lemma_parts_of_line(
        text::skip_while(bare, CharSet::Only('#')),
        CharSet::WhiteSpace,
    );
    assert(text_facts::is_line(heading));
    let below = ls.push(seq![]);
    assert forall|k: int| 0 <= k < below.len() implies text_facts::is_line(#[trigger] below[k]) by {
        if k < ls.len() {
            assert(text_facts::is_line(text::lines(s.body)[k]));
        }
    }
    assert(below.drop_last() =~= ls);
    assert(text::join_lines(below) =~= text::join_lines(ls).push('\n'));
    text_facts::lemma_lines_first(heading, text::join_lines(below));
    text_facts::lemma_lines_join(below);
    assert(seq![text::strip_carriage_return(heading)] + text_facts::stripped(below)
        =~= text_facts::stripped(seq![heading] + below));
}

/// What is read of a marked section: its heading and its marked lines.
proof fn lemma_marked_source(s: SectionModel, id: Seq<char>)
    requires
        promote::is_target(s, id),
        text_facts::is_line(s.heading),
    ensures
        kind::nonblank(
            text::lines(promote::pin_source(spaced(promote::marked_section(s, id)))),
        ) == kind::nonblank(
            seq![pin_heading(s)] + promote::marked_lines(text::lines(s.body)),
        ),
{
    lemma_mark();
    let ls = text::lines(s.body);
    let marked = promote::marked_lines(ls);
    let target = promote::marked_section(s, id);
    let heading = seq![pin_heading(s)];
    let empty = Seq::<char>::empty();
    text_facts::lemma_lines_are_lines(s.body);
    assert forall|k: int| 0 <= k < marked.len() implies text_facts::is_line(
        #[trigger] marked[k],
    ) by {
        if k < ls.len() {
            assert(marked[k] == promote::marked_line(ls[k]));
            assert(text_facts::is_line(text::lines(s.body)[k]));
        }
    }
    text_facts::lemma_lines_join(marked);
    let read = text::lines(target.body);
    lemma_pin_lines(target);
    assert(pin_heading(target) == pin_heading(s));
    entries::lemma_nonblank_stripped(heading + read.push(empty));
    assert(heading + read.push(empty) =~= (heading + read).push(empty));
    entries::lemma_nonblank_push(heading + read, empty);
    text_facts::lemma_blank(empty);
    entries::lemma_nonblank_add(heading, read);
    entries::lemma_nonblank_stripped(marked);
    entries::lemma_nonblank_add(heading, marked);
}

/// Each line that is read of a marked section and begins with `status:` is
/// the mark.
proof fn lemma_status_lines_are_marks(s: SectionModel, id: Seq<char>, p: int)
    requires
        promote::is_target(s, id),
        text_facts::is_line(s.heading),
        0 <= p < read_once_marked(s, id).len(),
        promote::is_status_line(read_once_marked(s, id)[p]),
    ensures
        read_once_marked(s, id)[p] == "status: superseded"@,
{
    lemma_mark();
    lemma_marked_source(s, id);
    reveal_strlit("## ");
    reveal_strlit("status:");
    let ls = text::lines(s.body);
    let marked = promote::marked_lines(ls);
    let heading = pin_heading(s);
    let all = seq![heading] + marked;
    entries::lemma_nonblank_from(all);
    let line = read_once_marked(s, id)[p];
    assert(line == kind::nonblank(all)[p]);
    let j = choose|j: int| 0 <= j < all.len() && line == text::trim(#[trigger] all[j]);
    text_facts::lemma_trim_twice(all[j]);
    if j == 0 {
        let prefix = "##"@;
        reveal_strlit("##");
        let rest = seq![' '] + spaced(s).title();
        assert(heading =~= prefix + rest);
        let end = text_facts::lemma_trim_after_prefix(prefix, rest);
        assert(line[0] == '#');
        assert(line.take(7)[0] == line[0]);
        assert(false);
    } else if j - 1 < ls.len() {
        assert(all[j] == promote::marked_line(ls[j - 1]));
        if promote::is_status_line(ls[j - 1]) {
            text_facts::lemma_trim_tight("status: superseded"@);
        }
    } else {
        text_facts::lemma_trim_tight("status: superseded"@);
    }
}

/// Where a line says that a status is not `active`, and none after it says
/// that it is, the status is not `active`.
proof fn lemma_status_after(ls: Seq<Seq<char>>, p: int)
    requires
        0 <= p < ls.len(),
        kind::line_cue(ls[p]) is Status,
        forall|k: int|
            p <= k < ls.len() ==> kind::line_cue(#[trigger] ls[k]) != LineCue::Status("active"@),
    ensures
        kind::status_of(ls) == "superseded"@,
    decreases ls.len(),
{
    assert(kind::line_cue(ls[ls.len() - 1]) != LineCue::Status("active"@));
    if !(kind::line_cue(ls.last()) is Status) {
        let init = ls.drop_last();
        assert(init[p] == ls[p]);
        assert forall|k: int| p <= k < init.len() implies kind::line_cue(#[trigger] init[k])
            != LineCue::Status("active"@) by {
            assert(init[k] == ls[k]);
        }
        lemma_status_after(init, p);
    }
}

/// A section that was marked as superseded is never pinned, where its status
/// line is among the lines that are read and no status field after it, in
/// another spelling, says that it is active.
pub proof fn law_superseded_is_not_pinned(
    s: SectionModel,
    id: Seq<char>,
    order: Seq<MemoryKind>,
)
    requires
        promote::is_target(s, id),
        text_facts::is_line(s.heading),
        ends_in_status_line(read_once_marked(s, id)),
    ensures
        !promote::is_pinnable(spaced(promote::marked_section(s, id)), order),
{
    lemma_mark();
    let ls = read_once_marked(s, id);
    let p = choose|p: int|
        0 <= p < ls.len() && promote::is_status_line(#[trigger] ls[p]) && forall|k: int|
            p < k < ls.len() ==> kind::line_cue(#[trigger] ls[k]) != LineCue::Status("active"@);
    lemma_status_lines_are_marks(s, id, p);
    reveal_strlit("active");
    reveal_strlit("superseded");
    assert("active"@.len() != "superseded"@.len());
    assert forall|k: int| p <= k < ls.len() implies kind::line_cue(#[trigger] ls[k])
        != LineCue::Status("active"@) by {
        if k == p {
            assert(kind::line_cue(ls[p]) == LineCue::Status("superseded"@));
        }
    }
    lemma_status_after(ls, p);
}

/// In a text that was marked, no section that the id names may be pinned,
/// where its status line is among the lines that are read and no status field
/// after it, in another spelling, says that it is active.
pub proof fn law_marked_text_pins_no_target(
    markdown: Seq<char>,
    id: Seq<char>,
    order: Seq<MemoryKind>,
    k: int,
)
    requires
        promote::superseded_markdown(markdown, id) is Some,
        0 <= k < sections::markdown_sections(markdown).len(),
        promote::is_target(sections::markdown_sections(markdown)[k], id),
        ends_in_status_line(read_once_marked(sections::markdown_sections(markdown)[k], id)),
    ensures
        ({
            let marked = promote::superseded_markdown(markdown, id)->0;
            &&& k < sections::markdown_sections(marked).len()
            &&& !promote::is_pinnable(sections::markdown_sections(marked)[k], order)
        }),
{
    let all = sections::markdown_sections(markdown);
    law_marking_is_in_place(markdown, id);
    lemma_markdown_sections(markdown);
    assert(is_plain(all[k]));
    law_superseded_is_not_pinned(all[k], id, order);
}

/// Whether all of a section is read once it is marked, and its status fields
/// are spelt `status:`, unless none is.
pub open spec fn is_settled(s: SectionModel) -> bool {
    let ls = text::lines(s.body);
    &&& kind::nonblank(ls).len() + 2 <= kind::SCANNED_LINES
    &&& promote::has_status_line(ls) ==> forall|k: int|
        0 <= k < ls.len() && kind::line_cue(text::trim(#[trigger] ls[k])) is Status
            ==> promote::is_status_line(ls[k])
}

/// A settled section is not pinned once it was marked as superseded.
pub proof fn law_short_superseded_is_not_pinned(
    s: SectionModel,
    id: Seq<char>,
    order: Seq<MemoryKind>,
)
    requires
        promote::is_target(s, id),
        text_facts::is_line(s.heading),
        is_settled(s),
    ensures
        !promote::is_pinnable(spaced(promote::marked_section(s, id)), order),
{
    lemma_mark();
    lemma_marked_source(s, id);
    let ls = text::lines(s.body);
    let marked = promote::marked_lines(ls);
    let heading = pin_heading(s);
    let all = seq![heading] + marked;
    let mark = "status: superseded"@;
    text_facts::lemma_trim_tight(mark);
    lemma_nonblank_len(ls);
    entries::lemma_nonblank_add(seq![heading], marked);
    let none = Seq::<Seq<char>>::empty();
    entries::lemma_nonblank_push(none, heading);
    assert(none.push(heading) =~= seq![heading]);
    let same = Seq::new(ls.len(), |i: int| promote::marked_line(ls[i]));
    if !promote::has_status_line(ls) {
        entries::lemma_nonblank_push(same, mark);
    }
    assert(kind::scanned(promote::pin_source(spaced(promote::marked_section(s, id))))
        == kind::nonblank(all));
    // The last line that is the mark.
    if promote::has_status_line(ls) {
        let q = choose|q: int| 0 <= q < ls.len() && promote::is_status_line(#[trigger] ls[q]);
        assert(all[q + 1] == mark);
        let p = lemma_nonblank_has(all, q + 1);
        let read = kind::nonblank(all);
        assert(promote::is_status_line(read[p]));
        assert forall|k: int| p < k < read.len() implies kind::line_cue(#[trigger] read[k])
            != LineCue::Status("active"@) by {
            let m = choose|m: int|
                q + 1 < m < all.len() && read[k] == text::trim(#[trigger] all[m]);
            assert(all[m] == promote::marked_line(ls[m - 1]));
            reveal_strlit("active");
            reveal_strlit("superseded");
            assert("active"@.len() != "superseded"@.len());
            if promote::is_status_line(ls[m - 1]) {
                assert(read[k] == mark);
            } else {
                assert(read[k] == text::trim(text::lines(s.body)[m - 1]));
            }
        }
    } else {
        let last = all.len() - 1;
        assert(all[last] == mark);
        let p = lemma_nonblank_has(all, last);
        let read = kind::nonblank(all);
        assert(promote::is_status_line(read[p]));
        assert(p == read.len() - 1) by {
            if p < read.len() - 1 {
                assert(read[p + 1] == read[p + 1]);
            }
        }
    }
    law_superseded_is_not_pinned(s, id, order);
}

/// Marking lines does not add to those that are not blank.
proof fn lemma_nonblank_len(ls: Seq<Seq<char>>)
    ensures
        kind::nonblank(Seq::new(ls.len(), |i: int| promote::marked_line(ls[i]))).len()
            == kind::nonblank(ls).len(),
    decreases ls.len(),
{
    let marked = Seq::new(ls.len(), |i: int| promote::marked_line(ls[i]));
    if ls.len() > 0 {
        let init = ls.drop_last();
        lemma_nonblank_len(init);
        assert(marked.drop_last() =~= Seq::new(
            init.len(),
            |i: int| promote::marked_line(init[i]),
        ));
        lemma_mark();
        text_facts::lemma_trim_tight("status: superseded"@);
        reveal_strlit("status:");
    }
}

/// A field of a line: its status, in any spelling.
pub open spec fn is_status_field(line: Seq<char>) -> bool {
    kind::field_value(text::trim(line), "status"@) is Some
}

/// A line that begins with `status:` is a status field.
proof fn lemma_status_line_is_field(line: Seq<char>)
    requires
        promote::is_status_line(line),
    ensures
        is_status_field(line),
{
    reveal_strlit("status:");
    reveal_strlit("status");
    reveal_strlit("#");
    let t = text::trim(line);
    let name = "status"@;
    assert forall|k: int| 0 <= k < 7 implies t[k] == #[trigger] "status:"@[k] by {
        assert(t.take(7)[k] == t[k]);
    }
    assert forall|k: int| 0 <= k < 6 implies !CharSet::Only(':').has(#[trigger] t[k]) by {
        assert(t[k] == "status:"@[k]);
    }
    assert(t[6] == "status:"@[6]);
    text::lemma_find_is(t, CharSet::Only(':'), 6);
    assert(t.take(6) =~= name) by {
        assert forall|k: int| 0 <= k < 6 implies t.take(6)[k] == #[trigger] name[k] by {
            assert(t[k] == "status:"@[k]);
        }
    }
    text_facts::lemma_trim_tight(name);
    assert(text::trim_start(name) == name);
    assert(name.take(1)[0] == 's');
}

/// Whether all of a section is read once it is marked, and it has at most one
/// status field.
pub open spec fn is_short_with_one_status(s: SectionModel) -> bool {
    let ls = text::lines(s.body);
    &&& kind::nonblank(ls).len() + 2 <= kind::SCANNED_LINES
    &&& forall|i: int, j: int|
        0 <= i < j < ls.len() ==> !(is_status_field(#[trigger] ls[i]) && is_status_field(
            #[trigger] ls[j],
        ))
}

/// Such a section is settled.
proof fn lemma_short_is_settled(s: SectionModel)
    requires
        is_short_with_one_status(s),
    ensures
        is_settled(s),
{
    let ls = text::lines(s.body);
    if promote::has_status_line(ls) {
        let q = choose|q: int| 0 <= q < ls.len() && promote::is_status_line(#[trigger] ls[q]);
        lemma_status_line_is_field(ls[q]);
        assert forall|k: int|
            0 <= k < ls.len() && kind::line_cue(
                text::trim(#[trigger] ls[k]),
            ) is Status implies promote::is_status_line(ls[k]) by {
            assert(is_status_field(ls[k]));
            if k < q {
                assert(!(is_status_field(ls[k]) && is_status_field(ls[q])));
            } else if q < k {
                assert(!(is_status_field(ls[q]) && is_status_field(ls[k])));
            }
        }
    }
}

/// A section without the id does not show it when it is pinned.
proof fn lemma_pin_declares(s: SectionModel, id: Seq<char>)
    requires
        text_facts::is_line(s.heading),
        !promote::declares_id(s.full(), id),
    ensures
        !promote::declares_id(promote::pin_of(spaced(s)).text, id),
{
    reveal_strlit("id:");
    reveal_strlit("## ");
    reveal_strlit("##");
    let shown = promote::pin_of(spaced(s)).text;
    let source = promote::pin_source(spaced(s));
    let ls = text::lines(s.body);
    let heading = pin_heading(s);
    let empty = Seq::<char>::empty();
    if promote::declares_id(shown, id) {
        let k = choose|k: int|
            0 <= k < text::lines(shown).len() && promote::is_id_line(
                #[trigger] text::lines(shown)[k],
                id,
            );
        let (left, right) = text_facts::lemma_trim(source);
        assert(left.len() == 0) by {
            assert(source[0] == '#');
            if left.len() > 0 {
                assert(source[0] == left[0]);
            }
        }
        assert(shown + right =~= source);
        text_facts::lemma_lines_padded(shown, right, k);
        lemma_pin_lines(s);
        let below = ls.push(empty);
        let all = seq![heading] + below;
        assert(text::lines(source)[k] == text::strip_carriage_return(all[k]));
        text_facts::lemma_trim_stripped(all[k]);
        assert(promote::is_id_line(all[k], id));
        let t = text::trim(all[k]);
        if k == 0 {
            let rest = seq![' '] + spaced(s).title();
            assert(heading =~= "##"@ + rest);
            let end = text_facts::lemma_trim_after_prefix("##"@, rest);
            assert(t.take(3)[0] == '#');
        } else if k - 1 == ls.len() {
            text_facts::lemma_blank(empty);
        } else {
            text_facts::lemma_lines_first(s.heading, s.body);
            assert(text::lines(s.full())[k] == ls[k - 1]);
            assert(all[k] == ls[k - 1]);
        }
        assert(false);
    }
}

/// After the sections with an id were marked as superseded, no core pin has a
/// line that declares this id, where the marked sections are settled.
pub proof fn law_superseded_id_is_not_pinned(
    markdown: Seq<char>,
    id: Seq<char>,
    order: Seq<MemoryKind>,
    max_chars: nat,
    max_sections: nat,
)
    requires
        promote::superseded_markdown(markdown, id) is Some,
        forall|k: int|
            0 <= k < sections::markdown_sections(markdown).len() && promote::is_target(
                #[trigger] sections::markdown_sections(markdown)[k],
                id,
            ) ==> is_settled(sections::markdown_sections(markdown)[k]),
    ensures
        ({
            let pins = promote::core_pins(
                promote::superseded_markdown(markdown, id)->0,
                order,
                max_chars,
                max_sections,
            );
            forall|k: int|
                0 <= k < pins.len() ==> !promote::declares_id((#[trigger] pins[k]).text, id)
        }),
{
    let all = sections::markdown_sections(markdown);
    let marked = promote::superseded_markdown(markdown, id)->0;
    let after = sections::markdown_sections(marked);
    let pins = promote::core_pins(marked, order, max_chars, max_sections);
    law_marking_is_in_place(markdown, id);
    lemma_markdown_sections(markdown);
    pins::law_core_pins(marked, order, max_chars, max_sections);
    assert forall|k: int| 0 <= k < pins.len() implies !promote::declares_id(
        (#[trigger] pins[k]).text,
        id,
    ) by {
        assert(pins::is_pin_of(pins[k], after, order));
        let j = choose|j: int|
            0 <= j < after.len() && promote::is_pinnable(#[trigger] after[j], order) && pins[k]
                == promote::pin_of(after[j]);
        assert(is_plain(all[j]));
        assert(after[j] == spaced(promote::marked_section(all[j], id)));
        if promote::is_target(all[j], id) {
            law_short_superseded_is_not_pinned(all[j], id, order);
        } else {
            lemma_pin_declares(all[j], id);
        }
    }
}

/// After the sections with an id were marked as superseded, no core pin has a
/// line that declares this id, where each of them is short enough to be read
/// whole and has at most one status field.
pub proof fn law_superseded_id_of_short_sections_is_not_pinned(
    markdown: Seq<char>,
    id: Seq<char>,
    order: Seq<MemoryKind>,
    max_chars: nat,
    max_sections: nat,
)
    requires
        promote::superseded_markdown(markdown, id) is Some,
        forall|k: int|
            0 <= k < sections::markdown_sections(markdown).len() && promote::is_target(
                #[trigger] sections::markdown_sections(markdown)[k],
                id,
            ) ==> is_short_with_one_status(sections::markdown_sections(markdown)[k]),
    ensures
        ({
            let pins = promote::core_pins(
                promote::superseded_markdown(markdown, id)->0,
                order,
                max_chars,
                max_sections,
            );
            forall|k: int, j: int|
                0 <= k < pins.len() && 0 <= j < text::lines(pins[k].text).len()
                    ==> !promote::is_id_line(#[trigger] text::lines(pins[k].text)[j], id)
        }),
{
    let all = sections::markdown_sections(markdown);
    assert forall|k: int|
        0 <= k < all.len() && promote::is_target(#[trigger] all[k], id) implies is_settled(
        all[k],
    ) by {
        lemma_short_is_settled(all[k]);
    }
    law_superseded_id_is_not_pinned(markdown, id, order, max_chars, max_sections);
}

// ---------------------------------------------------------------------------
// An entry can be superseded
// ---------------------------------------------------------------------------

/// The heading of an entry.
pub open spec fn entry_heading(e: EntryModel) -> Seq<char> {
    "## "@ + promote::kind_label(e.kind) + ": "@ + text::trim(e.title)
}

/// The heading of an entry is one of the second level.
proof fn lemma_entry_heading(e: EntryModel)
    requires
        entries::is_writable(e),
    ensures
        sections::is_h2(entry_heading(e)),
        text_facts::is_bare_line(entry_heading(e)),
{
    reveal_strlit("## ");
    reveal_strlit("### ");
    reveal_strlit(": ");
    entries::lemma_heading_cue(e.kind, text::trim(e.title));
    let heading = entry_heading(e);
    let _ = text_facts::lemma_trim(e.title);
    assert(heading[0] == '#' && heading[1] == '#' && heading[2] == ' ');
    assert(text::trim_start(heading) == heading);
    assert(heading.take(3) =~= "## "@);
    assert(heading.take(4)[2] == heading[2]);
    if text::trim(e.title).len() > 0 {
        assert(heading.last() == text::trim(e.title).last());
    } else {
        assert(heading.last() == ' ');
    }
}

/// The fields of an entry are no headings.
proof fn lemma_field_is_no_heading(name: Seq<char>, value: Seq<char>)
    requires
        name.len() > 0,
        name[0] != '#',
        !text::is_white_space(name[0]),
    ensures
        !sections::is_h2(text::strip_carriage_return(name + ": "@ + value)),
{
    reveal_strlit("## ");
    reveal_strlit(": ");
    let line = text::strip_carriage_return(name + ": "@ + value);
    assert(line[0] == name[0]);
    assert(text::trim_start(line) == line);
    if text::starts_with(line, "## "@) {
        assert(line.take(3)[0] == line[0]);
    }
}

/// An entry with an id, wherever it stands in a text, is found by that id: a
/// later entry that supersedes it marks its section.
pub proof fn law_entry_is_found_by_its_id(
    before: Seq<char>,
    e: EntryModel,
    id: Seq<char>,
    after: Seq<char>,
)
    requires
        text_facts::is_closed(before),
        entries::is_writable(e),
        e.id == Some(id),
        id.len() > 0,
        text::trim(id) == id,
    ensures
        ({
            let markdown = before + promote::entry_text(e) + after;
            let all = sections::markdown_sections(markdown);
            &&& promote::superseded_markdown(markdown, id) is Some
            &&& exists|k: int|
                0 <= k < all.len() && (#[trigger] all[k]).heading == entry_heading(e)
                    && promote::is_target(all[k], id)
        }),
{
    let header = promote::entry_header(e);
    let rest = if text::is_blank(e.body) {
        after
    } else {
        text::trim(e.body).push('\n') + after
    };
    let markdown = before + promote::entry_text(e) + after;
    assert(markdown =~= before + (text::join_lines(header) + rest));
    lemma_entry_sections(before, e, id, rest);
    lemma_id_occurs(before, e, id, rest);
    let all = sections::markdown_sections(markdown);
    let k = choose|k: int|
        0 <= k < all.len() && (#[trigger] all[k]).heading == entry_heading(e)
            && promote::is_target(all[k], id);
    assert(promote::has_target(all, id));
}

/// The id of an entry occurs in its text.
proof fn lemma_id_occurs(before: Seq<char>, e: EntryModel, id: Seq<char>, rest: Seq<char>)
    requires
        e.id == Some(id),
    ensures
        text::contains(before + (text::join_lines(promote::entry_header(e)) + rest), id),
{
    let header = promote::entry_header(e);
    let front = header.take(3);
    let id_line = "id"@ + ": "@ + id;
    let back = header.skip(4);
    assert(header =~= front + seq![id_line] + back);
    text_facts::lemma_join_add(front + seq![id_line], back);
    text_facts::lemma_join_add(front, seq![id_line]);
    assert(text::join_lines(seq![id_line]) =~= id_line.push('\n')) by {
        let init = seq![id_line].drop_last();
        assert(text::join_lines(init) =~= seq![]);
    }
    let markdown = before + (text::join_lines(header) + rest);
    let i: int = before.len() + text::join_lines(front).len() + ("id"@ + ": "@).len() as int;
    assert(markdown.subrange(i, i + id.len()) =~= id);
    assert(text::occurs_at(markdown, id, i));
}

/// Among the sections of a text that holds an entry is one with the entry's
/// heading that its id names.
proof fn lemma_entry_sections(before: Seq<char>, e: EntryModel, id: Seq<char>, rest: Seq<char>)
    requires
        text_facts::is_closed(before),
        entries::is_writable(e),
        e.id == Some(id),
        id.len() > 0,
        text::trim(id) == id,
    ensures
        ({
            let all = sections::markdown_sections(
                before + (text::join_lines(promote::entry_header(e)) + rest),
            );
            exists|k: int|
                0 <= k < all.len() && (#[trigger] all[k]).heading == entry_heading(e)
                    && promote::is_target(all[k], id)
        }),
{
    reveal_strlit("type");
    reveal_strlit("status");
    reveal_strlit("id");
    reveal_strlit("supersedes");
    reveal_strlit("id:");
    reveal_strlit(": ");
    reveal_strlit("## ");
    let header = promote::entry_header(e);
    let heading = entry_heading(e);
    let id_line = "id"@ + ": "@ + id;
    entries::lemma_header(e);
    lemma_entry_heading(e);
    text_facts::lemma_lines_join(header);
    text_facts::lemma_join_closed(header);
    text_facts::lemma_lines_add(text::join_lines(header), rest);
    text_facts::lemma_lines_add(before, text::join_lines(header) + rest);
    let b = text_facts::stripped(header) + text::lines(rest);
    assert(b[0] == heading);
    lemma_sections_add(text::lines(before), b);

    // The lines of the section.
    let tail = b.skip(1);
    sections::lemma_lines_before_h2(tail);
    let n = sections::lines_before_h2(tail) as int;
    lemma_field_is_no_heading("type"@, kind::kind_name(e.kind));
    lemma_field_is_no_heading("status"@, e.status);
    lemma_field_is_no_heading("id"@, id);
    assert(tail[0] == text::strip_carriage_return("type"@ + ": "@ + kind::kind_name(e.kind)));
    assert(tail[1] == text::strip_carriage_return("status"@ + ": "@ + e.status));
    assert(tail[2] == text::strip_carriage_return(id_line));
    assert(n > 2) by {
        if n == 0 {
            assert(sections::is_h2(tail[0]));
        } else if n == 1 {
            assert(sections::is_h2(tail[1]));
        } else if n == 2 {
            assert(sections::is_h2(tail[2]));
        }
    }
    let body = tail.take(n);
    let section = SectionModel { heading, body: text::join_lines(body) };
    assert(sections::sections(b)[0] == section);

    // One of them declares the id.
    text_facts::lemma_lines_are_lines(rest);
    assert forall|k: int| 0 <= k < body.len() implies text_facts::is_line(#[trigger] body[k]) by {
        if k + 1 < header.len() {
            assert(body[k] == text::strip_carriage_return(header[k + 1]));
        } else {
            assert(body[k] == text::lines(rest)[k + 1 - header.len()]);
        }
    }
    text_facts::lemma_lines_first(heading, text::join_lines(body));
    text_facts::lemma_lines_join(body);
    let all_lines = text::lines(section.full());
    let line = all_lines[3];
    assert(line == text::strip_carriage_return(body[2]));
    text_facts::lemma_trim_stripped(body[2]);
    text_facts::lemma_trim_stripped(id_line);
    let _ = text_facts::lemma_trim(id);
    text_facts::lemma_trim_tight(id_line);
    assert(text::trim(line) == id_line);
    assert(id_line.take(3) =~= "id:"@);
    let space = seq![' '];
    assert(id_line.skip(3) =~= space + id + Seq::<char>::empty());
    text_facts::lemma_trim_padded(space, id, seq![]);
    assert(promote::is_id_line(text::lines(section.full())[3], id));
    assert(promote::declares_id(section.full(), id));

    let m = sections::sections(text::lines(before)).len() as int;
    let all = sections::markdown_sections(before + (text::join_lines(header) + rest));
    assert(all == sections::sections(text::lines(before)) + sections::sections(b));
    assert(all[m] == section);
}

} // verus!
