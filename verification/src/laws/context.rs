//! What a formatted memory holds.

use crate::compose;
use crate::compose::{KindGroups, ResultModel};
use crate::kind::MemoryKind;
use crate::memory_context;
use crate::memory_context::{ConversationItem, MemoryModel, MEMORY_CONTEXT_OPEN_TAG};
use crate::promote;
use crate::promote::PinModel;
use crate::text;
use vstd::prelude::*;

verus! {

// ---------------------------------------------------------------------------
// Substrings
// ---------------------------------------------------------------------------

/// A part of a text is a substring of it.
proof fn lemma_contains(before: Seq<char>, part: Seq<char>, after: Seq<char>)
    ensures
        text::contains(before + part + after, part),
{
    let s = before + part + after;
    let i = before.len() as int;
    assert(s.subrange(i, i + part.len()) =~= part);
    assert(text::occurs_at(s, part, i));
}

/// A substring of a part of a text is a substring of the text.
proof fn lemma_contains_in(before: Seq<char>, part: Seq<char>, after: Seq<char>, needle: Seq<char>)
    requires
        text::contains(part, needle),
    ensures
        text::contains(before + part + after, needle),
{
    let i = choose|i: int| text::occurs_at(part, needle, i);
    let front = part.take(i);
    let back = part.skip(i + needle.len());
    assert(part =~= front + part.subrange(i, i + needle.len()) + back);
    assert(before + part + after =~= (before + front) + needle + (back + after));
    lemma_contains(before + front, needle, back + after);
}

// ---------------------------------------------------------------------------
// The memory block
// ---------------------------------------------------------------------------

/// A memory block that stands anywhere in the leading system message is
/// detected.
pub proof fn law_memory_block_is_detected(
    items: Seq<ConversationItem>,
    results: Seq<MemoryModel>,
    core: Option<Seq<char>>,
    before: Seq<char>,
    after: Seq<char>,
)
    requires
        items.len() > 0,
        items[0] matches ConversationItem::System(message) && message.content@ == before
            + memory_context::memory_block(results, core) + after,
    ensures
        memory_context::has_memory_block(items),
{
    let block = memory_context::memory_block(results, core);
    let tag = MEMORY_CONTEXT_OPEN_TAG@;
    let rest = block.skip(tag.len() as int);
    let empty = Seq::<char>::empty();
    assert(block =~= empty + tag + rest);
    lemma_contains(empty, tag, rest);
    lemma_contains_in(before, block, after, tag);
}

/// A core that is not blank is shown in the memory block.
pub proof fn law_core_is_shown(results: Seq<MemoryModel>, core: Seq<char>)
    requires
        !text::is_blank(core),
    ensures
        text::contains(memory_context::memory_block(results, Some(core)), text::trim(core)),
{
    let block = memory_context::memory_block(results, Some(core));
    let before = MEMORY_CONTEXT_OPEN_TAG@.push('\n');
    let part = text::trim(core);
    let after = block.skip((before.len() + part.len()) as int);
    assert(block =~= before + part + after);
    lemma_contains(before, part, after);
}

/// The results of a flat list are all there.
proof fn lemma_flat_list(results: Seq<MemoryModel>, k: int)
    requires
        0 <= k < results.len(),
    ensures
        text::contains(
            memory_context::flat_list(results),
            memory_context::location_text(results[k]),
        ),
    decreases results.len(),
{
    let init = results.drop_last();
    let front = memory_context::flat_list(init);
    let n = results.len();
    let last = memory_context::flat_text(n, results.last());
    let empty = Seq::<char>::empty();
    let needle = memory_context::location_text(results[k]);
    if k < n - 1 {
        lemma_flat_list(init, k);
        assert(init[k] == results[k]);
        lemma_contains_in(empty, front, last, needle);
        assert(empty + front + last =~= memory_context::flat_list(results));
    } else {
        let r = results.last();
        let head = "### Result "@ + text::decimal(n) + " (score: "@ + r.score + ", source: "@
            + r.source;
        assert(memory_context::flat_list(results) =~= (front + head) + needle + empty);
        lemma_contains(front + head, needle, empty);
    }
}

/// The results of a section are all there.
proof fn lemma_typed_list(kind: Seq<char>, results: Seq<MemoryModel>, k: int)
    requires
        0 <= k < results.len(),
    ensures
        text::contains(
            memory_context::typed_list(kind, results),
            memory_context::location_text(results[k]),
        ),
    decreases results.len(),
{
    let init = results.drop_last();
    let front = memory_context::typed_list(kind, init);
    let n = results.len();
    let last = memory_context::typed_text(n, kind, results.last());
    let empty = Seq::<char>::empty();
    let needle = memory_context::location_text(results[k]);
    if k < n - 1 {
        lemma_typed_list(kind, init, k);
        assert(init[k] == results[k]);
        lemma_contains_in(empty, front, last, needle);
        assert(empty + front + last =~= memory_context::typed_list(kind, results));
    } else {
        let r = results.last();
        let head = text::decimal(n) + ". (score: "@ + r.score + ", source: "@ + r.source
            + ", kind: "@ + kind;
        assert(memory_context::typed_list(kind, results) =~= (front + head) + needle + empty);
        lemma_contains(front + head, needle, empty);
    }
}

/// The results that are shown under a kind are those that have it.
proof fn lemma_shown_under(results: Seq<MemoryModel>, kind: Seq<char>)
    ensures
        forall|r: MemoryModel| #[trigger]
            memory_context::shown_under(results, kind).contains(r) <==> results.contains(r)
                && memory_context::shown_kind(r) == kind,
    decreases results.len(),
{
    let out = memory_context::shown_under(results, kind);
    if results.len() > 0 {
        let init = results.drop_last();
        let before = memory_context::shown_under(init, kind);
        lemma_shown_under(init, kind);
        assert forall|r: MemoryModel| #[trigger] out.contains(r) <==> results.contains(r)
            && memory_context::shown_kind(r) == kind by {
            assert(before.contains(r) <==> init.contains(r) && memory_context::shown_kind(r)
                == kind);
            if results.contains(r) {
                let i = choose|i: int| 0 <= i < results.len() && results[i] == r;
                if i < init.len() {
                    assert(init[i] == r);
                }
            }
            if init.contains(r) {
                let i = choose|i: int| 0 <= i < init.len() && init[i] == r;
                assert(results[i] == r);
            }
            assert(results[results.len() - 1] == results.last());
            if memory_context::shown_kind(results.last()) == kind {
                assert(out[out.len() - 1] == results.last());
                if before.contains(r) {
                    let i = choose|i: int| 0 <= i < before.len() && before[i] == r;
                    assert(out[i] == r);
                }
                if out.contains(r) {
                    let i = choose|i: int| 0 <= i < out.len() && out[i] == r;
                    if i < before.len() {
                        assert(before[i] == r);
                    }
                }
            }
        }
    } else {
        assert(out.len() == 0);
    }
}

/// The section of a kind is among the sections.
proof fn lemma_typed_sections(
    results: Seq<MemoryModel>,
    kinds: Seq<Seq<char>>,
    j: int,
    needle: Seq<char>,
)
    requires
        0 <= j < kinds.len(),
        text::contains(
            memory_context::typed_section(
                kinds[j],
                memory_context::shown_under(results, kinds[j]),
            ),
            needle,
        ),
    ensures
        text::contains(memory_context::typed_sections(results, kinds), needle),
    decreases kinds.len(),
{
    let init = kinds.drop_last();
    let front = memory_context::typed_sections(results, init);
    let last = memory_context::typed_section(
        kinds.last(),
        memory_context::shown_under(results, kinds.last()),
    );
    let empty = Seq::<char>::empty();
    if j < init.len() {
        assert(init[j] == kinds[j]);
        lemma_typed_sections(results, init, j, needle);
        lemma_contains_in(empty, front, last, needle);
        assert(empty + front + last =~= front + last);
    } else {
        lemma_contains_in(front, last, empty, needle);
        assert(front + last + empty =~= front + last);
    }
}

// ---------------------------------------------------------------------------
// The order of the sections
// ---------------------------------------------------------------------------

/// The order of strings is transitive.
proof fn lemma_precedes_transitive(a: Seq<char>, b: Seq<char>, c: Seq<char>)
    requires
        memory_context::precedes(a, b),
        memory_context::precedes(b, c),
    ensures
        memory_context::precedes(a, c),
    decreases a.len(),
{
    if a.len() > 0 && b.len() > 0 && c.len() > 0 && a[0] == b[0] && b[0] == c[0] {
        lemma_precedes_transitive(a.skip(1), b.skip(1), c.skip(1));
    }
}

/// No string comes before itself.
proof fn lemma_precedes_irreflexive(a: Seq<char>)
    ensures
        !memory_context::precedes(a, a),
    decreases a.len(),
{
    if a.len() > 0 {
        lemma_precedes_irreflexive(a.skip(1));
    }
}

/// Of two different strings one comes before the other.
proof fn lemma_precedes_total(a: Seq<char>, b: Seq<char>)
    requires
        a != b,
    ensures
        memory_context::precedes(a, b) || memory_context::precedes(b, a),
    decreases a.len(),
{
    if a.len() > 0 && b.len() > 0 && a[0] == b[0] {
        let s = a.skip(1);
        let t = b.skip(1);
        if s == t {
            assert(a =~= seq![a[0]] + s);
            assert(b =~= seq![b[0]] + t);
        }
        lemma_precedes_total(s, t);
    } else if a.len() == 0 && b.len() == 0 {
        assert(a =~= b);
    }
}

/// Whether a list of strings is strictly ascending.
pub open spec fn is_ascending(list: Seq<Seq<char>>) -> bool {
    forall|i: int, j: int|
        0 <= i < j < list.len() ==> memory_context::precedes(
            #[trigger] list[i],
            #[trigger] list[j],
        )
}

/// A name that is put at its place keeps the list ascending, and nothing else
/// is added.
proof fn lemma_inserted(list: Seq<Seq<char>>, name: Seq<char>)
    requires
        is_ascending(list),
    ensures
        is_ascending(memory_context::inserted(list, name)),
        forall|x: Seq<char>| #[trigger]
            memory_context::inserted(list, name).contains(x) <==> list.contains(x) || x == name,
    decreases list.len(),
{
    let out = memory_context::inserted(list, name);
    if list.len() == 0 {
        assert(out[0] == name);
    } else {
        let last = list.last();
        let init = list.drop_last();
        assert(list[list.len() - 1] == last);
        if name == last {
        } else if memory_context::precedes(last, name) {
            assert forall|i: int, j: int| 0 <= i < j < out.len() implies memory_context::precedes(
                #[trigger] out[i],
                #[trigger] out[j],
            ) by {
                assert(out[i] == list[i]);
                if j < list.len() {
                    assert(out[j] == list[j]);
                } else if i < list.len() - 1 {
                    assert(memory_context::precedes(list[i], list[list.len() - 1]));
                    lemma_precedes_transitive(list[i], last, name);
                }
            }
            assert forall|x: Seq<char>| #[trigger] out.contains(x) <==> list.contains(x) || x
                == name by {
                if out.contains(x) {
                    let i = choose|i: int| 0 <= i < out.len() && out[i] == x;
                    if i < list.len() {
                        assert(list[i] == x);
                    }
                }
                if list.contains(x) {
                    let i = choose|i: int| 0 <= i < list.len() && list[i] == x;
                    assert(out[i] == x);
                }
                assert(out[list.len() as int] == name);
            }
        } else {
            lemma_precedes_total(last, name);
            assert(is_ascending(init)) by {
                assert forall|i: int, j: int|
                    0 <= i < j < init.len() implies memory_context::precedes(
                    #[trigger] init[i],
                    #[trigger] init[j],
                ) by {
                    assert(init[i] == list[i] && init[j] == list[j]);
                }
            }
            lemma_inserted(init, name);
            let before = memory_context::inserted(init, name);
            assert forall|i: int| 0 <= i < before.len() implies memory_context::precedes(
                #[trigger] before[i],
                last,
            ) by {
                assert(before.contains(before[i]));
                if before[i] != name {
                    let k = choose|k: int| 0 <= k < init.len() && init[k] == before[i];
                    assert(list[k] == init[k]);
                }
            }
            assert forall|i: int, j: int| 0 <= i < j < out.len() implies memory_context::precedes(
                #[trigger] out[i],
                #[trigger] out[j],
            ) by {
                assert(out[i] == before[i]);
                if j < before.len() {
                    assert(out[j] == before[j]);
                }
            }
            assert forall|x: Seq<char>| #[trigger] out.contains(x) <==> list.contains(x) || x
                == name by {
                assert(before.contains(x) <==> init.contains(x) || x == name);
                assert(out[before.len() as int] == last);
                if out.contains(x) {
                    let i = choose|i: int| 0 <= i < out.len() && out[i] == x;
                    if i < before.len() {
                        assert(before[i] == x);
                        if init.contains(x) {
                            let k = choose|k: int| 0 <= k < init.len() && init[k] == x;
                            assert(list[k] == x);
                        }
                    }
                }
                if list.contains(x) {
                    let k = choose|k: int| 0 <= k < list.len() && list[k] == x;
                    if k < init.len() {
                        assert(init[k] == x);
                    }
                }
                if before.contains(x) {
                    let i = choose|i: int| 0 <= i < before.len() && before[i] == x;
                    assert(out[i] == x);
                }
            }
        }
    }
}

/// The kinds without a place of their own come in ascending order, each once,
/// and they are those under which some result is shown.
pub proof fn law_other_kinds(results: Seq<MemoryModel>)
    ensures
        is_ascending(memory_context::other_kinds(results)),
        forall|x: Seq<char>| #[trigger]
            memory_context::other_kinds(results).contains(x)
                <==> !memory_context::named_order().contains(x) && exists|k: int|
                0 <= k < results.len() && memory_context::shown_kind(#[trigger] results[k]) == x,
    decreases results.len(),
{
    let out = memory_context::other_kinds(results);
    if results.len() > 0 {
        let init = results.drop_last();
        let before = memory_context::other_kinds(init);
        let kind = memory_context::shown_kind(results.last());
        law_other_kinds(init);
        lemma_inserted(before, kind);
        assert forall|x: Seq<char>| #[trigger] out.contains(x)
            <==> !memory_context::named_order().contains(x) && exists|k: int|
            0 <= k < results.len() && memory_context::shown_kind(#[trigger] results[k]) == x by {
            assert(results[results.len() - 1] == results.last());
            if exists|k: int|
                0 <= k < results.len() && memory_context::shown_kind(#[trigger] results[k]) == x {
                let k = choose|k: int|
                    0 <= k < results.len() && memory_context::shown_kind(#[trigger] results[k])
                        == x;
                if k < init.len() {
                    assert(init[k] == results[k]);
                }
            }
            if before.contains(x) {
                let k = choose|k: int|
                    0 <= k < init.len() && memory_context::shown_kind(#[trigger] init[k]) == x;
                assert(results[k] == init[k]);
            }
        }
    } else {
        assert(out.len() == 0);
    }
}

/// Each result is shown in the section of its kind, and in no other: the
/// kinds of the sections are pairwise different, they cover every result, and
/// a section holds the results of its kind.
pub proof fn law_sections_split_the_results(results: Seq<MemoryModel>)
    ensures
        ({
            let kinds = memory_context::named_order() + memory_context::other_kinds(results);
            &&& forall|i: int, j: int|
                0 <= i < j < kinds.len() ==> #[trigger] kinds[i] != #[trigger] kinds[j]
            &&& forall|k: int|
                0 <= k < results.len() ==> kinds.contains(
                    memory_context::shown_kind(#[trigger] results[k]),
                )
            &&& forall|kind: Seq<char>, r: MemoryModel| #[trigger]
                memory_context::shown_under(results, kind).contains(r) <==> results.contains(r)
                    && memory_context::shown_kind(r) == kind
        }),
{
    let named = memory_context::named_order();
    let others = memory_context::other_kinds(results);
    let kinds = named + others;
    law_other_kinds(results);
    lemma_named_distinct();
    assert forall|i: int, j: int| 0 <= i < j < kinds.len() implies #[trigger] kinds[i]
        != #[trigger] kinds[j] by {
        if j < named.len() {
            assert(kinds[i] == named[i] && kinds[j] == named[j]);
        } else if i >= named.len() {
            let a = i - named.len();
            let b = j - named.len();
            assert(kinds[i] == others[a] && kinds[j] == others[b]);
            assert(memory_context::precedes(others[a], others[b]));
            if kinds[i] == kinds[j] {
                lemma_precedes_irreflexive(others[a]);
            }
        } else {
            assert(kinds[i] == named[i]);
            assert(named.contains(kinds[i]));
            assert(others.contains(others[j - named.len()]));
        }
    }
    assert forall|k: int| 0 <= k < results.len() implies kinds.contains(
        memory_context::shown_kind(#[trigger] results[k]),
    ) by {
        lemma_kind_is_placed(results, k);
    }
    assert forall|kind: Seq<char>, r: MemoryModel| #[trigger]
        memory_context::shown_under(results, kind).contains(r) <==> results.contains(r)
            && memory_context::shown_kind(r) == kind by {
        lemma_shown_under(results, kind);
    }
}

/// The kinds with a place of their own are pairwise different.
proof fn lemma_named_distinct()
    ensures
        forall|i: int, j: int|
            0 <= i < j < memory_context::named_order().len()
                ==> #[trigger] memory_context::named_order()[i]
                != #[trigger] memory_context::named_order()[j],
{
    reveal_strlit("decision");
    reveal_strlit("fact");
    reveal_strlit("procedure");
    reveal_strlit("preference");
    reveal_strlit("entity");
    reveal_strlit("episode");
    reveal_strlit("unknown");
    assert("decision"@.len() == 8);
    assert("fact"@.len() == 4);
    assert("procedure"@.len() == 9);
    assert("preference"@.len() == 10);
    assert("entity"@.len() == 6);
    assert("episode"@.len() == 7);
    assert("unknown"@.len() == 7);
    assert("episode"@[0] != "unknown"@[0]);
}

/// The kind of a result has a section.
proof fn lemma_kind_is_placed(results: Seq<MemoryModel>, k: int)
    requires
        0 <= k < results.len(),
    ensures
        (memory_context::named_order() + memory_context::other_kinds(results)).contains(
            memory_context::shown_kind(results[k]),
        ),
{
    let named = memory_context::named_order();
    let others = memory_context::other_kinds(results);
    let kinds = named + others;
    let kind = memory_context::shown_kind(results[k]);
    law_other_kinds(results);
    if named.contains(kind) {
        let i = choose|i: int| 0 <= i < named.len() && named[i] == kind;
        assert(kinds[i] == kind);
    } else {
        assert(others.contains(kind));
        let i = choose|i: int| 0 <= i < others.len() && others[i] == kind;
        assert(kinds[named.len() + i] == kind);
    }
}

/// The body by kinds shows every result, with its place and its snippet.
proof fn lemma_typed_body(results: Seq<MemoryModel>, k: int)
    requires
        0 <= k < results.len(),
    ensures
        text::contains(
            memory_context::typed_body(results),
            memory_context::location_text(results[k]),
        ),
{
    let kinds = memory_context::named_order() + memory_context::other_kinds(results);
    let kind = memory_context::shown_kind(results[k]);
    let needle = memory_context::location_text(results[k]);
    let empty = Seq::<char>::empty();
    lemma_kind_is_placed(results, k);
    let j = choose|j: int| 0 <= j < kinds.len() && kinds[j] == kind;
    lemma_shown_under(results, kind);
    let shown = memory_context::shown_under(results, kind);
    assert(results.contains(results[k]));
    assert(shown.contains(results[k]));
    let i = choose|i: int| 0 <= i < shown.len() && shown[i] == results[k];
    lemma_typed_list(kind, shown, i);
    let list = memory_context::typed_list(kind, shown);
    let head = "### "@ + memory_context::section_heading(kind) + "\n\n"@;
    lemma_contains_in(head, list, empty, needle);
    assert(head + list + empty =~= memory_context::typed_section(kind, shown));
    lemma_typed_sections(results, kinds, j, needle);
    let sections = memory_context::typed_sections(results, kinds);
    lemma_contains_in(compose::composition_intro(), sections, empty, needle);
    assert(compose::composition_intro() + sections + empty =~= memory_context::typed_body(
        results,
    ));
}

/// A memory block shows every result, with its place and its snippet.
pub proof fn law_every_memory_is_shown(
    results: Seq<MemoryModel>,
    core: Option<Seq<char>>,
    k: int,
)
    requires
        0 <= k < results.len(),
    ensures
        text::contains(
            memory_context::memory_block(results, core),
            memory_context::location_text(results[k]),
        ),
{
    let part = memory_context::results_part(results);
    let needle = memory_context::location_text(results[k]);
    let empty = Seq::<char>::empty();
    if memory_context::has_typed(results) {
        lemma_typed_body(results, k);
    } else {
        lemma_flat_list(results, k);
        let list = memory_context::flat_list(results);
        lemma_contains_in(memory_context::memory_title(), list, empty, needle);
        assert(memory_context::memory_title() + list + empty =~= part);
    }
    let before = MEMORY_CONTEXT_OPEN_TAG@.push('\n') + memory_context::core_part(core);
    let after = memory_context::MEMORY_CONTEXT_CLOSE_TAG@;
    lemma_contains_in(before, part, after, needle);
    assert(before + part + after =~= memory_context::memory_block(results, core));
}

/// The reminder in the middle of a session shows every result, with its place
/// and its snippet.
pub proof fn law_connector_shows_every_memory(results: Seq<MemoryModel>, k: int)
    requires
        0 <= k < results.len(),
    ensures
        text::contains(
            memory_context::connector_intro() + memory_context::typed_body(results),
            memory_context::location_text(results[k]),
        ),
{
    lemma_typed_body(results, k);
    let body = memory_context::typed_body(results);
    let empty = Seq::<char>::empty();
    lemma_contains_in(
        memory_context::connector_intro(),
        body,
        empty,
        memory_context::location_text(results[k]),
    );
    assert(memory_context::connector_intro() + body + empty =~= memory_context::connector_intro()
        + body);
}

// ---------------------------------------------------------------------------
// Compositional injections
// ---------------------------------------------------------------------------

/// The results of a section are all there, numbered from one.
proof fn lemma_results_text(results: Seq<ResultModel>, k: int)
    requires
        0 <= k < results.len(),
    ensures
        text::contains(
            compose::results_text(results),
            compose::result_text((k + 1) as nat, results[k]),
        ),
    decreases results.len(),
{
    let init = results.drop_last();
    let front = compose::results_text(init);
    let last = compose::result_text(results.len(), results.last());
    let empty = Seq::<char>::empty();
    if k < results.len() - 1 {
        lemma_results_text(init, k);
        assert(init[k] == results[k]);
        lemma_contains_in(empty, front, last, compose::result_text((k + 1) as nat, results[k]));
        assert(empty + front + last =~= compose::results_text(results));
    } else {
        lemma_contains(front, last, empty);
        assert(front + last + empty =~= compose::results_text(results));
    }
}

/// The section of a kind is among the sections.
proof fn lemma_kind_sections(
    groups: KindGroups,
    kinds: Seq<MemoryKind>,
    j: int,
    needle: Seq<char>,
)
    requires
        0 <= j < kinds.len(),
        text::contains(compose::section_text(kinds[j], groups.group(kinds[j])), needle),
    ensures
        text::contains(compose::kind_sections(groups, kinds), needle),
    decreases kinds.len(),
{
    let init = kinds.drop_last();
    let front = compose::kind_sections(groups, init);
    let last = compose::section_text(kinds.last(), groups.group(kinds.last()));
    let empty = Seq::<char>::empty();
    if j < init.len() {
        assert(init[j] == kinds[j]);
        lemma_kind_sections(groups, init, j, needle);
        lemma_contains_in(empty, front, last, needle);
        assert(empty + front + last =~= front + last);
    } else {
        lemma_contains_in(front, last, empty, needle);
        assert(front + last + empty =~= front + last);
    }
}

/// A compositional injection shows every result of every group.
pub proof fn law_every_result_is_injected(groups: KindGroups, kind: MemoryKind, k: int)
    requires
        0 <= k < groups.group(kind).len(),
    ensures
        text::contains(
            compose::composition_intro() + compose::kind_sections(
                groups,
                compose::section_order(),
            ),
            compose::result_text((k + 1) as nat, groups.group(kind)[k]),
        ),
{
    let results = groups.group(kind);
    let needle = compose::result_text((k + 1) as nat, results[k]);
    let kinds = compose::section_order();
    let empty = Seq::<char>::empty();
    let j: int = match kind {
        MemoryKind::Decision => 0,
        MemoryKind::Fact => 1,
        MemoryKind::Procedure => 2,
        MemoryKind::Preference => 3,
        MemoryKind::Entity => 4,
        MemoryKind::Episode => 5,
        MemoryKind::Unknown => 6,
    };
    assert(kinds[j] == kind);
    lemma_results_text(results, k);
    let head = "### "@ + crate::kind::kind_section_heading(kind) + "\n\n"@;
    let list = compose::results_text(results);
    lemma_contains_in(head, list, empty, needle);
    assert(head + list + empty =~= compose::section_text(kind, results));
    lemma_kind_sections(groups, kinds, j, needle);
    let sections = compose::kind_sections(groups, kinds);
    lemma_contains_in(compose::composition_intro(), sections, empty, needle);
    assert(compose::composition_intro() + sections + empty =~= compose::composition_intro()
        + sections);
}

// ---------------------------------------------------------------------------
// Core pins
// ---------------------------------------------------------------------------

/// The injection of core pins holds the text of every pin.
pub proof fn law_every_pin_is_injected(pins: Seq<PinModel>, k: int)
    requires
        0 <= k < pins.len(),
    ensures
        text::contains(promote::core_pin_intro() + promote::pin_texts(pins), pins[k].text),
{
    let empty = Seq::<char>::empty();
    lemma_pin_texts(pins, k);
    lemma_contains_in(promote::core_pin_intro(), promote::pin_texts(pins), empty, pins[k].text);
    assert(promote::core_pin_intro() + promote::pin_texts(pins) + empty
        =~= promote::core_pin_intro() + promote::pin_texts(pins));
}

/// The texts of pins hold that of each.
proof fn lemma_pin_texts(pins: Seq<PinModel>, k: int)
    requires
        0 <= k < pins.len(),
    ensures
        text::contains(promote::pin_texts(pins), pins[k].text),
    decreases pins.len(),
{
    let init = pins.drop_last();
    let front = promote::pin_texts(init);
    let last = promote::closed_line(pins.last().text).push('\n');
    let empty = Seq::<char>::empty();
    if k < init.len() {
        lemma_pin_texts(init, k);
        assert(init[k] == pins[k]);
        lemma_contains_in(empty, front, last, pins[k].text);
        assert(empty + front + last =~= promote::pin_texts(pins));
    } else {
        let shown = pins[k].text;
        let after = last.skip(shown.len() as int);
        assert(promote::pin_texts(pins) =~= front + shown + after);
        lemma_contains(front, shown, after);
    }
}

} // verus!
