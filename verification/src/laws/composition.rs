//! What is composed of the results of typed searches, told by the results
//! themselves.

use crate::compose;
use crate::compose::{KindBatch, ResultModel, TaggedModel};
use crate::kind::MemoryKind;
use crate::laws::cap;
use crate::laws::retrieval;
use crate::laws::terms;
use crate::text;
use vstd::prelude::*;

verus! {

// ---------------------------------------------------------------------------
// Terms
// ---------------------------------------------------------------------------

/// Whether an id names a result: it is a part of its chunk id or its path, or
/// its snippet has the field `id:` with it.
pub open spec fn names(id: Seq<char>, r: ResultModel) -> bool {
    ||| text::contains(r.chunk_id, id)
    ||| text::contains(r.path, id)
    ||| text::contains(text::lowercase(r.snippet), "id: "@ + id)
    ||| terms::has_id_field(r.snippet, id)
}

/// Whether the result at `k` is the first one of its chunk.
pub open spec fn is_first(list: Seq<TaggedModel>, k: int) -> bool {
    &&& 0 <= k < list.len()
    &&& forall|j: int|
        0 <= j < k ==> (#[trigger] list[j]).result.chunk_id != list[k].result.chunk_id
}

/// Whether the result at `j`, of another chunk, says that it supersedes the
/// one at `i`.
pub open spec fn replaces(list: Seq<TaggedModel>, j: int, i: int) -> bool {
    &&& list[j].result.chunk_id != list[i].result.chunk_id
    &&& list[j].result.supersedes matches Some(id) && names(id, list[i].result)
}

/// Whether a result of another chunk says that it supersedes the one at `i`.
pub open spec fn is_replaced(list: Seq<TaggedModel>, i: int) -> bool {
    exists|j: int| is_first(list, j) && #[trigger] replaces(list, j, i)
}

/// Whether `a` stands before `b` in a list.
pub open spec fn stands_before(list: Seq<ResultModel>, a: ResultModel, b: ResultModel) -> bool {
    exists|x: int, y: int|
        0 <= x < y < list.len() && #[trigger] list[x] == a && #[trigger] list[y] == b
}

// ---------------------------------------------------------------------------
// First results
// ---------------------------------------------------------------------------

/// The first results of their chunks are the ones that are found, in their
/// order.
proof fn lemma_first_results(list: Seq<TaggedModel>)
    ensures
        ({
            let found = compose::untagged(compose::distinct(list));
            &&& forall|k: int| #[trigger] is_first(list, k) ==> found.contains(list[k].result)
            &&& forall|m: int|
                0 <= m < found.len() ==> exists|k: int|
                    is_first(list, k) && #[trigger] found[m] == (#[trigger] list[k]).result
            &&& forall|i: int, j: int| #[trigger]
                is_first(list, i) && #[trigger] is_first(list, j) && i < j ==> stands_before(
                    found,
                    list[i].result,
                    list[j].result,
                )
        }),
    decreases list.len(),
{
    let found = compose::untagged(compose::distinct(list));
    if list.len() > 0 {
        let init = list.drop_last();
        let n = init.len() as int;
        let last = list.last();
        let before = compose::untagged(compose::distinct(init));
        lemma_first_results(init);
        retrieval::lemma_distinct(init);
        assert(list[n] == last);
        assert forall|k: int| 0 <= k < n implies is_first(init, k) == #[trigger] is_first(
            list,
            k,
        ) by {
            assert(init[k] == list[k]);
            assert forall|j: int| 0 <= j < k implies init[j] == list[j] by {}
            if is_first(init, k) {
                assert forall|j: int| 0 <= j < k implies (#[trigger] list[j]).result.chunk_id
                    != list[k].result.chunk_id by {
                    assert(init[j].result.chunk_id != init[k].result.chunk_id);
                }
            }
            if is_first(list, k) {
                assert forall|j: int| 0 <= j < k implies (#[trigger] init[j]).result.chunk_id
                    != init[k].result.chunk_id by {
                    assert(list[j].result.chunk_id != list[k].result.chunk_id);
                }
            }
        }
        let known = compose::has_chunk(before, last.result.chunk_id);
        assert(known == !is_first(list, n)) by {
            if known {
                let m = choose|m: int|
                    0 <= m < before.len() && (#[trigger] before[m]).chunk_id
                        == last.result.chunk_id;
                let k = choose|k: int|
                    is_first(init, k) && before[m] == (#[trigger] init[k]).result;
                assert(list[k].result.chunk_id == list[n].result.chunk_id);
            } else {
                assert forall|j: int| 0 <= j < n implies (#[trigger] list[j]).result.chunk_id
                    != list[n].result.chunk_id by {
                    assert(compose::has_chunk(before, init[j].result.chunk_id));
                }
            }
        }
        if known {
            assert(found =~= before);
        } else {
            assert(found =~= before.push(last.result));
        }
        assert forall|k: int| #[trigger] is_first(list, k) implies found.contains(
            list[k].result,
        ) by {
            if k < n {
                assert(is_first(init, k));
                assert(before.contains(init[k].result));
                let m = choose|m: int| 0 <= m < before.len() && before[m] == init[k].result;
                assert(found[m] == list[k].result);
            } else {
                assert(found[before.len() as int] == last.result);
            }
        }
        assert forall|m: int| 0 <= m < found.len() implies exists|k: int|
            is_first(list, k) && #[trigger] found[m] == (#[trigger] list[k]).result by {
            if m < before.len() {
                assert(found[m] == before[m]);
                let k = choose|k: int|
                    is_first(init, k) && before[m] == (#[trigger] init[k]).result;
                assert(is_first(list, k) && found[m] == list[k].result);
            } else {
                assert(is_first(list, n) && found[m] == list[n].result);
            }
        }
        assert forall|i: int, j: int| #[trigger]
            is_first(list, i) && #[trigger] is_first(list, j) && i < j implies stands_before(
            found,
            list[i].result,
            list[j].result,
        ) by {
            assert(is_first(init, i));
            if j < n {
                assert(is_first(init, j));
                assert(stands_before(before, init[i].result, init[j].result));
                let (x, y) = choose|x: int, y: int|
                    0 <= x < y < before.len() && #[trigger] before[x] == init[i].result
                        && #[trigger] before[y] == init[j].result;
                assert(found[x] == list[i].result && found[y] == list[j].result);
            } else {
                assert(before.contains(init[i].result));
                let x = choose|x: int| 0 <= x < before.len() && before[x] == init[i].result;
                assert(found[x] == list[i].result);
                assert(found[before.len() as int] == list[j].result);
            }
        }
    } else {
        assert(found.len() == 0);
    }
}

/// A found result is superseded exactly where another one replaces it.
proof fn lemma_replaced(list: Seq<TaggedModel>, m: int, i: int)
    requires
        is_first(list, i),
        0 <= m < compose::untagged(compose::distinct(list)).len(),
        compose::untagged(compose::distinct(list))[m] == list[i].result,
    ensures
        compose::is_superseded(compose::untagged(compose::distinct(list)), m) == is_replaced(
            list,
            i,
        ),
{
    let found = compose::untagged(compose::distinct(list));
    lemma_first_results(list);
    retrieval::lemma_distinct(list);
    if compose::is_superseded(found, m) {
        let x = choose|x: int|
            0 <= x < found.len() && x != m && #[trigger] compose::supersedes(found, x, m);
        assert(found[x] == found[x]);
        let j = choose|j: int| is_first(list, j) && found[x] == (#[trigger] list[j]).result;
        terms::law_declared_id(found[m].snippet, found[x].supersedes->0);
        assert(found[x].chunk_id != found[m].chunk_id) by {
            if m < x {
                assert(found[m].chunk_id != found[x].chunk_id);
            }
        }
        assert(replaces(list, j, i));
    }
    if is_replaced(list, i) {
        let j = choose|j: int| is_first(list, j) && #[trigger] replaces(list, j, i);
        assert(found.contains(list[j].result));
        let x = choose|x: int| 0 <= x < found.len() && found[x] == list[j].result;
        terms::law_declared_id(found[m].snippet, found[x].supersedes->0);
        assert(x != m);
        assert(compose::supersedes(found, x, m));
    }
}

/// A result that another one of what was found says it supersedes is dropped:
/// no composed result is of its chunk, whatever the scores, the kinds and the
/// times of the two are.
pub proof fn law_replaced_results_are_dropped(
    list: Seq<TaggedModel>,
    max_results: nat,
    i: int,
    j: int,
    id: Seq<char>,
)
    requires
        is_first(list, i),
        is_first(list, j),
        list[j].result.chunk_id != list[i].result.chunk_id,
        list[j].result.supersedes == Some(id),
        names(id, list[i].result),
    ensures
        forall|k: int|
            0 <= k < compose::composed_flat(list, max_results).len() ==> (
            #[trigger] compose::composed_flat(list, max_results)[k]).chunk_id
                != list[i].result.chunk_id,
{
    let found = compose::untagged(compose::distinct(list));
    let flat = compose::composed_flat(list, max_results);
    lemma_first_results(list);
    retrieval::law_composed_results(list, max_results);
    assert(replaces(list, j, i));
    assert(is_replaced(list, i));
    assert(found.contains(list[i].result));
    let m = choose|m: int| 0 <= m < found.len() && found[m] == list[i].result;
    lemma_replaced(list, m, i);
    assert forall|k: int| 0 <= k < flat.len() implies (#[trigger] flat[k]).chunk_id
        != list[i].result.chunk_id by {
        let x = choose|x: int|
            0 <= x < found.len() && flat[k] == #[trigger] found[x] && !compose::is_superseded(
                found,
                x,
            );
        if x < m {
            assert(found[x].chunk_id != found[m].chunk_id);
        } else if m < x {
            assert(found[m].chunk_id != found[x].chunk_id);
        }
    }
}

/// Every composed result is the first one of its chunk, and none that is
/// replaced. Where there is room, every such result is there.
pub proof fn law_what_is_composed(list: Seq<TaggedModel>, max_results: nat)
    ensures
        ({
            let flat = compose::composed_flat(list, max_results);
            &&& forall|k: int|
                0 <= k < flat.len() ==> exists|i: int|
                    is_first(list, i) && !is_replaced(list, i) && #[trigger] flat[k] == (
                    #[trigger] list[i]).result
            &&& max_results >= list.len() ==> forall|i: int| #[trigger]
                is_first(list, i) && !is_replaced(list, i) ==> flat.contains(list[i].result)
        }),
{
    let found = compose::untagged(compose::distinct(list));
    let kept = compose::survivors(found, found.len());
    let flat = compose::composed_flat(list, max_results);
    lemma_first_results(list);
    retrieval::law_composed_results(list, max_results);
    retrieval::lemma_survivors(found, found.len());
    assert forall|k: int| 0 <= k < flat.len() implies exists|i: int|
        is_first(list, i) && !is_replaced(list, i) && #[trigger] flat[k] == (
        #[trigger] list[i]).result by {
        let x = choose|x: int|
            0 <= x < found.len() && flat[k] == #[trigger] found[x] && !compose::is_superseded(
                found,
                x,
            );
        let i = choose|i: int| is_first(list, i) && found[x] == (#[trigger] list[i]).result;
        lemma_replaced(list, x, i);
        assert(is_first(list, i) && !is_replaced(list, i) && flat[k] == list[i].result);
    }
    if max_results >= list.len() {
        lemma_kept_len(list);
        cap::law_flat_list_is_in_section_order(kept, max_results);
        assert forall|i: int| #[trigger] is_first(list, i) && !is_replaced(
            list,
            i,
        ) implies flat.contains(list[i].result) by {
            let r = list[i].result;
            assert(found.contains(r));
            let m = choose|m: int| 0 <= m < found.len() && found[m] == r;
            lemma_replaced(list, m, i);
            assert(kept.contains(r));
            cap::law_section_order_keeps_results(kept, r.kind);
            retrieval::lemma_of_kind(kept, r.kind);
            retrieval::lemma_of_kind(flat, r.kind);
            assert(compose::of_kind(kept, r.kind).contains(r));
            assert(compose::of_kind(flat, r.kind).contains(r));
        }
    }
}

/// No more is kept than was returned.
proof fn lemma_kept_len(list: Seq<TaggedModel>)
    ensures
        compose::distinct(list).len() <= list.len(),
        ({
            let found = compose::untagged(compose::distinct(list));
            compose::survivors(found, found.len()).len() <= list.len()
        }),
{
    lemma_distinct_len(list);
    let found = compose::untagged(compose::distinct(list));
    lemma_survivors_len(found, found.len());
}

proof fn lemma_distinct_len(list: Seq<TaggedModel>)
    ensures
        compose::distinct(list).len() <= list.len(),
    decreases list.len(),
{
    if list.len() > 0 {
        lemma_distinct_len(list.drop_last());
    }
}

proof fn lemma_survivors_len(results: Seq<ResultModel>, n: nat)
    ensures
        compose::survivors(results, n).len() <= n,
    decreases n,
{
    if n > 0 {
        lemma_survivors_len(results, (n - 1) as nat);
    }
}

// ---------------------------------------------------------------------------
// Order
// ---------------------------------------------------------------------------

/// What survives keeps its order.
proof fn lemma_survivors_order(results: Seq<ResultModel>, n: nat, x: int, y: int)
    requires
        0 <= x < y < n <= results.len(),
        !compose::is_superseded(results, x),
        !compose::is_superseded(results, y),
    ensures
        stands_before(compose::survivors(results, n), results[x], results[y]),
    decreases n,
{
    let m = (n - 1) as nat;
    let before = compose::survivors(results, m);
    let out = compose::survivors(results, n);
    if y < m {
        lemma_survivors_order(results, m, x, y);
        let (a, b) = choose|a: int, b: int|
            0 <= a < b < before.len() && #[trigger] before[a] == results[x] && #[trigger] before[b]
                == results[y];
        assert(out[a] == results[x] && out[b] == results[y]);
    } else {
        retrieval::lemma_survivors(results, m);
        assert(before.contains(results[x]));
        let a = choose|a: int| 0 <= a < before.len() && before[a] == results[x];
        assert(out[a] == results[x] && out[before.len() as int] == results[y]);
    }
}

/// The results of a kind keep their order.
proof fn lemma_of_kind_order(
    results: Seq<ResultModel>,
    kind: MemoryKind,
    a: ResultModel,
    b: ResultModel,
)
    requires
        stands_before(results, a, b),
        a.kind == kind,
        b.kind == kind,
    ensures
        stands_before(compose::of_kind(results, kind), a, b),
    decreases results.len(),
{
    let (x, y) = choose|x: int, y: int|
        0 <= x < y < results.len() && #[trigger] results[x] == a && #[trigger] results[y] == b;
    let init = results.drop_last();
    let before = compose::of_kind(init, kind);
    let out = compose::of_kind(results, kind);
    if y < init.len() {
        assert(init[x] == a && init[y] == b);
        lemma_of_kind_order(init, kind, a, b);
        let (c, d) = choose|c: int, d: int|
            0 <= c < d < before.len() && #[trigger] before[c] == a && #[trigger] before[d] == b;
        assert(out[c] == a && out[d] == b);
    } else {
        assert(init[x] == a);
        retrieval::lemma_of_kind(init, kind);
        assert(init.contains(a));
        assert(before.contains(a));
        let c = choose|c: int| 0 <= c < before.len() && before[c] == a;
        assert(out[c] == a && out[before.len() as int] == b);
    }
}

/// Of two results of one kind, the one that was found first is preferred: the
/// other is composed only together with it, and after it.
pub proof fn law_earlier_results_are_preferred(
    list: Seq<TaggedModel>,
    max_results: nat,
    i: int,
    j: int,
)
    requires
        is_first(list, i),
        is_first(list, j),
        i < j,
        !is_replaced(list, i),
        !is_replaced(list, j),
        list[i].result.kind == list[j].result.kind,
        compose::composed_flat(list, max_results).contains(list[j].result),
    ensures
        compose::composed_flat(list, max_results).contains(list[i].result),
        stands_before(
            compose::of_kind(compose::composed_flat(list, max_results), list[i].result.kind),
            list[i].result,
            list[j].result,
        ),
{
    let found = compose::untagged(compose::distinct(list));
    let kept = compose::survivors(found, found.len());
    let flat = compose::composed_flat(list, max_results);
    let a = list[i].result;
    let b = list[j].result;
    let kind = a.kind;
    lemma_first_results(list);
    retrieval::lemma_distinct(list);
    retrieval::lemma_survivors(found, found.len());
    let (x, y) = choose|x: int, y: int|
        0 <= x < y < found.len() && #[trigger] found[x] == a && #[trigger] found[y] == b;
    lemma_replaced(list, x, i);
    lemma_replaced(list, y, j);
    lemma_survivors_order(found, found.len(), x, y);
    lemma_of_kind_order(kept, kind, a, b);
    retrieval::lemma_of_kind(flat, kind);
    retrieval::lemma_of_kind_distinct(kept, kind);
    cap::law_cap_keeps_kinds(kept, max_results, kind);
    let all = compose::of_kind(kept, kind);
    let some = compose::of_kind(flat, kind);
    assert(some.contains(b));
    let q = choose|q: int| 0 <= q < some.len() && some[q] == b;
    assert(all[q] == b);
    let (c, d) = choose|c: int, d: int|
        0 <= c < d < all.len() && #[trigger] all[c] == a && #[trigger] all[d] == b;
    if q < d {
        assert(all[q].chunk_id != all[d].chunk_id);
    } else if d < q {
        assert(all[d].chunk_id != all[q].chunk_id);
    }
    assert(some[c] == a && some[d] == b);
    assert(some.contains(a));
}

// ---------------------------------------------------------------------------
// Batches
// ---------------------------------------------------------------------------

/// The results of batches come one batch after the other, each with the kind
/// that its batch was searched for.
pub proof fn law_batches_are_taken_in_order(batches: Seq<KindBatch>, batch: KindBatch)
    ensures
        compose::all_tagged(seq![]).len() == 0,
        ({
            let before = compose::all_tagged(batches);
            let after = compose::all_tagged(batches.push(batch));
            &&& after.len() == before.len() + batch.results@.len()
            &&& forall|k: int| 0 <= k < before.len() ==> #[trigger] after[k] == before[k]
            &&& forall|k: int|
                before.len() <= k < after.len() ==> (#[trigger] after[k]).kind == batch.kind
                    && after[k].result == batch.results@[k - before.len()]@
        }),
{
    assert(batches.push(batch).drop_last() =~= batches);
}

} // verus!
