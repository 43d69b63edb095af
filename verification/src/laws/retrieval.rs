//! How a query is decomposed and how its results are composed.

use crate::compose;
use crate::compose::{Candidate, ResultModel, TaggedModel};
use crate::kind;
use crate::kind::MemoryKind;
use crate::laws::cap;
use vstd::prelude::*;

verus! {

// ---------------------------------------------------------------------------
// Decomposition
// ---------------------------------------------------------------------------

/// The kinds that are needed keep their order, and they are the needed ones.
proof fn lemma_needed(query: Seq<char>, kinds: Seq<MemoryKind>)
    requires
        forall|i: int, j: int|
            0 <= i < j < kinds.len() ==> kind::kind_rank(#[trigger] kinds[i]) < kind::kind_rank(
                #[trigger] kinds[j],
            ),
    ensures
        ({
            let out = compose::needed(query, kinds);
            &&& forall|i: int, j: int|
                0 <= i < j < out.len() ==> kind::kind_rank(#[trigger] out[i]) < kind::kind_rank(
                    #[trigger] out[j],
                )
            &&& forall|k: int| 0 <= k < out.len() ==> kinds.contains(#[trigger] out[k])
            &&& forall|kind: MemoryKind| #[trigger]
                out.contains(kind) <==> kinds.contains(kind) && compose::needs(query, kind)
        }),
    decreases kinds.len(),
{
    let out = compose::needed(query, kinds);
    if kinds.len() > 0 {
        let init = kinds.drop_last();
        let last = kinds.last();
        let before = compose::needed(query, init);
        assert forall|i: int, j: int| 0 <= i < j < init.len() implies kind::kind_rank(
            #[trigger] init[i],
        ) < kind::kind_rank(#[trigger] init[j]) by {
            assert(init[i] == kinds[i] && init[j] == kinds[j]);
        }
        lemma_needed(query, init);
        assert forall|k: int| 0 <= k < before.len() implies kind::kind_rank(#[trigger] before[k])
            < kind::kind_rank(last) by {
            assert(init.contains(before[k]));
            let i = choose|i: int| 0 <= i < init.len() && init[i] == before[k];
            assert(kinds[i] == init[i] && kinds[kinds.len() - 1] == last);
        }
        assert forall|kind: MemoryKind| #[trigger] kinds.contains(kind) <==> init.contains(kind)
            || kind == last by {
            if kinds.contains(kind) {
                let i = choose|i: int| 0 <= i < kinds.len() && kinds[i] == kind;
                if i < init.len() {
                    assert(init[i] == kind);
                }
            }
            if init.contains(kind) {
                let i = choose|i: int| 0 <= i < init.len() && init[i] == kind;
                assert(kinds[i] == kind);
            }
            if kind == last {
                assert(kinds[kinds.len() - 1] == kind);
            }
        }
        assert forall|kind: MemoryKind| #[trigger] out.contains(kind) <==> kinds.contains(kind)
            && compose::needs(query, kind) by {
            assert(before.contains(kind) <==> init.contains(kind) && compose::needs(query, kind));
            if compose::needs(query, last) {
                if before.contains(kind) {
                    let i = choose|i: int| 0 <= i < before.len() && before[i] == kind;
                    assert(out[i] == kind);
                }
                if kind == last {
                    assert(out[out.len() - 1] == kind);
                }
                if out.contains(kind) {
                    let i = choose|i: int| 0 <= i < out.len() && out[i] == kind;
                    if i < before.len() {
                        assert(before[i] == kind);
                    }
                }
            }
        }
        assert forall|k: int| 0 <= k < out.len() implies kinds.contains(#[trigger] out[k]) by {
            assert(out.contains(out[k]));
        }
        assert forall|i: int, j: int| 0 <= i < j < out.len() implies kind::kind_rank(
            #[trigger] out[i],
        ) < kind::kind_rank(#[trigger] out[j]) by {
            assert(out[i] == before[i]);
            if j < before.len() {
                assert(out[j] == before[j]);
            }
        }
    } else {
        assert(out.len() == 0);
    }
}

/// The typed kinds, each with its place.
proof fn lemma_typed_kinds()
    ensures
        forall|kind: MemoryKind| #[trigger]
            compose::typed_kinds().contains(kind) <==> kind != MemoryKind::Unknown,
        forall|i: int, j: int|
            0 <= i < j < compose::typed_kinds().len() ==> kind::kind_rank(
                #[trigger] compose::typed_kinds()[i],
            ) < kind::kind_rank(#[trigger] compose::typed_kinds()[j]),
{
    let all = compose::typed_kinds();
    assert forall|kind: MemoryKind| #[trigger] all.contains(kind) <==> kind
        != MemoryKind::Unknown by {
        if kind != MemoryKind::Unknown {
            assert(all[kind::kind_rank(kind)] == kind);
        }
    }
}

/// A query asks for no unknown kind.
proof fn lemma_unknown_not_needed(query: Seq<char>)
    ensures
        !compose::needs(query, MemoryKind::Unknown),
{
}

/// A query is decomposed into exactly the kinds that it needs, each once and
/// in the order of kinds; an unknown kind is never among them.
pub proof fn law_query_kinds(query: Seq<char>)
    ensures
        forall|kind: MemoryKind| #[trigger]
            compose::query_kinds(query).contains(kind) <==> compose::needs(query, kind),
        !compose::query_kinds(query).contains(MemoryKind::Unknown),
        forall|i: int, j: int|
            0 <= i < j < compose::query_kinds(query).len() ==> kind::kind_rank(
                #[trigger] compose::query_kinds(query)[i],
            ) < kind::kind_rank(#[trigger] compose::query_kinds(query)[j]),
{
    lemma_typed_kinds();
    lemma_needed(query, compose::typed_kinds());
    lemma_unknown_not_needed(query);
}

/// A query that joins two questions and tells no kind, or only a decision, a
/// procedure or a fact, is broadened to two kinds or more.
pub proof fn law_joined_query_is_compositional(query: Seq<char>)
    requires
        compose::is_joined(query),
        compose::asks_for_none(query) || compose::asks_only_for(query, MemoryKind::Decision)
            || compose::asks_only_for(query, MemoryKind::Procedure) || compose::asks_only_for(
            query,
            MemoryKind::Fact,
        ),
    ensures
        compose::query_kinds(query).len() >= 2,
{
    law_query_kinds(query);
    let kinds = compose::query_kinds(query);
    let (a, b) = if compose::asks_only_for(query, MemoryKind::Fact) {
        (MemoryKind::Fact, MemoryKind::Decision)
    } else {
        (MemoryKind::Decision, MemoryKind::Procedure)
    };
    assert(kinds.contains(a));
    assert(kinds.contains(b));
    let i = choose|i: int| 0 <= i < kinds.len() && kinds[i] == a;
    let j = choose|j: int| 0 <= j < kinds.len() && kinds[j] == b;
    assert(i != j);
}

/// A query that joins no questions is not broadened: it needs the kinds that
/// it asks for, and no other.
pub proof fn law_single_query_is_not_broadened(query: Seq<char>, kind: MemoryKind)
    requires
        !compose::is_joined(query),
    ensures
        compose::query_kinds(query).contains(kind) <==> compose::asks_for(query, kind),
{
    law_query_kinds(query);
}

// ---------------------------------------------------------------------------
// Composition
// ---------------------------------------------------------------------------

/// Whether no two results are of the same chunk.
pub open spec fn has_distinct_chunks(results: Seq<ResultModel>) -> bool {
    forall|i: int, j: int|
        0 <= i < j < results.len() ==> (#[trigger] results[i]).chunk_id != (
        #[trigger] results[j]).chunk_id
}

/// Each chunk is found once, and every chunk that was returned is found.
pub proof fn lemma_distinct(list: Seq<TaggedModel>)
    ensures
        has_distinct_chunks(compose::untagged(compose::distinct(list))),
        forall|k: int|
            0 <= k < compose::distinct(list).len() ==> list.contains(
                #[trigger] compose::distinct(list)[k],
            ),
        forall|k: int|
            0 <= k < list.len() ==> compose::has_chunk(
                compose::untagged(compose::distinct(list)),
                (#[trigger] list[k]).result.chunk_id,
            ),
    decreases list.len(),
{
    let out = compose::distinct(list);
    let found = compose::untagged(out);
    if list.len() > 0 {
        let init = list.drop_last();
        let before = compose::distinct(init);
        let earlier = compose::untagged(before);
        lemma_distinct(init);
        assert forall|k: int| 0 <= k < out.len() implies list.contains(#[trigger] out[k]) by {
            if k < before.len() {
                assert(out[k] == before[k]);
                let j = choose|j: int| 0 <= j < init.len() && init[j] == before[k];
                assert(list[j] == out[k]);
            } else {
                assert(list[list.len() - 1] == out[k]);
            }
        }
        if compose::has_chunk(earlier, list.last().result.chunk_id) {
            assert(found =~= earlier);
        } else {
            assert(found =~= earlier.push(list.last().result));
        }
        assert forall|i: int, j: int| 0 <= i < j < found.len() implies (
        #[trigger] found[i]).chunk_id != (#[trigger] found[j]).chunk_id by {
            assert(found[i] == earlier[i]);
            if j < earlier.len() {
                assert(found[j] == earlier[j]);
            }
        }
        assert forall|k: int| 0 <= k < list.len() implies compose::has_chunk(
            found,
            (#[trigger] list[k]).result.chunk_id,
        ) by {
            if k < init.len() {
                assert(list[k] == init[k]);
                let j = choose|j: int|
                    0 <= j < earlier.len() && (#[trigger] earlier[j]).chunk_id
                        == init[k].result.chunk_id;
                assert(found[j] == earlier[j]);
            } else if !compose::has_chunk(earlier, list.last().result.chunk_id) {
                assert(found[found.len() - 1] == list.last().result);
            }
        }
    } else {
        assert(found.len() == 0);
    }
}

/// The survivors are those results that no other supersedes, in their order.
pub proof fn lemma_survivors(results: Seq<ResultModel>, n: nat)
    requires
        n <= results.len(),
    ensures
        ({
            let out = compose::survivors(results, n);
            &&& forall|k: int|
                0 <= k < out.len() ==> exists|i: int|
                    0 <= i < n && #[trigger] out[k] == #[trigger] results[i]
                        && !compose::is_superseded(results, i)
            &&& forall|i: int|
                0 <= i < n && !#[trigger] compose::is_superseded(results, i) ==> out.contains(
                    results[i],
                )
            &&& has_distinct_chunks(results) ==> has_distinct_chunks(out)
        }),
    decreases n,
{
    let out = compose::survivors(results, n);
    if n > 0 {
        let m = (n - 1) as nat;
        let before = compose::survivors(results, m);
        lemma_survivors(results, m);
        assert forall|k: int| 0 <= k < out.len() implies exists|i: int|
            0 <= i < n && #[trigger] out[k] == #[trigger] results[i] && !compose::is_superseded(
                results,
                i,
            ) by {
            if k < before.len() {
                assert(out[k] == before[k]);
            } else {
                assert(out[k] == results[m as int]);
            }
        }
        assert forall|i: int|
            0 <= i < n && !#[trigger] compose::is_superseded(results, i) implies out.contains(
            results[i],
        ) by {
            if i < m {
                let k = choose|k: int| 0 <= k < before.len() && before[k] == results[i];
                assert(out[k] == before[k]);
            } else {
                assert(out[out.len() - 1] == results[i]);
            }
        }
        if has_distinct_chunks(results) {
            assert forall|i: int, j: int| 0 <= i < j < out.len() implies (
            #[trigger] out[i]).chunk_id != (#[trigger] out[j]).chunk_id by {
                assert(out[i] == before[i]);
                if j < before.len() {
                    assert(out[j] == before[j]);
                } else {
                    let k = choose|k: int| 0 <= k < m && before[i] == #[trigger] results[k]
                        && !compose::is_superseded(results, k);
                    assert(out[j] == results[m as int]);
                    assert(results[k].chunk_id != results[m as int].chunk_id);
                }
            }
        }
    }
}

/// The results of a kind are those that have it.
pub proof fn lemma_of_kind(results: Seq<ResultModel>, kind: MemoryKind)
    ensures
        forall|r: ResultModel| #[trigger]
            compose::of_kind(results, kind).contains(r) <==> results.contains(r) && r.kind == kind,
    decreases results.len(),
{
    let out = compose::of_kind(results, kind);
    if results.len() > 0 {
        let init = results.drop_last();
        let before = compose::of_kind(init, kind);
        lemma_of_kind(init, kind);
        assert forall|r: ResultModel| #[trigger] out.contains(r) <==> results.contains(r)
            && r.kind == kind by {
            assert(before.contains(r) <==> init.contains(r) && r.kind == kind);
            if results.contains(r) {
                let i = choose|i: int| 0 <= i < results.len() && results[i] == r;
                if i < init.len() {
                    assert(init[i] == r);
                }
            }
            if init.contains(r) {
                let i = choose|i: int| 0 <= i < init.len() && init[i] == r;
                assert(results[i] == r);
            }
            assert(results[results.len() - 1] == results.last());
            if results.last().kind == kind {
                assert(out[out.len() - 1] == results.last());
                if before.contains(r) {
                    let i = choose|i: int| 0 <= i < before.len() && before[i] == r;
                    assert(out[i] == r);
                }
                if out.contains(r) {
                    let i = choose|i: int| 0 <= i < out.len() && out[i] == r;
                    if i < before.len() {
                        assert(before[i] == r);
                    }
                }
            }
        }
    } else {
        assert(out.len() == 0);
    }
}

/// The results of a kind are of different chunks where all are.
pub proof fn lemma_of_kind_distinct(results: Seq<ResultModel>, kind: MemoryKind)
    requires
        has_distinct_chunks(results),
    ensures
        has_distinct_chunks(compose::of_kind(results, kind)),
    decreases results.len(),
{
    if results.len() > 0 {
        let init = results.drop_last();
        let last = results.last();
        let before = compose::of_kind(init, kind);
        let out = compose::of_kind(results, kind);
        assert forall|i: int, j: int| 0 <= i < j < init.len() implies (
        #[trigger] init[i]).chunk_id != (#[trigger] init[j]).chunk_id by {
            assert(init[i] == results[i] && init[j] == results[j]);
        }
        lemma_of_kind_distinct(init, kind);
        lemma_of_kind(init, kind);
        assert forall|i: int, j: int| 0 <= i < j < out.len() implies (#[trigger] out[i]).chunk_id
            != (#[trigger] out[j]).chunk_id by {
            assert(out[i] == before[i]);
            if j < before.len() {
                assert(out[j] == before[j]);
            } else {
                assert(before.contains(before[i]));
                let k = choose|k: int| 0 <= k < init.len() && init[k] == before[i];
                assert(results[k] == init[k]);
                assert(results[results.len() - 1] == last);
            }
        }
    } else {
        assert(compose::of_kind(results, kind).len() == 0);
    }
}

/// What shares take are results, of different chunks where all are.
proof fn lemma_by_share_from(results: Seq<ResultModel>, shares: Seq<nat>, n: nat)
    requires
        has_distinct_chunks(results),
        n <= compose::section_order().len(),
        shares.len() == compose::section_order().len(),
        forall|j: int|
            0 <= j < shares.len() ==> #[trigger] shares[j] <= compose::section_sizes(results)[j],
    ensures
        ({
            let out = compose::by_share(results, shares, n);
            &&& has_distinct_chunks(out)
            &&& forall|i: int| 0 <= i < out.len() ==> results.contains(#[trigger] out[i])
        }),
    decreases n,
{
    if n > 0 {
        let m = (n - 1) as nat;
        let own = compose::section_order()[m as int];
        let front = compose::by_share(results, shares, m);
        let group = compose::of_kind(results, own);
        let part = group.take(shares[m as int] as int);
        let out = compose::by_share(results, shares, n);
        lemma_by_share_from(results, shares, m);
        cap::lemma_by_share(results, shares, m, own);
        assert(shares[m as int] <= compose::section_sizes(results)[m as int]);
        lemma_of_kind(results, own);
        lemma_of_kind_distinct(results, own);
        cap::lemma_of_kind_kinds(results, own);
        assert forall|i: int| 0 <= i < out.len() implies results.contains(#[trigger] out[i]) by {
            if i < front.len() {
                assert(out[i] == front[i]);
            } else {
                assert(out[i] == group[i - front.len()]);
                assert(group.contains(out[i]));
            }
        }
        assert forall|i: int, j: int| 0 <= i < j < out.len() implies (#[trigger] out[i]).chunk_id
            != (#[trigger] out[j]).chunk_id by {
            if j < front.len() {
                assert(out[i] == front[i] && out[j] == front[j]);
            } else {
                let b = j - front.len();
                assert(out[j] == group[b]);
                if i < front.len() {
                    assert(out[i] == front[i]);
                    assert(cap::section_rank(front[i].kind) < m);
                    assert(group[b].kind == own);
                    assert(cap::section_rank(own) == m);
                    assert(results.contains(out[i]) && results.contains(out[j]));
                    let x = choose|x: int| 0 <= x < results.len() && results[x] == out[i];
                    let y = choose|y: int| 0 <= y < results.len() && results[y] == out[j];
                    assert(x != y);
                    assert(results[x].chunk_id != results[y].chunk_id) by {
                        if y < x {
                            assert(results[y].chunk_id != results[x].chunk_id);
                        }
                    }
                } else {
                    assert(out[i] == group[i - front.len()]);
                }
            }
        }
    }
}

/// What the cap takes are results of different chunks, and all of them where
/// there is room.
proof fn lemma_capped(results: Seq<ResultModel>, max_results: nat)
    requires
        has_distinct_chunks(results),
    ensures
        ({
            let flat = compose::capped(results, max_results);
            &&& has_distinct_chunks(flat)
            &&& forall|i: int| 0 <= i < flat.len() ==> results.contains(#[trigger] flat[i])
            &&& flat.len() < max_results ==> forall|r: ResultModel|
                results.contains(r) ==> #[trigger] flat.contains(r)
        }),
{
    let flat = compose::capped(results, max_results);
    let sizes = compose::section_sizes(results);
    compose::lemma_shares_fit(sizes, max_results);
    lemma_by_share_from(
        results,
        compose::section_shares(sizes, max_results),
        compose::section_order().len(),
    );
    cap::law_cap_keeps_kinds(results, max_results, MemoryKind::Unknown);
    if flat.len() < max_results {
        cap::law_flat_list_is_in_section_order(results, max_results);
        assert forall|r: ResultModel| results.contains(r) implies #[trigger] flat.contains(r) by {
            cap::law_section_order_keeps_results(results, r.kind);
            lemma_of_kind(results, r.kind);
            lemma_of_kind(flat, r.kind);
            assert(compose::of_kind(results, r.kind).contains(r));
            assert(compose::of_kind(flat, r.kind).contains(r));
        }
    }
}

/// What is composed of the results of typed searches holds each chunk once,
/// at most `max_results` of them, and nothing that was not returned. No
/// result that is kept is superseded by another one that was found, and where
/// there is room every other one is kept.
pub proof fn law_composed_results(list: Seq<TaggedModel>, max_results: nat)
    ensures
        ({
            let found = compose::untagged(compose::distinct(list));
            let flat = compose::composed_flat(list, max_results);
            &&& flat.len() <= max_results
            &&& has_distinct_chunks(flat)
            &&& forall|k: int|
                0 <= k < flat.len() ==> exists|i: int|
                    0 <= i < found.len() && #[trigger] flat[k] == #[trigger] found[i]
                        && !compose::is_superseded(found, i)
            &&& forall|i: int, j: int|
                0 <= i < flat.len() && 0 <= j < flat.len() && i != j
                    ==> !#[trigger] compose::supersedes(flat, j, i)
            &&& flat.len() < max_results ==> forall|i: int|
                0 <= i < found.len() && !#[trigger] compose::is_superseded(found, i)
                    ==> flat.contains(found[i])
            &&& has_distinct_chunks(found)
            &&& forall|k: int|
                0 <= k < list.len() ==> compose::has_chunk(
                    found,
                    (#[trigger] list[k]).result.chunk_id,
                )
        }),
{
    let found = compose::untagged(compose::distinct(list));
    let kept = compose::survivors(found, found.len());
    let flat = compose::composed_flat(list, max_results);
    lemma_distinct(list);
    lemma_survivors(found, found.len());
    lemma_capped(kept, max_results);
    cap::law_cap_keeps_kinds(kept, max_results, MemoryKind::Unknown);
    assert forall|k: int| 0 <= k < flat.len() implies exists|i: int|
        0 <= i < found.len() && #[trigger] flat[k] == #[trigger] found[i]
            && !compose::is_superseded(found, i) by {
        assert(kept.contains(flat[k]));
        let i = choose|i: int| 0 <= i < kept.len() && kept[i] == flat[k];
        assert(kept[i] == flat[k]);
    }
    assert forall|i: int, j: int|
        0 <= i < flat.len() && 0 <= j < flat.len() && i != j implies !#[trigger] compose::supersedes(
    flat, j, i) by {
        let a = choose|a: int|
            0 <= a < found.len() && flat[i] == #[trigger] found[a] && !compose::is_superseded(
                found,
                a,
            );
        let b = choose|b: int|
            0 <= b < found.len() && flat[j] == #[trigger] found[b] && !compose::is_superseded(
                found,
                b,
            );
        if a == b {
            if i < j {
                assert(flat[i].chunk_id != flat[j].chunk_id);
            } else {
                assert(flat[j].chunk_id != flat[i].chunk_id);
            }
        }
        assert(!compose::supersedes(found, b, a));
    }
    if flat.len() < max_results {
        assert forall|i: int|
            0 <= i < found.len() && !#[trigger] compose::is_superseded(
                found,
                i,
            ) implies flat.contains(found[i]) by {
            assert(kept.contains(found[i]));
        }
    }
}

/// The cap on composed results keeps the diversity of kinds: as many results
/// are kept as the cap allows, of each kind the first ones, and where there is
/// a place for every kind, none is left out.
pub proof fn law_composed_results_keep_kinds(
    list: Seq<TaggedModel>,
    max_results: nat,
    kind: MemoryKind,
)
    ensures
        ({
            let found = compose::untagged(compose::distinct(list));
            let kept = compose::survivors(found, found.len());
            let flat = compose::composed_flat(list, max_results);
            let of_flat = compose::of_kind(flat, kind);
            let of_kept = compose::of_kind(kept, kind);
            &&& flat.len() == (if kept.len() <= max_results {
                kept.len()
            } else {
                max_results
            })
            &&& of_flat.len() <= of_kept.len()
            &&& of_flat == of_kept.take(of_flat.len() as int)
            &&& max_results >= cap::kinds_in(kept) && of_kept.len() > 0 ==> of_flat.len() > 0
        }),
{
    let found = compose::untagged(compose::distinct(list));
    cap::law_cap_keeps_kinds(compose::survivors(found, found.len()), max_results, kind);
}

/// Composed results are in section order, and where nothing is cut off they
/// are all that is kept, in section order.
pub proof fn law_composed_results_are_in_section_order(list: Seq<TaggedModel>, max_results: nat)
    ensures
        ({
            let found = compose::untagged(compose::distinct(list));
            let kept = compose::survivors(found, found.len());
            let flat = compose::composed_flat(list, max_results);
            &&& forall|i: int, j: int|
                0 <= i < j < flat.len() ==> cap::section_rank((#[trigger] flat[i]).kind)
                    <= cap::section_rank((#[trigger] flat[j]).kind)
            &&& flat == compose::in_section_order(flat)
            &&& kept.len() <= max_results ==> flat == compose::in_section_order(kept)
        }),
{
    let found = compose::untagged(compose::distinct(list));
    cap::law_flat_list_is_in_section_order(
        compose::survivors(found, found.len()),
        max_results,
    );
}

/// Results that were searched for as what they are are grouped by their kind.
proof fn lemma_tagged_as(list: Seq<TaggedModel>, kind: MemoryKind)
    requires
        forall|k: int| 0 <= k < list.len() ==> (#[trigger] list[k]).result.kind == list[k].kind,
    ensures
        compose::tagged_as(list, kind) == compose::of_kind(compose::untagged(list), kind),
    decreases list.len(),
{
    if list.len() > 0 {
        let init = list.drop_last();
        assert forall|k: int| 0 <= k < init.len() implies (#[trigger] init[k]).result.kind
            == init[k].kind by {
            assert(init[k] == list[k]);
        }
        lemma_tagged_as(init, kind);
        assert(compose::untagged(list).drop_last() =~= compose::untagged(init));
        assert(list[list.len() - 1] == list.last());
    } else {
        assert(compose::untagged(list).len() == 0);
    }
}

/// Where each search returned results of the kind that it was for, the groups
/// are the flat list split by kind: every result stands in the group of its
/// kind and in no other.
pub proof fn law_groups_split_the_flat_list(
    list: Seq<TaggedModel>,
    max_results: nat,
    kind: MemoryKind,
)
    requires
        forall|k: int| 0 <= k < list.len() ==> (#[trigger] list[k]).result.kind == list[k].kind,
    ensures
        ({
            let flat = compose::composed_flat(list, max_results);
            let group = compose::composed_group(list, max_results, kind);
            &&& group == compose::of_kind(flat, kind)
            &&& forall|r: ResultModel| #[trigger]
                group.contains(r) <==> flat.contains(r) && r.kind == kind
        }),
{
    let seen = compose::distinct(list);
    let found = compose::untagged(seen);
    let flat = compose::composed_flat(list, max_results);
    if !compose::is_regrouped(list, max_results) {
        lemma_distinct(list);
        assert forall|k: int| 0 <= k < seen.len() implies (#[trigger] seen[k]).result.kind
            == seen[k].kind by {
            assert(list.contains(seen[k]));
        }
        lemma_tagged_as(seen, kind);
        compose::lemma_nothing_superseded(found, found.len());
        assert(found.take(found.len() as int) =~= found);
        cap::law_flat_list_is_in_section_order(found, max_results);
        cap::law_section_order_keeps_results(found, kind);
    }
    lemma_of_kind(flat, kind);
}

/// The groups of an untyped search are its flat list split by kind: every
/// result stands in the group of its own kind and in no other.
pub proof fn law_untyped_groups(results: Seq<ResultModel>, kind: MemoryKind)
    ensures
        ({
            let flat = compose::in_section_order(results);
            let group = compose::of_kind(results, kind);
            &&& flat.len() == results.len()
            &&& group == compose::of_kind(flat, kind)
            &&& forall|r: ResultModel| #[trigger]
                group.contains(r) <==> results.contains(r) && r.kind == kind
        }),
{
    lemma_of_kind(results, kind);
    cap::law_section_order_keeps_results(results, kind);
}

// ---------------------------------------------------------------------------
// Merging
// ---------------------------------------------------------------------------

/// The chunks of the candidates that are new.
proof fn lemma_new_candidates<T>(known: Seq<Candidate<T>>, list: Seq<Candidate<T>>)
    ensures
        forall|id: Seq<char>| #[trigger]
            compose::has_candidate(compose::new_candidates(known, list), id)
                <==> compose::has_candidate(list, id) && !compose::has_candidate(known, id),
    decreases list.len(),
{
    let out = compose::new_candidates(known, list);
    if list.len() > 0 {
        let init = list.drop_last();
        let last = list.last();
        let before = compose::new_candidates(known, init);
        lemma_new_candidates(known, init);
        assert forall|id: Seq<char>| #[trigger] compose::has_candidate(out, id)
            <==> compose::has_candidate(list, id) && !compose::has_candidate(known, id) by {
            assert(compose::has_candidate(before, id) <==> compose::has_candidate(init, id)
                && !compose::has_candidate(known, id));
            assert(list[list.len() - 1] == last);
            if compose::has_candidate(list, id) {
                let i = choose|i: int| 0 <= i < list.len() && (#[trigger] list[i]).chunk_id@ == id;
                if i < init.len() {
                    assert(init[i] == list[i]);
                }
            }
            if compose::has_candidate(init, id) {
                let i = choose|i: int| 0 <= i < init.len() && (#[trigger] init[i]).chunk_id@ == id;
                assert(list[i] == init[i]);
            }
            if !compose::has_candidate(known, last.chunk_id@) {
                assert(out[out.len() - 1] == last);
                if compose::has_candidate(before, id) {
                    let i = choose|i: int|
                        0 <= i < before.len() && (#[trigger] before[i]).chunk_id@ == id;
                    assert(out[i] == before[i]);
                }
                if compose::has_candidate(out, id) {
                    let i = choose|i: int|
                        0 <= i < out.len() && (#[trigger] out[i]).chunk_id@ == id;
                    if i < before.len() {
                        assert(before[i] == out[i]);
                    }
                }
            }
        }
    } else {
        assert(out.len() == 0);
    }
}

/// Merged candidates cover exactly the chunks of both lists, and none of the
/// second list's is added where the first has its chunk.
pub proof fn law_merged_candidates<T>(all: Seq<Candidate<T>>, evergreen: Seq<Candidate<T>>)
    ensures
        ({
            let merged = all + compose::new_candidates(all, evergreen);
            &&& forall|id: Seq<char>| #[trigger]
                compose::has_candidate(merged, id) <==> compose::has_candidate(all, id)
                    || compose::has_candidate(evergreen, id)
            &&& forall|k: int|
                all.len() <= k < merged.len() ==> !compose::has_candidate(
                    all,
                    (#[trigger] merged[k]).chunk_id@,
                )
        }),
{
    let added = compose::new_candidates(all, evergreen);
    let merged = all + added;
    lemma_new_candidates(all, evergreen);
    assert forall|id: Seq<char>| #[trigger] compose::has_candidate(merged, id)
        <==> compose::has_candidate(all, id) || compose::has_candidate(evergreen, id) by {
        assert(compose::has_candidate(added, id) <==> compose::has_candidate(evergreen, id)
            && !compose::has_candidate(all, id));
        if compose::has_candidate(merged, id) {
            let i = choose|i: int| 0 <= i < merged.len() && (#[trigger] merged[i]).chunk_id@ == id;
            if i < all.len() {
                assert(all[i] == merged[i]);
            } else {
                assert(added[i - all.len()] == merged[i]);
            }
        }
        if compose::has_candidate(all, id) {
            let i = choose|i: int| 0 <= i < all.len() && (#[trigger] all[i]).chunk_id@ == id;
            assert(merged[i] == all[i]);
        }
        if compose::has_candidate(added, id) {
            let i = choose|i: int| 0 <= i < added.len() && (#[trigger] added[i]).chunk_id@ == id;
            assert(merged[all.len() + i] == added[i]);
        }
    }
    assert forall|k: int| all.len() <= k < merged.len() implies !compose::has_candidate(
        all,
        (#[trigger] merged[k]).chunk_id@,
    ) by {
        assert(merged[k] == added[k - all.len()]);
        assert(compose::has_candidate(added, merged[k].chunk_id@));
    }
}

} // verus!
