//! Which searches run, when they run again, and how their results are grouped.

use crate::compose;
use crate::compose::{Candidate, ResultModel, SearchRequest, TaggedModel};
use crate::kind::MemoryKind;
use crate::laws::composition;
use crate::laws::retrieval;
use crate::memory_context;
use crate::memory_context::MemoryModel;
use crate::text;
use vstd::prelude::*;

verus! {

// ---------------------------------------------------------------------------
// Plans
// ---------------------------------------------------------------------------

/// The search for one kind asks for two results of that kind alone, none of
/// them superseded, with the lower floor for scores.
pub proof fn law_kind_search(request: SearchRequest, kind: MemoryKind)
    ensures
        compose::is_kind_search(request, kind) <==> {
            &&& request.filter.kinds is Some
            &&& request.filter.kinds->0@ == seq![kind]
            &&& request.filter.exclude_superseded
            &&& request.max_results == 2
            &&& request.lower_floor
        },
{
}

/// The search over all kinds asks for as many results as are wanted, none of
/// them superseded, with the usual floor for scores.
pub proof fn law_untyped_search(request: SearchRequest, max_results: usize)
    ensures
        compose::is_untyped_search(request, max_results) <==> {
            &&& request.filter.kinds is None
            &&& request.filter.exclude_superseded
            &&& request.max_results == max_results
            &&& !request.lower_floor
        },
{
}

/// A query is decomposed into kinds in this order: facts, decisions,
/// preferences, procedures, episodes and entities.
pub proof fn law_order_of_query_kinds(query: Seq<char>)
    ensures
        compose::query_kinds(query) == seq![
            MemoryKind::Fact,
            MemoryKind::Decision,
            MemoryKind::Preference,
            MemoryKind::Procedure,
            MemoryKind::Episode,
            MemoryKind::Entity,
        ].filter(|kind: MemoryKind| compose::query_kinds(query).contains(kind)),
{
    retrieval::law_query_kinds(query);
    let all = seq![
        MemoryKind::Fact,
        MemoryKind::Decision,
        MemoryKind::Preference,
        MemoryKind::Procedure,
        MemoryKind::Episode,
        MemoryKind::Entity,
    ];
    assert(compose::typed_kinds() =~= all);
    lemma_needed(query, all);
}

proof fn lemma_needed(query: Seq<char>, kinds: Seq<MemoryKind>)
    requires
        forall|kind: MemoryKind| #[trigger]
            compose::query_kinds(query).contains(kind) <==> compose::needs(query, kind),
    ensures
        compose::needed(query, kinds) == kinds.filter(
            |kind: MemoryKind| compose::query_kinds(query).contains(kind),
        ),
    decreases kinds.len(),
{
    reveal(Seq::filter);
    if kinds.len() > 0 {
        lemma_needed(query, kinds.drop_last());
        assert(compose::query_kinds(query).contains(kinds.last()) == compose::needs(
            query,
            kinds.last(),
        ));
    }
}

// ---------------------------------------------------------------------------
// When retrieval runs again
// ---------------------------------------------------------------------------

/// Whether a query needs two different kinds.
pub open spec fn needs_two_kinds(query: Seq<char>) -> bool {
    exists|a: MemoryKind, b: MemoryKind|
        a != b && #[trigger] compose::query_kinds(query).contains(a)
            && #[trigger] compose::query_kinds(query).contains(b)
}

/// Retrieval runs again exactly after the first turn, for a query of at least
/// twenty bytes, white space around it not counted, that is no greeting and
/// needs two different kinds.
pub proof fn law_when_retrieval_runs_again(
    query: Seq<char>,
    first_turn_done: bool,
    greeting: bool,
)
    ensures
        memory_context::is_connector_due(query, first_turn_done, greeting) <==> {
            &&& first_turn_done
            &&& !greeting
            &&& vstd::utf8::encode_utf8(text::trim(query)).len() >= 20
            &&& needs_two_kinds(text::trim(query))
        },
{
    let q = text::trim(query);
    let kinds = compose::query_kinds(q);
    retrieval::law_query_kinds(q);
    if kinds.len() >= 2 {
        assert(kinds.contains(kinds[0]));
        assert(kinds.contains(kinds[1]));
        assert(kinds[0] != kinds[1]);
    }
    if needs_two_kinds(q) {
        let (a, b) = choose|a: MemoryKind, b: MemoryKind|
            a != b && #[trigger] kinds.contains(a) && #[trigger] kinds.contains(b);
        let i = choose|i: int| 0 <= i < kinds.len() && kinds[i] == a;
        let j = choose|j: int| 0 <= j < kinds.len() && kinds[j] == b;
        assert(i != j);
    }
}

// ---------------------------------------------------------------------------
// Groups
// ---------------------------------------------------------------------------

/// The results of a kind are those that have it, in their order.
pub proof fn law_results_of_a_kind(results: Seq<ResultModel>, kind: MemoryKind)
    ensures
        compose::of_kind(results, kind) == results.filter(|r: ResultModel| r.kind == kind),
    decreases results.len(),
{
    reveal(Seq::filter);
    if results.len() > 0 {
        law_results_of_a_kind(results.drop_last(), kind);
    }
}

/// The results that are shown under a kind are those whose shown kind it is,
/// in their order.
pub proof fn law_results_under_a_kind(results: Seq<MemoryModel>, kind: Seq<char>)
    ensures
        memory_context::shown_under(results, kind) == results.filter(
            |r: MemoryModel|
                if r.kind.len() == 0 {
                    kind == "unknown"@
                } else {
                    kind == r.kind
                },
        ),
    decreases results.len(),
{
    reveal(Seq::filter);
    if results.len() > 0 {
        law_results_under_a_kind(results.drop_last(), kind);
    }
}

/// Merged candidates are the first list, and those of the second whose chunk
/// is not in the first, in their order.
pub proof fn law_merged_candidates_in_order<T>(
    all: Seq<Candidate<T>>,
    evergreen: Seq<Candidate<T>>,
)
    ensures
        compose::new_candidates(all, evergreen) == evergreen.filter(
            |c: Candidate<T>|
                forall|k: int| 0 <= k < all.len() ==> (#[trigger] all[k]).chunk_id@ != c.chunk_id@,
        ),
    decreases evergreen.len(),
{
    reveal(Seq::filter);
    if evergreen.len() > 0 {
        law_merged_candidates_in_order(all, evergreen.drop_last());
    }
}

/// The first results of their chunks, with the kind that each was searched
/// for.
proof fn lemma_tagged_as(list: Seq<TaggedModel>, kind: MemoryKind)
    ensures
        compose::tagged_as(list, kind) == compose::untagged(
            list.filter(|t: TaggedModel| t.kind == kind),
        ),
    decreases list.len(),
{
    reveal(Seq::filter);
    let out = list.filter(|t: TaggedModel| t.kind == kind);
    if list.len() > 0 {
        let init = list.drop_last();
        lemma_tagged_as(init, kind);
        let before = init.filter(|t: TaggedModel| t.kind == kind);
        if list.last().kind == kind {
            assert(out == before.push(list.last()));
            assert(compose::untagged(out) =~= compose::untagged(before).push(list.last().result));
        }
    } else {
        assert(compose::untagged(out) =~= seq![]);
    }
}

/// Where no result supersedes anything and none is cut off, the group of a kind
/// is what was found first of its chunks in the searches for it, in the order
/// in which it was found.
pub proof fn law_order_within_groups(list: Seq<TaggedModel>, max_results: nat, kind: MemoryKind)
    requires
        forall|j: int| 0 <= j < list.len() ==> (#[trigger] list[j]).result.supersedes is None,
        list.len() <= max_results,
    ensures
        compose::composed_group(list, max_results, kind) == compose::untagged(
            compose::distinct(list).filter(|t: TaggedModel| t.kind == kind),
        ),
{
    lemma_not_regrouped(list, max_results);
    lemma_tagged_as(compose::distinct(list), kind);
}

/// Where no result supersedes anything and none is cut off, the groups are not
/// formed anew.
proof fn lemma_not_regrouped(list: Seq<TaggedModel>, max_results: nat)
    requires
        forall|j: int| 0 <= j < list.len() ==> (#[trigger] list[j]).result.supersedes is None,
        list.len() <= max_results,
    ensures
        !compose::is_regrouped(list, max_results),
{
    let firsts = compose::distinct(list);
    let found = compose::untagged(firsts);
    retrieval::lemma_distinct(list);
    lemma_distinct_len(list);
    assert(!compose::has_superseding(found)) by {
        if compose::has_superseding(found) {
            let j = choose|j: int|
                0 <= j < found.len() && (#[trigger] found[j]).supersedes is Some;
            assert(list.contains(firsts[j]));
            let i = choose|i: int| 0 <= i < list.len() && list[i] == firsts[j];
            assert(list[i].result.supersedes is None);
        }
    }
    compose::lemma_nothing_superseded(found, found.len());
    assert(found.take(found.len() as int) =~= found);
}

/// Where no result supersedes anything and none is cut off, a result stands in
/// the group of the kind that it was searched for.
pub proof fn law_groups_by_search(
    list: Seq<TaggedModel>,
    max_results: nat,
    kind: MemoryKind,
    k: int,
)
    requires
        forall|j: int| 0 <= j < list.len() ==> (#[trigger] list[j]).result.supersedes is None,
        list.len() <= max_results,
        composition::is_first(list, k),
    ensures
        compose::composed_group(list, max_results, kind).contains(list[k].result) <==> list[k].kind
            == kind,
{
    let firsts = compose::distinct(list);
    let found = compose::untagged(firsts);
    retrieval::lemma_distinct(list);
    lemma_not_regrouped(list, max_results);
    lemma_tagged_as(firsts, kind);
    lemma_firsts_have(list, k);
    let m = choose|m: int| 0 <= m < firsts.len() && firsts[m] == list[k];
    let has_kind = |t: TaggedModel| t.kind == kind;
    let own = firsts.filter(has_kind);
    let group = compose::untagged(own);
    if list[k].kind == kind {
        firsts.lemma_filter_contains(has_kind, m);
        let p = choose|p: int| 0 <= p < own.len() && own[p] == firsts[m];
        assert(group[p] == list[k].result);
    }
    if group.contains(list[k].result) {
        let p = choose|p: int| 0 <= p < group.len() && group[p] == list[k].result;
        assert(own.contains(own[p]));
        firsts.lemma_filter_contains_rev(has_kind, own[p]);
        firsts.lemma_filter_pred(has_kind, p);
        let q = choose|q: int| 0 <= q < firsts.len() && firsts[q] == own[p];
        assert(found[q].chunk_id == found[m].chunk_id);
        assert(q == m);
        assert(own[p].kind == kind);
    }
}

/// There are no more first results than results.
proof fn lemma_distinct_len(list: Seq<TaggedModel>)
    ensures
        compose::distinct(list).len() <= list.len(),
    decreases list.len(),
{
    if list.len() > 0 {
        lemma_distinct_len(list.drop_last());
    }
}

/// The first result of a chunk is kept with its kind.
proof fn lemma_firsts_have(list: Seq<TaggedModel>, k: int)
    requires
        composition::is_first(list, k),
    ensures
        compose::distinct(list).contains(list[k]),
    decreases list.len(),
{
    let init = list.drop_last();
    let before = compose::distinct(init);
    if k < init.len() {
        assert(composition::is_first(init, k)) by {
            assert forall|j: int| 0 <= j < k implies (#[trigger] init[j]).result.chunk_id
                != init[k].result.chunk_id by {
                assert(init[j] == list[j]);
            }
        }
        lemma_firsts_have(init, k);
        let p = choose|p: int| 0 <= p < before.len() && before[p] == list[k];
        assert(compose::distinct(list)[p] == list[k]);
    } else {
        retrieval::lemma_distinct(init);
        let known = compose::untagged(before);
        assert(!compose::has_chunk(known, list[k].result.chunk_id)) by {
            if compose::has_chunk(known, list[k].result.chunk_id) {
                let p = choose|p: int|
                    0 <= p < known.len() && (#[trigger] known[p]).chunk_id
                        == list[k].result.chunk_id;
                assert(init.contains(before[p]));
                let j = choose|j: int| 0 <= j < init.len() && init[j] == before[p];
                assert(list[j].result.chunk_id == list[k].result.chunk_id);
            }
        }
        assert(compose::distinct(list) == before.push(list[k]));
        assert(compose::distinct(list)[before.len() as int] == list[k]);
    }
}

/// Where a result that is the first of its chunk says that it supersedes
/// something, the groups are the flat list split by the results' own kinds.
pub proof fn law_groups_after_supersession(
    list: Seq<TaggedModel>,
    max_results: nat,
    kind: MemoryKind,
    k: int,
)
    requires
        composition::is_first(list, k),
        list[k].result.supersedes is Some,
    ensures
        compose::composed_group(list, max_results, kind) == compose::composed_flat(
            list,
            max_results,
        ).filter(|r: ResultModel| r.kind == kind),
{
    law_results_of_a_kind(compose::composed_flat(list, max_results), kind);
    lemma_firsts_have(list, k);
    let firsts = compose::distinct(list);
    let found = compose::untagged(firsts);
    let m = choose|m: int| 0 <= m < firsts.len() && firsts[m] == list[k];
    assert(found[m].supersedes is Some);
}

/// Where results are cut off, the groups are the flat list split by the
/// results' own kinds: nothing stands in a group that the cap left out.
pub proof fn law_groups_after_the_cap(list: Seq<TaggedModel>, max_results: nat, kind: MemoryKind)
    requires
        ({
            let found = compose::untagged(compose::distinct(list));
            compose::survivors(found, found.len()).len() > max_results
        }),
    ensures
        compose::composed_group(list, max_results, kind) == compose::composed_flat(
            list,
            max_results,
        ).filter(|r: ResultModel| r.kind == kind),
{
    law_results_of_a_kind(compose::composed_flat(list, max_results), kind);
}

} // verus!
