//! How results are capped and put in section order.

use crate::compose;
use crate::compose::ResultModel;
use crate::kind::MemoryKind;
use vstd::prelude::*;

verus! {

// ---------------------------------------------------------------------------
// Counts
// ---------------------------------------------------------------------------

/// The sum of the first `n` counts.
pub open spec fn total(counts: Seq<nat>, n: nat) -> nat
    decreases n,
{
    if n == 0 {
        0
    } else {
        total(counts, (n - 1) as nat) + counts[n - 1]
    }
}

/// How many of the first `n` counts are not zero.
pub open spec fn nonzero(counts: Seq<nat>, n: nat) -> nat
    decreases n,
{
    if n == 0 {
        0
    } else {
        nonzero(counts, (n - 1) as nat) + (if counts[n - 1] > 0 {
            1nat
        } else {
            0nat
        })
    }
}

/// One more at one place.
proof fn lemma_total_update(counts: Seq<nat>, j: int, n: nat)
    requires
        0 <= j < counts.len(),
        n <= counts.len(),
    ensures
        total(counts.update(j, counts[j] + 1), n) == total(counts, n) + (if j < n {
            1nat
        } else {
            0nat
        }),
        nonzero(counts.update(j, counts[j] + 1), n) == nonzero(counts, n) + (if j < n && counts[j]
            == 0 {
            1nat
        } else {
            0nat
        }),
    decreases n,
{
    if n > 0 {
        lemma_total_update(counts, j, (n - 1) as nat);
    }
}

/// Counts that are all zero.
proof fn lemma_total_zero(counts: Seq<nat>, n: nat)
    requires
        n <= counts.len(),
        forall|k: int| 0 <= k < n ==> #[trigger] counts[k] == 0,
    ensures
        total(counts, n) == 0,
        nonzero(counts, n) == 0,
    decreases n,
{
    if n > 0 {
        lemma_total_zero(counts, (n - 1) as nat);
    }
}

/// Shares that fit sum up to less than the sizes exactly where something is
/// left.
proof fn lemma_total_left(sizes: Seq<nat>, shares: Seq<nat>, n: nat)
    requires
        sizes.len() == shares.len(),
        n <= sizes.len(),
        forall|k: int| 0 <= k < sizes.len() ==> #[trigger] shares[k] <= sizes[k],
    ensures
        total(shares, n) <= total(sizes, n),
        total(shares, n) < total(sizes, n) <==> compose::has_left(sizes, shares, n as int),
    decreases n,
{
    if n > 0 {
        let m = (n - 1) as nat;
        lemma_total_left(sizes, shares, m);
        assert(shares[m as int] <= sizes[m as int]);
        if compose::has_left(sizes, shares, m as int) {
            let j = choose|j: int| 0 <= j < m && #[trigger] shares[j] < sizes[j];
            assert(0 <= j < n && shares[j] < sizes[j]);
        }
        if compose::has_left(sizes, shares, n as int) && !compose::has_left(
            sizes,
            shares,
            m as int,
        ) {
            let j = choose|j: int| 0 <= j < n && #[trigger] shares[j] < sizes[j];
            assert(j == m);
        }
    }
}

/// All places are given out, or every section is shown whole.
proof fn lemma_shares_total(sizes: Seq<nat>, places: nat)
    ensures
        total(compose::section_shares(sizes, places), sizes.len()) == (if total(sizes, sizes.len())
            <= places {
            total(sizes, sizes.len())
        } else {
            places
        }),
    decreases places,
{
    let shares = compose::section_shares(sizes, places);
    let n = sizes.len();
    if places == 0 {
        lemma_total_zero(shares, n);
    } else {
        let before = compose::section_shares(sizes, (places - 1) as nat);
        lemma_shares_total(sizes, (places - 1) as nat);
        compose::lemma_shares_fit(sizes, (places - 1) as nat);
        lemma_total_left(sizes, before, n);
        if compose::has_left(sizes, before, n as int) {
            compose::lemma_next_exists(sizes, before, n as int);
            let j = choose|j: int| compose::is_next(sizes, before, n as int, j);
            lemma_total_update(before, j, n);
        }
    }
}

/// Where there are places for all, every section is shown whole.
proof fn lemma_shares_full(sizes: Seq<nat>, places: nat)
    requires
        total(sizes, sizes.len()) <= places,
    ensures
        compose::section_shares(sizes, places) == sizes,
{
    let shares = compose::section_shares(sizes, places);
    lemma_shares_total(sizes, places);
    compose::lemma_shares_fit(sizes, places);
    lemma_total_left(sizes, shares, sizes.len());
    assert forall|k: int| 0 <= k < sizes.len() implies #[trigger] shares[k] == sizes[k] by {
        if shares[k] < sizes[k] {
            assert(compose::has_left(sizes, shares, sizes.len() as int));
        }
    }
    assert(shares =~= sizes);
}

/// Fewer sections have a place than have results, where one is left out.
proof fn lemma_nonzero_less(sizes: Seq<nat>, shares: Seq<nat>, n: nat, j: int)
    requires
        sizes.len() == shares.len(),
        n <= sizes.len(),
        0 <= j < n,
        shares[j] == 0 < sizes[j],
        forall|k: int| 0 <= k < sizes.len() ==> #[trigger] shares[k] <= sizes[k],
    ensures
        nonzero(shares, n) < nonzero(sizes, n),
    decreases n,
{
    let m = (n - 1) as nat;
    assert(shares[m as int] <= sizes[m as int]);
    if j < m {
        lemma_nonzero_less(sizes, shares, m, j);
    } else {
        lemma_nonzero_le(sizes, shares, m);
    }
}

/// No more sections have a place than have results.
proof fn lemma_nonzero_le(sizes: Seq<nat>, shares: Seq<nat>, n: nat)
    requires
        sizes.len() == shares.len(),
        n <= sizes.len(),
        forall|k: int| 0 <= k < sizes.len() ==> #[trigger] shares[k] <= sizes[k],
    ensures
        nonzero(shares, n) <= nonzero(sizes, n),
    decreases n,
{
    if n > 0 {
        lemma_nonzero_le(sizes, shares, (n - 1) as nat);
        assert(shares[n - 1] <= sizes[n - 1]);
    }
}

/// While a section with results has no place, no other has two.
proof fn lemma_shares_go_round(sizes: Seq<nat>, places: nat, j: int)
    requires
        0 <= j < sizes.len(),
        compose::section_shares(sizes, places)[j] == 0 < sizes[j],
    ensures
        forall|k: int|
            0 <= k < sizes.len() ==> #[trigger] compose::section_shares(sizes, places)[k] <= 1,
        nonzero(compose::section_shares(sizes, places), sizes.len()) == places,
    decreases places,
{
    let shares = compose::section_shares(sizes, places);
    let n = sizes.len();
    if places == 0 {
        lemma_total_zero(shares, n);
    } else {
        let before = compose::section_shares(sizes, (places - 1) as nat);
        compose::lemma_shares_fit(sizes, (places - 1) as nat);
        if compose::has_left(sizes, before, n as int) {
            compose::lemma_next_exists(sizes, before, n as int);
            let i = choose|i: int| compose::is_next(sizes, before, n as int, i);
            assert(shares == before.update(i, before[i] + 1));
            assert(i != j);
            assert(before[j] == 0);
            lemma_shares_go_round(sizes, (places - 1) as nat, j);
            assert(before[j] < sizes[j]);
            assert(before[i] == 0);
            lemma_total_update(before, i, n);
            assert forall|k: int| 0 <= k < n implies #[trigger] shares[k] <= 1 by {
                assert(before[k] <= 1);
            }
        } else {
            assert(before[j] < sizes[j]);
        }
    }
}

/// A section with results left has at most one place less than any other, and
/// none less than one that comes after it.
proof fn lemma_shares_are_even(sizes: Seq<nat>, places: nat, i: int, j: int)
    requires
        0 <= i < sizes.len(),
        0 <= j < sizes.len(),
        compose::section_shares(sizes, places)[i] < sizes[i],
    ensures
        compose::section_shares(sizes, places)[j] <= compose::section_shares(sizes, places)[i] + 1,
        i <= j ==> compose::section_shares(sizes, places)[j] <= compose::section_shares(
            sizes,
            places,
        )[i],
    decreases places,
{
    if places > 0 {
        let n = sizes.len() as int;
        let before = compose::section_shares(sizes, (places - 1) as nat);
        compose::lemma_shares_fit(sizes, (places - 1) as nat);
        if compose::has_left(sizes, before, n) {
            compose::lemma_next_exists(sizes, before, n);
            let m = choose|m: int| compose::is_next(sizes, before, n, m);
            assert(compose::section_shares(sizes, places) == before.update(m, before[m] + 1));
            assert(before[i] < sizes[i]);
        }
        lemma_shares_are_even(sizes, (places - 1) as nat, i, j);
    }
}

// ---------------------------------------------------------------------------
// Kinds
// ---------------------------------------------------------------------------

/// The place of a kind in section order.
pub open spec fn section_rank(kind: MemoryKind) -> int {
    match kind {
        MemoryKind::Decision => 0,
        MemoryKind::Fact => 1,
        MemoryKind::Procedure => 2,
        MemoryKind::Preference => 3,
        MemoryKind::Entity => 4,
        MemoryKind::Episode => 5,
        MemoryKind::Unknown => 6,
    }
}

/// How many kinds the results have.
pub open spec fn kinds_in(results: Seq<ResultModel>) -> nat {
    nonzero(compose::section_sizes(results), compose::section_order().len())
}

/// The results of a kind have it.
pub proof fn lemma_of_kind_kinds(results: Seq<ResultModel>, kind: MemoryKind)
    ensures
        forall|k: int|
            0 <= k < compose::of_kind(results, kind).len() ==> (#[trigger] compose::of_kind(
                results,
                kind,
            )[k]).kind == kind,
    decreases results.len(),
{
    if results.len() > 0 {
        lemma_of_kind_kinds(results.drop_last(), kind);
    }
}

/// The results of a kind, of lists that stand one after the other.
proof fn lemma_of_kind_add(a: Seq<ResultModel>, b: Seq<ResultModel>, kind: MemoryKind)
    ensures
        compose::of_kind(a + b, kind) == compose::of_kind(a, kind) + compose::of_kind(b, kind),
    decreases b.len(),
{
    if b.len() == 0 {
        assert(a + b =~= a);
        assert(compose::of_kind(a, kind) + compose::of_kind(b, kind) =~= compose::of_kind(a, kind));
    } else {
        lemma_of_kind_add(a, b.drop_last(), kind);
        assert((a + b).drop_last() =~= a + b.drop_last());
        assert(compose::of_kind(a + b, kind) =~= compose::of_kind(a, kind) + compose::of_kind(
            b,
            kind,
        ));
    }
}

/// Results that all have one kind.
proof fn lemma_of_one_kind(results: Seq<ResultModel>, own: MemoryKind, kind: MemoryKind)
    requires
        forall|k: int| 0 <= k < results.len() ==> (#[trigger] results[k]).kind == own,
    ensures
        compose::of_kind(results, kind) == (if kind == own {
            results
        } else {
            seq![]
        }),
    decreases results.len(),
{
    if results.len() > 0 {
        let init = results.drop_last();
        assert forall|k: int| 0 <= k < init.len() implies (#[trigger] init[k]).kind == own by {
            assert(init[k] == results[k]);
        }
        lemma_of_one_kind(init, own, kind);
        assert(results[results.len() - 1].kind == own);
        assert(init.push(results.last()) =~= results);
    } else {
        assert(compose::of_kind(results, kind) =~= results);
    }
}

/// Each kind has its place in section order.
proof fn lemma_section_rank(kind: MemoryKind)
    ensures
        0 <= section_rank(kind) < compose::section_order().len(),
        compose::section_order()[section_rank(kind)] == kind,
        forall|j: int|
            0 <= j < compose::section_order().len() && #[trigger] compose::section_order()[j]
                == kind ==> j == section_rank(kind),
{
}

/// Every result stands in one section.
proof fn lemma_sizes_total(results: Seq<ResultModel>)
    ensures
        total(compose::section_sizes(results), compose::section_order().len()) == results.len(),
    decreases results.len(),
{
    let sizes = compose::section_sizes(results);
    let n = compose::section_order().len();
    if results.len() == 0 {
        assert forall|k: int| 0 <= k < n implies #[trigger] sizes[k] == 0 by {}
        lemma_total_zero(sizes, n);
    } else {
        let init = results.drop_last();
        let before = compose::section_sizes(init);
        let j = section_rank(results.last().kind);
        lemma_sizes_total(init);
        lemma_section_rank(results.last().kind);
        assert forall|k: int| 0 <= k < n implies #[trigger] sizes[k] == before.update(
            j,
            before[j] + 1,
        )[k] by {
            if k != j {
                assert(compose::section_order()[k] != results.last().kind);
            }
        }
        assert(sizes =~= before.update(j, before[j] + 1));
        lemma_total_update(before, j, n);
    }
}

/// What shares take of the results: so many, in section order, and of each
/// kind its first ones.
pub proof fn lemma_by_share(results: Seq<ResultModel>, shares: Seq<nat>, n: nat, kind: MemoryKind)
    requires
        n <= compose::section_order().len(),
        shares.len() == compose::section_order().len(),
        forall|j: int|
            0 <= j < shares.len() ==> #[trigger] shares[j] <= compose::section_sizes(results)[j],
    ensures
        ({
            let out = compose::by_share(results, shares, n);
            &&& out.len() == total(shares, n)
            &&& compose::of_kind(out, kind) == (if section_rank(kind) < n {
                compose::of_kind(results, kind).take(shares[section_rank(kind)] as int)
            } else {
                seq![]
            })
            &&& forall|i: int| 0 <= i < out.len() ==> section_rank((#[trigger] out[i]).kind) < n
            &&& forall|i: int, j: int|
                0 <= i < j < out.len() ==> section_rank((#[trigger] out[i]).kind) <= section_rank(
                    (#[trigger] out[j]).kind,
                )
        }),
    decreases n,
{
    if n == 0 {
        assert(compose::of_kind(compose::by_share(results, shares, n), kind) =~= seq![]);
    } else {
        let m = (n - 1) as nat;
        let own = compose::section_order()[m as int];
        let front = compose::by_share(results, shares, m);
        let part = compose::of_kind(results, own).take(shares[m as int] as int);
        let out = compose::by_share(results, shares, n);
        lemma_by_share(results, shares, m, kind);
        assert(shares[m as int] <= compose::section_sizes(results)[m as int]);
        lemma_of_kind_kinds(results, own);
        assert forall|k: int| 0 <= k < part.len() implies (#[trigger] part[k]).kind == own by {
            assert(part[k] == compose::of_kind(results, own)[k]);
        }
        lemma_of_kind_add(front, part, kind);
        lemma_of_one_kind(part, own, kind);
        lemma_section_rank(kind);
        lemma_section_rank(own);
        assert(section_rank(own) == m);
        assert(compose::of_kind(out, kind) =~= if section_rank(kind) < n {
            compose::of_kind(results, kind).take(shares[section_rank(kind)] as int)
        } else {
            seq![]
        });
        assert forall|i: int| 0 <= i < out.len() implies section_rank((#[trigger] out[i]).kind)
            < n by {
            if i < front.len() {
                assert(out[i] == front[i]);
            } else {
                assert(out[i] == part[i - front.len()]);
            }
        }
        assert forall|i: int, j: int| 0 <= i < j < out.len() implies section_rank(
            (#[trigger] out[i]).kind,
        ) <= section_rank((#[trigger] out[j]).kind) by {
            if j < front.len() {
                assert(out[i] == front[i] && out[j] == front[j]);
            } else {
                assert(out[j] == part[j - front.len()]);
                if i < front.len() {
                    assert(out[i] == front[i]);
                } else {
                    assert(out[i] == part[i - front.len()]);
                }
            }
        }
    }
}

/// Where of each kind the list has the share, its section order is what the
/// shares take.
proof fn lemma_by_section(
    results: Seq<ResultModel>,
    list: Seq<ResultModel>,
    shares: Seq<nat>,
    n: nat,
)
    requires
        n <= compose::section_order().len(),
        forall|j: int|
            0 <= j < n ==> compose::of_kind(list, #[trigger] compose::section_order()[j])
                == compose::of_kind(results, compose::section_order()[j]).take(shares[j] as int),
    ensures
        compose::by_section(list, n) == compose::by_share(results, shares, n),
    decreases n,
{
    if n > 0 {
        lemma_by_section(results, list, shares, (n - 1) as nat);
        let own = compose::section_order()[n - 1];
        assert(compose::of_kind(list, own) == compose::of_kind(results, own).take(
            shares[n - 1] as int,
        ));
    }
}

/// The cap takes as many results as it may. Of each kind it takes the first
/// ones, and where there is a place for every kind, no kind is left out.
pub proof fn law_cap_keeps_kinds(results: Seq<ResultModel>, max_results: nat, kind: MemoryKind)
    ensures
        ({
            let flat = compose::capped(results, max_results);
            let of_flat = compose::of_kind(flat, kind);
            let of_all = compose::of_kind(results, kind);
            &&& flat.len() == (if results.len() <= max_results {
                results.len()
            } else {
                max_results
            })
            &&& of_flat.len() <= of_all.len()
            &&& of_flat == of_all.take(of_flat.len() as int)
            &&& max_results >= kinds_in(results) && of_all.len() > 0 ==> of_flat.len() > 0
        }),
{
    let sizes = compose::section_sizes(results);
    let shares = compose::section_shares(sizes, max_results);
    let n = compose::section_order().len();
    let j = section_rank(kind);
    compose::lemma_shares_fit(sizes, max_results);
    lemma_shares_total(sizes, max_results);
    lemma_sizes_total(results);
    lemma_by_share(results, shares, n, kind);
    lemma_section_rank(kind);
    assert(shares[j] <= sizes[j]);
    if shares[j] == 0 && sizes[j] > 0 {
        lemma_shares_go_round(sizes, max_results, j);
        lemma_nonzero_less(sizes, shares, n, j);
    }
}

/// The flat list is in section order: its kinds come in the order of the
/// sections, and putting it in section order changes nothing. Where nothing is
/// cut off, it is all the results in section order.
pub proof fn law_flat_list_is_in_section_order(results: Seq<ResultModel>, max_results: nat)
    ensures
        ({
            let flat = compose::capped(results, max_results);
            &&& forall|i: int, j: int|
                0 <= i < j < flat.len() ==> section_rank((#[trigger] flat[i]).kind) <= section_rank(
                    (#[trigger] flat[j]).kind,
                )
            &&& flat == compose::in_section_order(flat)
            &&& results.len() <= max_results ==> flat == compose::in_section_order(results)
        }),
{
    let flat = compose::capped(results, max_results);
    let sizes = compose::section_sizes(results);
    let shares = compose::section_shares(sizes, max_results);
    let order = compose::section_order();
    let n = order.len();
    compose::lemma_shares_fit(sizes, max_results);
    lemma_by_share(results, shares, n, MemoryKind::Unknown);
    assert forall|j: int| 0 <= j < n implies compose::of_kind(flat, #[trigger] order[j])
        == compose::of_kind(results, order[j]).take(shares[j] as int) by {
        lemma_by_share(results, shares, n, order[j]);
        lemma_section_rank(order[j]);
    }
    lemma_by_section(results, flat, shares, n);
    if results.len() <= max_results {
        lemma_sizes_total(results);
        lemma_shares_full(sizes, max_results);
        assert forall|j: int| 0 <= j < n implies compose::of_kind(results, #[trigger] order[j])
            == compose::of_kind(results, order[j]).take(shares[j] as int) by {
            let group = compose::of_kind(results, order[j]);
            assert(sizes[j] == group.len());
            assert(group.take(group.len() as int) =~= group);
        }
        lemma_by_section(results, results, shares, n);
    }
}

/// Putting results in section order loses none: of each kind all are there, in
/// their order, and nothing else.
pub proof fn law_section_order_keeps_results(results: Seq<ResultModel>, kind: MemoryKind)
    ensures
        compose::in_section_order(results).len() == results.len(),
        compose::of_kind(compose::in_section_order(results), kind) == compose::of_kind(
            results,
            kind,
        ),
{
    law_flat_list_is_in_section_order(results, results.len());
    law_cap_keeps_kinds(results, results.len(), kind);
    let sizes = compose::section_sizes(results);
    let n = compose::section_order().len();
    lemma_sizes_total(results);
    lemma_shares_full(sizes, results.len());
    lemma_by_share(results, sizes, n, kind);
    lemma_section_rank(kind);
    let group = compose::of_kind(results, kind);
    assert(sizes[section_rank(kind)] == group.len());
    assert(group.take(group.len() as int) =~= group);
}

/// The cap is fair: a kind of which results are cut off has at most one place
/// less than any other kind, and none less than a kind whose section comes
/// after its own.
pub proof fn law_cap_is_fair(
    results: Seq<ResultModel>,
    max_results: nat,
    kind: MemoryKind,
    other: MemoryKind,
)
    requires
        compose::of_kind(compose::capped(results, max_results), kind).len() < compose::of_kind(
            results,
            kind,
        ).len(),
    ensures
        ({
            let own = compose::of_kind(compose::capped(results, max_results), kind).len();
            let others = compose::of_kind(compose::capped(results, max_results), other).len();
            &&& others <= own + 1
            &&& section_rank(kind) < section_rank(other) ==> others <= own
        }),
{
    let sizes = compose::section_sizes(results);
    let shares = compose::section_shares(sizes, max_results);
    let n = compose::section_order().len();
    compose::lemma_shares_fit(sizes, max_results);
    lemma_by_share(results, shares, n, kind);
    lemma_by_share(results, shares, n, other);
    lemma_section_rank(kind);
    lemma_section_rank(other);
    let i = section_rank(kind);
    let j = section_rank(other);
    assert(sizes[i] == compose::of_kind(results, kind).len());
    assert(sizes[j] == compose::of_kind(results, other).len());
    assert(shares[i] <= sizes[i]);
    assert(shares[j] <= sizes[j]);
    lemma_shares_are_even(sizes, max_results, i, j);
}

} // verus!
