//! Selecting and ranking the units that meet the caller's thresholds.
//!
//! A unit qualifies when it has at least the required free memory and at
//! least the required free utilization percentage. If at least the required
//! number of units qualify, the selection is the required number of
//! qualifying unit identifiers with the highest free utilization, ties kept
//! in snapshot order; free memory gates qualification but never ranks.

use vstd::prelude::*;
use crate::snapshot::GPUInfo;

verus! {

/// The unit meets both admission thresholds.
pub open spec fn qualifies(u: GPUInfo, memory_per_core: u32, gpu_percent: usize) -> bool {
    u.memory_free >= memory_per_core && u.gpu_free >= gpu_percent
}

/// The qualification test for the given thresholds, as a predicate.
pub open spec fn qualifies_pred(memory_per_core: u32, gpu_percent: usize) -> spec_fn(GPUInfo) -> bool {
    |u: GPUInfo| qualifies(u, memory_per_core, gpu_percent)
}

/// The qualifying units of the snapshot, in snapshot order.
pub open spec fn qualifying(units: Seq<GPUInfo>, memory_per_core: u32, gpu_percent: usize) -> Seq<
    GPUInfo,
> {
    units.filter(qualifies_pred(memory_per_core, gpu_percent))
}

/// Inserts `u` after every unit at least as free and before the rest: the
/// insertion step of a stable descending sort by free utilization.
pub open spec fn rank_insert(s: Seq<GPUInfo>, u: GPUInfo) -> Seq<GPUInfo>
    decreases s.len(),
{
    if s.len() == 0 {
        seq![u]
    } else if s[0].gpu_free >= u.gpu_free {
        seq![s[0]] + rank_insert(s.skip(1), u)
    } else {
        seq![u] + s
    }
}

/// Stable sort descending by free utilization percentage: each unit, taken in
/// snapshot order, is inserted after all units at least as free, so ties keep
/// their snapshot order.
pub open spec fn rank_sorted(s: Seq<GPUInfo>) -> Seq<GPUInfo>
    decreases s.len(),
{
    if s.len() == 0 {
        Seq::empty()
    } else {
        rank_insert(rank_sorted(s.drop_last()), s.last())
    }
}

/// The selected identifiers: the `core_count` qualifying units with the
/// highest free utilization, ties in snapshot order.
pub open spec fn selection(
    units: Seq<GPUInfo>,
    core_count: int,
    memory_per_core: u32,
    gpu_percent: usize,
) -> Seq<usize> {
    rank_sorted(qualifying(units, memory_per_core, gpu_percent)).take(core_count).map_values(
        |u: GPUInfo| u.index,
    )
}

/// Ranking a sequence of units keeps its length.
pub proof fn lemma_rank_insert_len(s: Seq<GPUInfo>, u: GPUInfo)
    ensures
        rank_insert(s, u).len() == s.len() + 1,
    decreases s.len(),
{
    if s.len() > 0 && s[0].gpu_free >= u.gpu_free {
        lemma_rank_insert_len(s.skip(1), u);
    }
}

/// Sorting a sequence of units keeps its length.
pub proof fn lemma_rank_sorted_len(s: Seq<GPUInfo>)
    ensures
        rank_sorted(s).len() == s.len(),
    decreases s.len(),
{
    if s.len() > 0 {
        lemma_rank_sorted_len(s.drop_last());
        lemma_rank_insert_len(rank_sorted(s.drop_last()), s.last());
    }
}

/// Insertion adds exactly the new unit to the members.
pub proof fn lemma_rank_insert_contains(s: Seq<GPUInfo>, u: GPUInfo, x: GPUInfo)
    ensures
        rank_insert(s, u).contains(x) <==> (x == u || s.contains(x)),
    decreases s.len(),
{
    if s.len() == 0 {
        if x == u {
            assert(rank_insert(s, u)[0] == x);
        }
        if rank_insert(s, u).contains(x) {
            let i = choose|i: int| 0 <= i < rank_insert(s, u).len() && rank_insert(s, u)[i] == x;
            assert(x == u);
        }
    } else if s[0].gpu_free >= u.gpu_free {
        lemma_rank_insert_contains(s.skip(1), u, x);
        let r = rank_insert(s, u);
        assert(r == seq![s[0]] + rank_insert(s.skip(1), u));
        if r.contains(x) {
            let i = choose|i: int| 0 <= i < r.len() && r[i] == x;
            if i == 0 {
                assert(s.contains(x)) by {
                    assert(s[0] == x);
                }
            } else {
                assert(rank_insert(s.skip(1), u)[i - 1] == x);
                assert(rank_insert(s.skip(1), u).contains(x));
                if s.skip(1).contains(x) {
                    let j = choose|j: int| 0 <= j < s.skip(1).len() && s.skip(1)[j] == x;
                    assert(s[j + 1] == x);
                }
            }
        }
        if x == u || s.contains(x) {
            if x == u || s.skip(1).contains(x) {
                assert(rank_insert(s.skip(1), u).contains(x));
                let j = choose|j: int|
                    0 <= j < rank_insert(s.skip(1), u).len() && rank_insert(s.skip(1), u)[j] == x;
                assert(r[j + 1] == x);
            } else {
                let i = choose|i: int| 0 <= i < s.len() && s[i] == x;
                if i == 0 {
                    assert(r[0] == x);
                } else {
                    assert(s.skip(1)[i - 1] == x);
                }
            }
        }
    } else {
        let r = rank_insert(s, u);
        if r.contains(x) {
            let i = choose|i: int| 0 <= i < r.len() && r[i] == x;
            if i > 0 {
                assert(s[i - 1] == x);
            }
        }
        if x == u {
            assert(r[0] == x);
        }
        if s.contains(x) {
            let i = choose|i: int| 0 <= i < s.len() && s[i] == x;
            assert(r[i + 1] == x);
        }
    }
}

/// Sorting keeps exactly the members of the sequence.
pub proof fn lemma_rank_sorted_contains(s: Seq<GPUInfo>, x: GPUInfo)
    ensures
        rank_sorted(s).contains(x) <==> s.contains(x),
    decreases s.len(),
{
    if s.len() > 0 {
        lemma_rank_sorted_contains(s.drop_last(), x);
        lemma_rank_insert_contains(rank_sorted(s.drop_last()), s.last(), x);
        if s.contains(x) {
            let i = choose|i: int| 0 <= i < s.len() && s[i] == x;
            if i < s.len() - 1 {
                assert(s.drop_last()[i] == x);
            }
        }
        if x == s.last() || s.drop_last().contains(x) {
            if s.drop_last().contains(x) {
                let i = choose|i: int| 0 <= i < s.drop_last().len() && s.drop_last()[i] == x;
                assert(s[i] == x);
            } else {
                assert(s[s.len() - 1] == x);
            }
        }
    }
}

/// A filtered sequence only holds members of the original.
pub proof fn lemma_filter_member(s: Seq<GPUInfo>, pred: spec_fn(GPUInfo) -> bool, x: GPUInfo)
    requires
        s.filter(pred).contains(x),
    ensures
        s.contains(x),
    decreases s.len(),
{
    reveal(Seq::filter);
    if s.len() > 0 {
        if s.drop_last().filter(pred).contains(x) {
            lemma_filter_member(s.drop_last(), pred, x);
            let i = choose|i: int| 0 <= i < s.drop_last().len() && s.drop_last()[i] == x;
            assert(s[i] == x);
        } else {
            assert(x == s.last());
            assert(s[s.len() - 1] == x);
        }
    }
}

/// Selector qualification law: every identifier in a selection is the
/// identifier of a snapshot unit that meets both thresholds; a unit below
/// either threshold never contributes an identifier.
pub proof fn lemma_selection_qualifies(
    units: Seq<GPUInfo>,
    core_count: int,
    memory_per_core: u32,
    gpu_percent: usize,
)
    requires
        0 <= core_count <= qualifying(units, memory_per_core, gpu_percent).len(),
    ensures
        forall|j: int|
            #![trigger rank_sorted(qualifying(units, memory_per_core, gpu_percent))[j]]
            0 <= j < selection(units, core_count, memory_per_core, gpu_percent).len() ==> (
            units.contains(rank_sorted(qualifying(units, memory_per_core, gpu_percent))[j])
                && qualifies(
                rank_sorted(qualifying(units, memory_per_core, gpu_percent))[j],
                memory_per_core,
                gpu_percent,
            ) && selection(units, core_count, memory_per_core, gpu_percent)[j] == rank_sorted(
                qualifying(units, memory_per_core, gpu_percent),
            )[j].index),
{
    let pred = qualifies_pred(memory_per_core, gpu_percent);
    let q = qualifying(units, memory_per_core, gpu_percent);
    let ranked = rank_sorted(q);
    let sel = selection(units, core_count, memory_per_core, gpu_percent);
    lemma_rank_sorted_len(q);
    assert forall|j: int|
        #![trigger rank_sorted(qualifying(units, memory_per_core, gpu_percent))[j]]
        0 <= j < selection(units, core_count, memory_per_core, gpu_percent).len() implies (
        units.contains(rank_sorted(qualifying(units, memory_per_core, gpu_percent))[j])
            && qualifies(
            rank_sorted(qualifying(units, memory_per_core, gpu_percent))[j],
            memory_per_core,
            gpu_percent,
        ) && selection(units, core_count, memory_per_core, gpu_percent)[j] == rank_sorted(
            qualifying(units, memory_per_core, gpu_percent),
        )[j].index) by {
        let u = ranked[j];
        assert(ranked.contains(u));
        lemma_rank_sorted_contains(q, u);
        let i = choose|i: int| 0 <= i < q.len() && q[i] == u;
        Seq::lemma_filter_pred(units, pred, i);
        lemma_filter_member(units, pred, u);
        assert(sel[j] == u.index);
        assert(units.contains(u) && qualifies(u, memory_per_core, gpu_percent));
    }
}

/// The sequence is ordered by descending free utilization.
pub open spec fn ranked_desc(s: Seq<GPUInfo>) -> bool {
    forall|i: int, j: int|
        #![trigger s[i], s[j]]
        0 <= i <= j < s.len() ==> s[i].gpu_free >= s[j].gpu_free
}

/// Inserting a unit at its rank keeps the sequence ordered.
pub proof fn lemma_rank_insert_ordered(s: Seq<GPUInfo>, u: GPUInfo)
    requires
        ranked_desc(s),
    ensures
        ranked_desc(rank_insert(s, u)),
    decreases s.len(),
{
    let r = rank_insert(s, u);
    if s.len() == 0 {
    } else if s[0].gpu_free >= u.gpu_free {
        let t = s.skip(1);
        let inner = rank_insert(t, u);
        assert forall|i: int, j: int|
            #![trigger t[i], t[j]]
            0 <= i <= j < t.len() implies t[i].gpu_free >= t[j].gpu_free by {
            assert(t[i] == s[i + 1]);
            assert(t[j] == s[j + 1]);
        }
        lemma_rank_insert_ordered(t, u);
        lemma_rank_insert_len(t, u);
        assert forall|i: int, j: int|
            #![trigger r[i], r[j]]
            0 <= i <= j < r.len() implies r[i].gpu_free >= r[j].gpu_free by {
            if 0 < j {
                assert(r[j] == inner[j - 1]);
                if i == 0 {
                    let x = inner[j - 1];
                    assert(inner.contains(x));
                    lemma_rank_insert_contains(t, u, x);
                    if x != u {
                        let k = choose|k: int| 0 <= k < t.len() && t[k] == x;
                        assert(s[k + 1] == x);
                        assert(s[0].gpu_free >= s[k + 1].gpu_free);
                    }
                } else {
                    assert(r[i] == inner[i - 1]);
                    assert(inner[i - 1].gpu_free >= inner[j - 1].gpu_free);
                }
            }
        }
    } else {
        assert forall|i: int, j: int|
            #![trigger r[i], r[j]]
            0 <= i <= j < r.len() implies r[i].gpu_free >= r[j].gpu_free by {
            if 0 < j {
                assert(r[j] == s[j - 1]);
                assert(s[0].gpu_free >= s[j - 1].gpu_free);
                if 0 < i {
                    assert(r[i] == s[i - 1]);
                }
            }
        }
    }
}

/// Ranking law: the ranked qualifying units are ordered by descending free
/// utilization, so a selection takes the highest free utilization first.
pub proof fn lemma_rank_sorted_ordered(s: Seq<GPUInfo>)
    ensures
        ranked_desc(rank_sorted(s)),
    decreases s.len(),
{
    if s.len() > 0 {
        lemma_rank_sorted_ordered(s.drop_last());
        lemma_rank_insert_ordered(rank_sorted(s.drop_last()), s.last());
    }
}

/// Insertion at rank only reorders: the members, with multiplicity, are the
/// old ones plus the new unit.
pub proof fn lemma_rank_insert_multiset(s: Seq<GPUInfo>, u: GPUInfo)
    ensures
        rank_insert(s, u).to_multiset() =~= s.to_multiset().insert(u),
    decreases s.len(),
{
    broadcast use vstd::seq_lib::group_to_multiset_ensures;

    if s.len() == 0 {
        assert(seq![u] =~= Seq::<GPUInfo>::empty().push(u));
    } else if s[0].gpu_free >= u.gpu_free {
        lemma_rank_insert_multiset(s.skip(1), u);
        vstd::seq_lib::lemma_multiset_commutative(seq![s[0]], rank_insert(s.skip(1), u));
        vstd::seq_lib::lemma_multiset_commutative(seq![s[0]], s.skip(1));
        assert(s =~= seq![s[0]] + s.skip(1));
    } else {
        vstd::seq_lib::lemma_multiset_commutative(seq![u], s);
        assert(seq![u] =~= Seq::<GPUInfo>::empty().push(u));
    }
}

/// Permutation law: ranking only reorders the qualifying units — the ranked
/// sequence holds exactly the members of the unranked one, with
/// multiplicity.
pub proof fn lemma_rank_sorted_multiset(s: Seq<GPUInfo>)
    ensures
        rank_sorted(s).to_multiset() =~= s.to_multiset(),
    decreases s.len(),
{
    broadcast use vstd::seq_lib::group_to_multiset_ensures;

    if s.len() > 0 {
        lemma_rank_sorted_multiset(s.drop_last());
        lemma_rank_insert_multiset(rank_sorted(s.drop_last()), s.last());
        assert(s =~= s.drop_last().push(s.last()));
    }
}

/// The position at which `rank_insert` places the new unit determines the
/// whole result: the prefix that is at least as free, the unit, the rest.
proof fn lemma_rank_insert_at(s: Seq<GPUInfo>, u: GPUInfo, j: int)
    requires
        0 <= j <= s.len(),
        forall|k: int| 0 <= k < j ==> #[trigger] s[k].gpu_free >= u.gpu_free,
        j < s.len() ==> s[j].gpu_free < u.gpu_free,
    ensures
        rank_insert(s, u) =~= s.take(j).push(u) + s.skip(j),
    decreases j,
{
    if j == 0 {
        if s.len() == 0 {
            assert(rank_insert(s, u) =~= s.take(0).push(u) + s.skip(0));
        } else {
            assert(s[0].gpu_free < u.gpu_free);
            assert(rank_insert(s, u) =~= s.take(0).push(u) + s.skip(0));
        }
    } else {
        assert(s[0].gpu_free >= u.gpu_free);
        let t = s.skip(1);
        assert forall|k: int| 0 <= k < j - 1 implies #[trigger] t[k].gpu_free >= u.gpu_free by {
            assert(t[k] == s[k + 1]);
        }
        assert(j - 1 < t.len() ==> t[j - 1].gpu_free < u.gpu_free);
        lemma_rank_insert_at(t, u, j - 1);
        assert(rank_insert(s, u) =~= s.take(j).push(u) + s.skip(j));
    }
}

/// Inserts `u` into `v`, sorted descending by free utilization, after every
/// unit at least as free.
fn rank_insert_unit(v: Vec<GPUInfo>, u: GPUInfo) -> (r: Vec<GPUInfo>)
    ensures
        r@ == rank_insert(v@, u),
{
    let ghost v0 = v@;
    let mut j: usize = 0;
    while j < v.len() && v[j].gpu_free >= u.gpu_free
        invariant
            j <= v@.len(),
            v@ == v0,
            forall|k: int| 0 <= k < j ==> #[trigger] v@[k].gpu_free >= u.gpu_free,
        decreases v@.len() - j,
    {
        j = j + 1;
    }
    let mut r = v;
    r.insert(j, u);
    proof {
        lemma_rank_insert_at(v0, u, j as int);
        assert(v0.insert(j as int, u) =~= v0.take(j as int).push(u) + v0.skip(j as int));
    }
    r
}

/// Decides whether enough units qualify and, if so, returns the identifiers
/// of the `core_count` qualifying units with the highest free utilization,
/// ties broken by snapshot order; otherwise reports insufficiency.
pub fn check_resource_enough(
    gpu_info_list: &Vec<GPUInfo>,
    core_count: usize,
    memory_per_core: u32,
    gpu_percent: usize,
) -> (r: Option<Vec<usize>>)
    ensures
        match r {
            Some(ids) => qualifying(gpu_info_list@, memory_per_core, gpu_percent).len()
                >= core_count && ids@ =~= selection(
                gpu_info_list@,
                core_count as int,
                memory_per_core,
                gpu_percent,
            ) && ids@.len() == core_count,
            None => qualifying(gpu_info_list@, memory_per_core, gpu_percent).len() < core_count,
        },
{
    let mut avail: Vec<GPUInfo> = Vec::new();
    let mut i: usize = 0;
    while i < gpu_info_list.len()
        invariant
            i <= gpu_info_list@.len(),
            avail@ == qualifying(gpu_info_list@.take(i as int), memory_per_core, gpu_percent),
        decreases gpu_info_list@.len() - i,
    {
        let u = gpu_info_list[i];
        proof {
            assert(gpu_info_list@.take(i + 1).drop_last() =~= gpu_info_list@.take(i as int));
            assert(gpu_info_list@.take(i + 1).last() == gpu_info_list@[i as int]);
            reveal(Seq::filter);
        }
        if u.memory_free >= memory_per_core && u.gpu_free >= gpu_percent {
            avail.push(u);
        }
        i = i + 1;
    }
    proof {
        assert(gpu_info_list@.take(gpu_info_list@.len() as int) =~= gpu_info_list@);
    }
    if avail.len() < core_count {
        return None;
    }
    let ghost q = qualifying(gpu_info_list@, memory_per_core, gpu_percent);
    let mut sorted: Vec<GPUInfo> = Vec::new();
    let mut k: usize = 0;
    while k < avail.len()
        invariant
            k <= avail@.len(),
            avail@ == q,
            sorted@ == rank_sorted(avail@.take(k as int)),
        decreases avail@.len() - k,
    {
        let u = avail[k];
        proof {
            assert(avail@.take(k + 1).drop_last() =~= avail@.take(k as int));
            assert(avail@.take(k + 1).last() == avail@[k as int]);
        }
        sorted = rank_insert_unit(sorted, u);
        k = k + 1;
    }
    proof {
        assert(avail@.take(avail@.len() as int) =~= avail@);
        lemma_rank_sorted_len(q);
    }
    let mut ids: Vec<usize> = Vec::new();
    let mut t: usize = 0;
    while t < core_count
        invariant
            t <= core_count,
            core_count <= sorted@.len(),
            sorted@ == rank_sorted(q),
            ids@ =~= sorted@.take(t as int).map_values(|u: GPUInfo| u.index),
        decreases core_count - t,
    {
        let u = sorted[t];
        ids.push(u.index);
        proof {
            assert(ids@ =~= sorted@.take(t + 1).map_values(|u: GPUInfo| u.index));
        }
        t = t + 1;
    }
    proof {
        assert(ids@ =~= selection(gpu_info_list@, core_count as int, memory_per_core, gpu_percent));
    }
    Some(ids)
}

} // verus!
