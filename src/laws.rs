//! What holds of merging dives into statistics, whatever the dives.
use vstd::prelude::*;

use crate::dive::DiveView;
use crate::stats::{
    add_time, empty_view, lemma_index_of_absent, lemma_index_of_first,
    merge_table, merge_view, StatsData, StatsView,
};

verus! {

broadcast use vstd::seq_lib::group_to_multiset_ensures;

/// The depths of a time-below table, in order.
pub open spec fn keys(t: Seq<(nat, nat)>) -> Seq<nat> {
    t.map_values(|e: (nat, nat)| e.0)
}

/// Merging a list of dives, first to last, into `s`.
pub open spec fn fold_view(s: StatsView, ds: Seq<DiveView>) -> StatsView
    decreases ds.len(),
{
    if ds.len() == 0 {
        s
    } else {
        merge_view(fold_view(s, ds.drop_last()), ds.last())
    }
}

/// The dives of one run: each tracks the same threshold depths `ks`, each
/// depth once.
pub open spec fn same_thresholds(ds: Seq<DiveView>, ks: Seq<nat>) -> bool {
    &&& ks.no_duplicates()
    &&& forall|i: int| 0 <= i < ds.len() ==> keys(#[trigger] ds[i].time_below) == ks
}

/// Statistics of such a run: no threshold seen yet, or exactly `ks`.
pub open spec fn tracks(s: StatsView, ks: Seq<nat>) -> bool {
    s.time_below.len() == 0 || keys(s.time_below) == ks
}

/// `g` with the times of the first `p` entries of `d` added entry by entry.
pub open spec fn add_pointwise(g: Seq<(nat, nat)>, d: Seq<(nat, nat)>, p: int) -> Seq<(nat, nat)> {
    Seq::new(
        g.len(),
        |j: int|
            if j < p {
                (g[j].0, g[j].1 + d[j].1)
            } else {
                g[j]
            },
    )
}

/// Merging a table with distinct depths into an empty one copies it.
proof fn lemma_merge_into_empty(d: Seq<(nat, nat)>)
    requires
        keys(d).no_duplicates(),
    ensures
        merge_table(Seq::empty(), d) == d,
    decreases d.len(),
{
    if d.len() > 0 {
        let dl = d.drop_last();
        assert(keys(dl) =~= keys(d).drop_last());
        lemma_merge_into_empty(dl);
        let x = d.last();
        assert forall|m: int| 0 <= m < dl.len() implies #[trigger] dl[m].0 != x.0 by {
            assert(keys(d)[m] == dl[m].0);
            assert(keys(d)[d.len() - 1] == x.0);
        }
        lemma_index_of_absent(dl, x.0);
        assert(dl.push(x) =~= d);
    }
}

/// Merging a table with the same distinct depths adds time entry by entry.
proof fn lemma_merge_pointwise(g: Seq<(nat, nat)>, d: Seq<(nat, nat)>, p: int)
    requires
        keys(g) == keys(d),
        keys(g).no_duplicates(),
        0 <= p <= d.len(),
    ensures
        merge_table(g, d.take(p)) == add_pointwise(g, d, p),
    decreases p,
{
    assert(keys(g).len() == g.len() && keys(d).len() == d.len());
    if p == 0 {
        assert(d.take(0).len() == 0);
        assert(add_pointwise(g, d, 0) =~= g);
    } else {
        lemma_merge_pointwise(g, d, p - 1);
        assert(d.take(p).drop_last() =~= d.take(p - 1));
        let m = add_pointwise(g, d, p - 1);
        let k = d[p - 1].0;
        assert(keys(g)[p - 1] == keys(d)[p - 1]);
        assert(keys(d)[p - 1] == k);
        assert(keys(g)[p - 1] == g[p - 1].0);
        assert(m[p - 1] == g[p - 1]);
        assert forall|i: int| 0 <= i < p - 1 implies #[trigger] m[i].0 != k by {
            assert(keys(g)[i] == g[i].0);
            assert(keys(g)[i] != keys(g)[p - 1]);
            assert(m[i].0 == g[i].0);
        }
        lemma_index_of_first(m, k, p - 1);
        assert(add_time(m, d.take(p).last()) =~= add_pointwise(g, d, p));
    }
}

proof fn lemma_merge_same_keys(g: Seq<(nat, nat)>, d: Seq<(nat, nat)>)
    requires
        keys(g) == keys(d),
        keys(g).no_duplicates(),
    ensures
        merge_table(g, d) == add_pointwise(g, d, d.len() as int),
        keys(merge_table(g, d)) == keys(g),
{
    lemma_merge_pointwise(g, d, d.len() as int);
    assert(d.take(d.len() as int) =~= d);
    assert(keys(add_pointwise(g, d, d.len() as int)) =~= keys(g));
}

/// A run's statistics still track its thresholds after one more of its dives.
proof fn lemma_merge_tracks(s: StatsView, d: DiveView, ks: Seq<nat>)
    requires
        tracks(s, ks),
        keys(d.time_below) == ks,
        ks.no_duplicates(),
    ensures
        tracks(merge_view(s, d), ks),
{
    if s.time_below.len() == 0 {
        assert(s.time_below =~= Seq::<(nat, nat)>::empty());
        lemma_merge_into_empty(d.time_below);
    } else {
        lemma_merge_same_keys(s.time_below, d.time_below);
    }
}

/// Merging two dives of a run gives the same statistics in either order.
pub proof fn lemma_merge_commutative(s: StatsView, a: DiveView, b: DiveView)
    requires
        keys(a.time_below) == keys(b.time_below),
        keys(a.time_below).no_duplicates(),
        tracks(s, keys(a.time_below)),
    ensures
        merge_view(merge_view(s, a), b) == merge_view(merge_view(s, b), a),
{
    let ta = a.time_below;
    let tb = b.time_below;
    assert(keys(ta).len() == ta.len() && keys(tb).len() == tb.len());
    let ab = merge_table(merge_table(s.time_below, ta), tb);
    let ba = merge_table(merge_table(s.time_below, tb), ta);
    if s.time_below.len() == 0 {
        assert(s.time_below =~= Seq::<(nat, nat)>::empty());
        lemma_merge_into_empty(ta);
        lemma_merge_into_empty(tb);
        lemma_merge_same_keys(ta, tb);
        lemma_merge_same_keys(tb, ta);
        assert forall|j: int| 0 <= j < ta.len() implies ta[j].0 == tb[j].0 by {
            assert(keys(ta)[j] == keys(tb)[j]);
        }
    } else {
        let g = s.time_below;
        lemma_merge_same_keys(g, ta);
        lemma_merge_same_keys(g, tb);
        lemma_merge_same_keys(merge_table(g, ta), tb);
        lemma_merge_same_keys(merge_table(g, tb), ta);
    }
    assert(ab =~= ba);
}

/// A run's statistics track its thresholds after any of its dives.
proof fn lemma_fold_tracks(s: StatsView, ds: Seq<DiveView>, ks: Seq<nat>)
    requires
        tracks(s, ks),
        same_thresholds(ds, ks),
    ensures
        tracks(fold_view(s, ds), ks),
    decreases ds.len(),
{
    if ds.len() > 0 {
        lemma_fold_tracks(s, ds.drop_last(), ks);
        lemma_merge_tracks(fold_view(s, ds.drop_last()), ds.last(), ks);
    }
}

/// Merging a list equals merging it without its dive `i`, then that dive.
proof fn lemma_fold_move_to_end(s: StatsView, ys: Seq<DiveView>, i: int, ks: Seq<nat>)
    requires
        tracks(s, ks),
        same_thresholds(ys, ks),
        0 <= i < ys.len(),
    ensures
        fold_view(s, ys) == merge_view(fold_view(s, ys.remove(i)), ys[i]),
    decreases ys.len(),
{
    let n = ys.len() as int;
    if i == n - 1 {
        assert(ys.remove(i) =~= ys.drop_last());
    } else {
        let yl = ys.drop_last();
        lemma_fold_move_to_end(s, yl, i, ks);
        let f = fold_view(s, yl.remove(i));
        assert(same_thresholds(yl.remove(i), ks)) by {
            assert forall|m: int| 0 <= m < yl.remove(i).len() implies keys(
                #[trigger] yl.remove(i)[m].time_below,
            ) == ks by {
                if m < i {
                    assert(yl.remove(i)[m] == ys[m]);
                } else {
                    assert(yl.remove(i)[m] == ys[m + 1]);
                }
            }
        }
        lemma_fold_tracks(s, yl.remove(i), ks);
        assert(keys(ys[i].time_below) == ks);
        assert(keys(ys[n - 1].time_below) == ks);
        lemma_merge_commutative(f, ys[i], ys.last());
        assert(ys.remove(i) =~= yl.remove(i).push(ys.last()));
        assert(ys.remove(i).drop_last() =~= yl.remove(i));
    }
}

/// Merging the dives of a run gives the same statistics in whatever order
/// they come: two lists that hold the same dives, each as many times, merge
/// to the same statistics.
pub proof fn lemma_merge_order_independent(
    s: StatsView,
    xs: Seq<DiveView>,
    ys: Seq<DiveView>,
    ks: Seq<nat>,
)
    requires
        xs.to_multiset() == ys.to_multiset(),
        same_thresholds(xs, ks),
        tracks(s, ks),
    ensures
        fold_view(s, xs) == fold_view(s, ys),
    decreases xs.len(),
{
    assert(xs.len() == ys.len()) by {
        assert(xs.len() == xs.to_multiset().len());
        assert(ys.len() == ys.to_multiset().len());
    }
    assert(same_thresholds(ys, ks)) by {
        assert forall|i: int| 0 <= i < ys.len() implies keys(#[trigger] ys[i].time_below) == ks by {
            assert(ys.contains(ys[i]));
            assert(ys.to_multiset().count(ys[i]) > 0);
            assert(xs.contains(ys[i]));
            let j = choose|j: int| 0 <= j < xs.len() && xs[j] == ys[i];
            assert(keys(xs[j].time_below) == ks);
        }
    }
    if xs.len() > 0 {
        let x = xs.last();
        assert(xs.contains(x)) by {
            assert(xs[xs.len() - 1] == x);
        }
        assert(ys.to_multiset().count(x) > 0);
        assert(ys.contains(x));
        let i = choose|i: int| 0 <= i < ys.len() && ys[i] == x;
        let xl = xs.drop_last();
        assert(xl =~= xs.remove(xs.len() - 1));
        assert(xl.to_multiset() == ys.remove(i).to_multiset());
        assert(same_thresholds(xl, ks));
        lemma_merge_order_independent(s, xl, ys.remove(i), ks);
        lemma_fold_move_to_end(s, ys, i, ks);
    } else {
        assert(ys.len() == 0);
    }
}

/// Merging a list in two batches, one after the other, is merging it whole.
pub proof fn lemma_merge_batches(s: StatsView, xs: Seq<DiveView>, ys: Seq<DiveView>)
    ensures
        fold_view(s, xs + ys) == fold_view(fold_view(s, xs), ys),
    decreases ys.len(),
{
    if ys.len() == 0 {
        assert(xs + ys =~= xs);
    } else {
        lemma_merge_batches(s, xs, ys.drop_last());
        assert((xs + ys).drop_last() =~= xs + ys.drop_last());
        assert((xs + ys).last() == ys.last());
    }
}

/// One dive merged into empty statistics: its scalar statistics, one dive,
/// and one dive in decompression exactly when it had time in decompression.
pub proof fn lemma_single_dive(d: DiveView)
    ensures
        merge_view(empty_view(), d).dives_no == 1,
        merge_view(empty_view(), d).total_time == d.total_time,
        merge_view(empty_view(), d).depth_max == d.depth_max,
        merge_view(empty_view(), d).time_in_deco == d.time_in_deco,
        merge_view(empty_view(), d).deco_dives_no == if d.time_in_deco > 0 {
            1nat
        } else {
            0nat
        },
        merge_view(empty_view(), d).gf_surf_max == d.gf_surf_max,
        merge_view(empty_view(), d).gf_99_max == d.gf_99_max,
        merge_view(empty_view(), d).gf_end_max == d.gf_end,
{
}

/// The maxima of merged statistics are at least those of every dive merged,
/// and of the statistics merged into.
pub proof fn lemma_maxima_dominate(s: StatsView, ds: Seq<DiveView>, i: int)
    requires
        0 <= i < ds.len(),
    ensures
        fold_view(s, ds).depth_max >= ds[i].depth_max,
        fold_view(s, ds).gf_surf_max >= ds[i].gf_surf_max,
        fold_view(s, ds).gf_99_max >= ds[i].gf_99_max,
        fold_view(s, ds).gf_end_max >= ds[i].gf_end,
        fold_view(s, ds).depth_max >= s.depth_max,
        fold_view(s, ds).gf_surf_max >= s.gf_surf_max,
        fold_view(s, ds).gf_99_max >= s.gf_99_max,
        fold_view(s, ds).gf_end_max >= s.gf_end_max,
    decreases ds.len(),
{
    let dl = ds.drop_last();
    if ds.len() > 1 {
        lemma_maxima_dominate(s, dl, if i < ds.len() - 1 { i } else { 0 });
    } else {
        assert(fold_view(s, dl) == s);
    }
}

/// A dive with all-zero statistics counts as one more dive and adds nothing
/// else: the scalar statistics stay, and so do the times below each depth.
pub proof fn lemma_zero_dive(s: StatsView, z: DiveView)
    requires
        z.total_time == 0,
        z.depth_max == 0,
        z.time_in_deco == 0,
        z.gf_surf_max == 0,
        z.gf_99_max == 0,
        z.gf_end == 0,
        forall|j: int| 0 <= j < z.time_below.len() ==> (#[trigger] z.time_below[j]).1 == 0,
        keys(z.time_below).no_duplicates(),
        tracks(s, keys(z.time_below)),
    ensures
        merge_view(s, z).dives_no == s.dives_no + 1,
        merge_view(s, z).total_time == s.total_time,
        merge_view(s, z).depth_max == s.depth_max,
        merge_view(s, z).time_in_deco == s.time_in_deco,
        merge_view(s, z).deco_dives_no == s.deco_dives_no,
        merge_view(s, z).gf_surf_max == s.gf_surf_max,
        merge_view(s, z).gf_99_max == s.gf_99_max,
        merge_view(s, z).gf_end_max == s.gf_end_max,
        s.time_below.len() > 0 ==> merge_view(s, z).time_below == s.time_below,
        s.time_below.len() == 0 ==> merge_view(s, z).time_below == z.time_below,
{
    if s.time_below.len() == 0 {
        assert(s.time_below =~= Seq::<(nat, nat)>::empty());
        lemma_merge_into_empty(z.time_below);
    } else {
        lemma_merge_same_keys(s.time_below, z.time_below);
        assert(add_pointwise(s.time_below, z.time_below, z.time_below.len() as int) =~= s.time_below);
    }
}

/// Statistics with the same view hold the same numbers, field by field and
/// entry by entry: the laws above, stated of views, speak of the values
/// themselves.
pub proof fn lemma_view_determines_stats(a: StatsData, b: StatsData)
    requires
        a@ == b@,
    ensures
        a.dives_no == b.dives_no,
        a.total_time == b.total_time,
        a.depth_max == b.depth_max,
        a.time_in_deco == b.time_in_deco,
        a.deco_dives_no == b.deco_dives_no,
        a.gf_surf_max == b.gf_surf_max,
        a.gf_99_max == b.gf_99_max,
        a.gf_end_max == b.gf_end_max,
        a.time_below@ == b.time_below@,
{
    assert(a@.time_below.len() == a.time_below@.len());
    assert(b@.time_below.len() == b.time_below@.len());
    assert forall|j: int| 0 <= j < a.time_below@.len() implies a.time_below@[j] == b.time_below@[j] by {
        assert(a@.time_below[j] == (a.time_below@[j].0 as nat, a.time_below@[j].1 as nat));
        assert(b@.time_below[j] == (b.time_below@[j].0 as nat, b.time_below@[j].1 as nat));
    }
    assert(a.time_below@ =~= b.time_below@);
}

} // verus!
