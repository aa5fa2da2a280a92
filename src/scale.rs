use vstd::prelude::*;

verus! {

broadcast use vstd::seq_lib::group_seq_properties;

/// The smaller of two optional values; an absent value gives way to the other.
pub open spec fn lower(a: Option<i32>, b: Option<i32>) -> Option<i32> {
    match (a, b) {
        (None, _) => b,
        (_, None) => a,
        (Some(x), Some(y)) => Some(if y < x { y } else { x }),
    }
}

/// The larger of two optional values; an absent value gives way to the other.
pub open spec fn upper(a: Option<i32>, b: Option<i32>) -> Option<i32> {
    match (a, b) {
        (None, _) => b,
        (_, None) => a,
        (Some(x), Some(y)) => Some(if y > x { y } else { x }),
    }
}

/// The least sample present in `s`, if any sample is present.
pub open spec fn lowest(s: Seq<Option<i32>>) -> Option<i32>
    decreases s.len(),
{
    if s.len() == 0 {
        None
    } else {
        lower(lowest(s.drop_last()), s.last())
    }
}

/// The greatest sample present in `s`, if any sample is present.
pub open spec fn highest(s: Seq<Option<i32>>) -> Option<i32>
    decreases s.len(),
{
    if s.len() == 0 {
        None
    } else {
        upper(highest(s.drop_last()), s.last())
    }
}

/// `v` is a sample present in `s`.
pub open spec fn holds_value(s: Seq<Option<i32>>, v: i32) -> bool {
    s.contains(Some(v))
}

/// `lo` and `hi` are the least and the greatest sample present in `s`.
pub open spec fn are_bounds(s: Seq<Option<i32>>, lo: i32, hi: i32) -> bool {
    &&& holds_value(s, lo)
    &&& holds_value(s, hi)
    &&& forall|i: int| 0 <= i < s.len() && s[i] is Some ==> lo <= s[i]->0 <= hi
}

/// All samples of all series, series after series.
pub open spec fn all_samples(series: Seq<Seq<Option<i32>>>) -> Seq<Option<i32>> {
    series.flatten()
}

/// The least and greatest samples of `s` are what their recursive definitions
/// give: present in `s`, and bounding every present sample.
pub proof fn lemma_lowest_highest(s: Seq<Option<i32>>)
    ensures
        lowest(s) is None <==> (forall|i: int| 0 <= i < s.len() ==> s[i] is None),
        highest(s) is None <==> lowest(s) is None,
        lowest(s) is Some ==> are_bounds(s, lowest(s)->0, highest(s)->0),
    decreases s.len(),
{
    if s.len() > 0 {
        let p = s.drop_last();
        lemma_lowest_highest(p);
        assert forall|i: int| 0 <= i < p.len() implies p[i] == s[i] by {}
        if lowest(s) is Some {
            let lo = lowest(s)->0;
            let hi = highest(s)->0;
            if lowest(p) is Some {
                assert(holds_value(p, lowest(p)->0));
                assert(holds_value(p, highest(p)->0));
                let a = choose|i: int| 0 <= i < p.len() && p[i] == Some(lowest(p)->0);
                let b = choose|i: int| 0 <= i < p.len() && p[i] == Some(highest(p)->0);
                assert(s[a] == p[a]);
                assert(s[b] == p[b]);
            }
            assert(s[s.len() - 1] == s.last());
            assert(holds_value(s, lo));
            assert(holds_value(s, hi));
        } else {
            assert forall|i: int| 0 <= i < s.len() implies s[i] is None by {
                if i < s.len() - 1 {
                    assert(p[i] is None);
                }
            }
        }
        if lowest(s) is None {
            assert(s[s.len() - 1] == s.last());
        }
    }
}

/// The bounds of two series put end to end combine the bounds of each.
pub proof fn lemma_bounds_concat(a: Seq<Option<i32>>, b: Seq<Option<i32>>)
    ensures
        lowest(a + b) == lower(lowest(a), lowest(b)),
        highest(a + b) == upper(highest(a), highest(b)),
    decreases b.len(),
{
    if b.len() == 0 {
        assert(a + b =~= a);
    } else {
        lemma_bounds_concat(a, b.drop_last());
        assert((a + b).drop_last() =~= a + b.drop_last());
        assert((a + b).last() == b.last());
    }
}

/// The least and greatest samples of a series do not depend on the order of
/// its samples: two series holding the same samples, each as many times, have
/// the same bounds.
pub proof fn lemma_bounds_ignore_order(s: Seq<Option<i32>>, t: Seq<Option<i32>>)
    requires
        s.to_multiset() =~= t.to_multiset(),
    ensures
        lowest(s) == lowest(t),
        highest(s) == highest(t),
{
    lemma_lowest_highest(s);
    lemma_lowest_highest(t);
    assert forall|v: Option<i32>| s.contains(v) <==> t.contains(v) by {
        s.to_multiset_ensures();
        t.to_multiset_ensures();
        assert(s.to_multiset().count(v) == t.to_multiset().count(v));
    }
    if lowest(s) is Some {
        if lowest(t) is None {
            let i = choose|i: int| 0 <= i < s.len() && s[i] == Some(lowest(s)->0);
            assert(t.contains(s[i]));
        }
        let (ls, hs, lt, ht) = (lowest(s)->0, highest(s)->0, lowest(t)->0, highest(t)->0);
        assert(t.contains(Some(ls)));
        assert(s.contains(Some(lt)));
        assert(t.contains(Some(hs)));
        assert(s.contains(Some(ht)));
    } else if lowest(t) is Some {
        let i = choose|i: int| 0 <= i < t.len() && t[i] == Some(lowest(t)->0);
        assert(s.contains(t[i]));
    }
}

/// Every sample of every series is among all the samples.
pub proof fn lemma_flatten_holds(series: Seq<Seq<Option<i32>>>, k: int, x: int)
    requires
        0 <= k < series.len(),
        0 <= x < series[k].len(),
    ensures
        series.flatten().contains(series[k][x]),
    decreases k,
{
    let first = series.first();
    let rest = series.drop_first();
    if k == 0 {
        assert((first + rest.flatten())[x] == series[k][x]);
    } else {
        lemma_flatten_holds(rest, k - 1, x);
        let i = choose|i: int| 0 <= i < rest.flatten().len() && rest.flatten()[i] == rest[k - 1][x];
        assert((first + rest.flatten())[first.len() + i] == series[k][x]);
    }
}

/// Every sample present in any series lies between the least and the greatest
/// of all samples.
pub proof fn lemma_sample_in_all(series: Seq<Seq<Option<i32>>>, k: int, x: int)
    requires
        0 <= k < series.len(),
        0 <= x < series[k].len(),
        series[k][x] is Some,
    ensures
        lowest(all_samples(series)) is Some,
        lowest(all_samples(series))->0 <= series[k][x]->0 <= highest(all_samples(series))->0,
{
    let all = all_samples(series);
    lemma_flatten_holds(series, k, x);
    lemma_lowest_highest(all);
    let i = choose|i: int| 0 <= i < all.len() && all[i] == series[k][x];
    assert(all[i] is Some);
}

/// The least and greatest sample present in one series, or `None` where every
/// sample is a gap.
pub fn min_max(series: &[Option<i32>]) -> (r: Option<(i32, i32)>)
    ensures
        r is None <==> lowest(series@) is None,
        r is None <==> highest(series@) is None,
        r is Some ==> r->0 == (lowest(series@)->0, highest(series@)->0),
        r is None <==> (forall|i: int| 0 <= i < series@.len() ==> series@[i] is None),
        r matches Some((lo, hi)) ==> are_bounds(series@, lo, hi),
{
    let mut lo: Option<i32> = None;
    let mut hi: Option<i32> = None;
    let mut i: usize = 0;
    while i < series.len()
        invariant
            i <= series@.len(),
            lo == lowest(series@.subrange(0, i as int)),
            hi == highest(series@.subrange(0, i as int)),
        decreases series@.len() - i,
    {
        let ghost before = series@.subrange(0, i as int);
        assert(series@.subrange(0, i + 1).drop_last() =~= before);
        if let Some(v) = series[i] {
            lo = match lo {
                None => Some(v),
                Some(m) => Some(if v < m { v } else { m }),
            };
            hi = match hi {
                None => Some(v),
                Some(m) => Some(if v > m { v } else { m }),
            };
        }
        i = i + 1;
    }
    assert(series@.subrange(0, series@.len() as int) =~= series@);
    proof {
        lemma_lowest_highest(series@);
    }
    match (lo, hi) {
        (Some(l), Some(h)) => Some((l, h)),
        _ => None,
    }
}

/// The least and greatest sample present in any of the series, or `None` where
/// no series holds a sample.
pub fn bounds(series: &Vec<Vec<Option<i32>>>) -> (r: Option<(i32, i32)>)
    ensures
        r is None <==> lowest(all_samples(series.deep_view())) is None,
        r is Some ==> r->0 == (
            lowest(all_samples(series.deep_view()))->0,
            highest(all_samples(series.deep_view()))->0,
        ),
        r matches Some((lo, hi)) ==> are_bounds(all_samples(series.deep_view()), lo, hi),
{
    let ghost all = series.deep_view();
    let mut lo: Option<i32> = None;
    let mut hi: Option<i32> = None;
    let mut k: usize = 0;
    while k < series.len()
        invariant
            k <= series@.len(),
            all == series.deep_view(),
            lo == lowest(all.subrange(0, k as int).flatten()),
            hi == highest(all.subrange(0, k as int).flatten()),
        decreases series@.len() - k,
    {
        let ghost before = all.subrange(0, k as int);
        proof {
            assert(all.subrange(0, k + 1) =~= before.push(all[k as int]));
            before.lemma_flatten_push(all[k as int]);
            lemma_bounds_concat(before.flatten(), all[k as int]);
        }
        let part = min_max(series[k].as_slice());
        assert(series[k as int]@ == all[k as int]);
        match part {
            Some((l, h)) => {
                lo = match lo {
                    None => Some(l),
                    Some(m) => Some(if l < m { l } else { m }),
                };
                hi = match hi {
                    None => Some(h),
                    Some(m) => Some(if h > m { h } else { m }),
                };
            },
            None => {},
        }
        k = k + 1;
    }
    assert(all.subrange(0, series@.len() as int) =~= all);
    proof {
        lemma_lowest_highest(all.flatten());
    }
    match (lo, hi) {
        (Some(l), Some(h)) => Some((l, h)),
        _ => None,
    }
}

} // verus!
