//! The grouping aggregator and ranker: filters rows by the configured
//! bounds, coalesces runs of rows that agree on the group keys, and ranks
//! the groups by descending count.

use vstd::prelude::*;
use vstd::seq_lib::group_to_multiset_ensures;

use crate::label::{label_of_row, row_label};
use crate::settings::{
    find_bound_mismatch, row_bounds_ok, row_excluded, row_is_excluded, vb_compat, PipelineError,
    Settings, ValueBound, YAxisKey,
};
use crate::value::{
    cmp_records, get_of, is_nested, keys_view, rec_matches, type_of, val_of, Cmp, Record,
    ValueType,
};

verus! {

broadcast use group_to_multiset_ensures;

/// One ranked group: its label, how many rows it holds, and its zero-based
/// display rank. A fresh list is produced on every recompute.
#[derive(Debug)]
pub struct Bar {
    pub label: String,
    pub count: usize,
    pub rank: usize,
}

/// The mathematical content of a bar list: each bar's label and count.
pub open spec fn bar_pairs(s: Seq<Bar>) -> Seq<(Seq<char>, int)> {
    Seq::new(s.len(), |i: int| (s[i].label@, s[i].count as int))
}

/// The mathematical content of a group list.
pub open spec fn group_pairs(s: Seq<(String, usize)>) -> Seq<(Seq<char>, int)> {
    Seq::new(s.len(), |i: int| (s[i].0@, s[i].1 as int))
}

/// The rows that the configured bounds keep.
pub open spec fn keep_pred(bounds: Seq<(String, ValueBound)>) -> spec_fn(Record) -> bool {
    |r: Record| !row_excluded(r@, bounds)
}

/// Run-length grouping of rows under a key list: a row extends the last
/// group when it agrees with the row just before it on every key, and
/// opens a new group, labelled with its own key values, otherwise.
pub open spec fn groups_of(s: Seq<Record>, keys: Seq<Seq<char>>) -> Seq<(Seq<char>, int)>
    decreases s.len(),
{
    if s.len() == 0 {
        Seq::empty()
    } else {
        let prev = groups_of(s.drop_last(), keys);
        let x = s.last();
        if s.len() > 1 && rec_matches(x@, s[s.len() - 2]@, keys) {
            prev.update(prev.len() - 1, (prev.last().0, prev.last().1 + 1))
        } else {
            prev.push((label_of_row(x@, keys), 1))
        }
    }
}

pub proof fn lemma_groups_of_nonempty(s: Seq<Record>, keys: Seq<Seq<char>>)
    ensures
        s.len() > 0 ==> groups_of(s, keys).len() >= 1,
    decreases s.len(),
{
    if s.len() > 0 {
        lemma_groups_of_nonempty(s.drop_last(), keys);
    }
}

/// Appending one kept row to the filtered sequence either extends the last
/// group or opens a new one.
proof fn lemma_groups_of_push(f: Seq<Record>, x: Record, keys: Seq<Seq<char>>)
    ensures
        f.len() > 0 && rec_matches(x@, f.last()@, keys) ==> groups_of(f.push(x), keys)
            == groups_of(f, keys).update(
            groups_of(f, keys).len() - 1,
            (groups_of(f, keys).last().0, groups_of(f, keys).last().1 + 1),
        ),
        !(f.len() > 0 && rec_matches(x@, f.last()@, keys)) ==> groups_of(f.push(x), keys)
            == groups_of(f, keys).push((label_of_row(x@, keys), 1)),
{
    let s = f.push(x);
    assert(s.drop_last() =~= f);
    assert(s.last() == x);
    if f.len() > 0 {
        assert(s[s.len() - 2] == f.last());
    }
}

pub proof fn lemma_filter_push(s: Seq<Record>, x: Record, p: spec_fn(Record) -> bool)
    ensures
        p(x) ==> s.push(x).filter(p) == s.filter(p).push(x),
        !p(x) ==> s.push(x).filter(p) == s.filter(p),
{
    reveal_with_fuel(Seq::<Record>::filter, 3);
    assert(s.push(x) =~= s + seq![x]);
    Seq::<Record>::filter_distributes_over_add(s, seq![x], p);
    assert(seq![x].drop_last() =~= Seq::<Record>::empty());
    if p(x) {
        assert(seq![x].filter(p) =~= seq![x]);
        assert(s.filter(p) + seq![x] =~= s.filter(p).push(x));
    } else {
        assert(seq![x].filter(p) =~= Seq::<Record>::empty());
        assert(s.filter(p) + Seq::<Record>::empty() =~= s.filter(p));
    }
}

/// Whether every row's bounds fit their fields' types.
pub open spec fn all_bounds_ok(rows: Seq<Record>, bounds: Seq<(String, ValueBound)>) -> bool {
    forall|i: int| 0 <= i < rows.len() ==> row_bounds_ok(#[trigger] rows[i]@, bounds)
}

/// Whether no row holds a nested composite value for any group key.
pub open spec fn keys_scalar(rows: Seq<Record>, keys: Seq<Seq<char>>) -> bool {
    forall|i: int, k: int|
        0 <= i < rows.len() && 0 <= k < keys.len() ==> !is_nested(
            type_of(val_of(#[trigger] rows[i]@, #[trigger] keys[k])),
        )
}


/// Filters the rows by the bounds and coalesces runs of kept rows that
/// agree on the group keys, counting each run.
pub fn group_rows(
    data: &Vec<Record>,
    bounds: &Vec<(String, ValueBound)>,
    keys: &Vec<String>,
) -> (groups: Vec<(String, usize)>)
    ensures
        group_pairs(groups@) == groups_of(data@.filter(keep_pred(bounds@)), keys_view(keys@)),
{
    let ghost kv = keys_view(keys@);
    let ghost p = keep_pred(bounds@);
    let mut groups: Vec<(String, usize)> = Vec::new();
    let mut prev: Option<&Record> = None;
    let mut i: usize = 0;
    proof {
        assert(data@.take(0) =~= Seq::<Record>::empty());
        reveal_with_fuel(Seq::<Record>::filter, 2);
        assert(Seq::<Record>::empty().filter(p) =~= Seq::<Record>::empty());
        assert(group_pairs(groups@) =~= groups_of(Seq::<Record>::empty().filter(p), kv));
    }
    while i < data.len()
        invariant
            i <= data@.len(),
            kv == keys_view(keys@),
            p == keep_pred(bounds@),
            group_pairs(groups@) == groups_of(data@.take(i as int).filter(p), kv),
            match prev {
                Some(q) => data@.take(i as int).filter(p).len() > 0 && *q == data@.take(
                    i as int,
                ).filter(p).last(),
                None => data@.take(i as int).filter(p).len() == 0,
            },
            forall|g: int| 0 <= g < groups@.len() ==> #[trigger] groups@[g].1 <= i,
        decreases data@.len() - i,
    {
        let ghost f = data@.take(i as int).filter(p);
        let row = &data[i];
        proof {
            assert(data@.take(i as int + 1) =~= data@.take(i as int).push(data@[i as int]));
            lemma_filter_push(data@.take(i as int), data@[i as int], p);
        }
        if row_is_excluded(row, bounds) {
            proof {
                assert(!p(data@[i as int]));
                assert(data@.take(i as int + 1).filter(p) == f);
            }
        } else {
            proof {
                assert(p(data@[i as int]));
                assert(data@.take(i as int + 1).filter(p) == f.push(data@[i as int]));
                lemma_groups_of_push(f, data@[i as int], kv);
            }
            let extend = match prev {
                Some(q) => {
                    let c = cmp_records(row, q, keys);
                    c == Cmp::Eq
                },
                None => false,
            };
            if extend {
                proof {
                    lemma_groups_of_nonempty(f, kv);
                }
                let last = groups.len() - 1;
                let c = groups[last].1;
                assert(c <= i);
                groups[last].1 = c + 1;
                proof {
                    let gs = groups_of(f, kv);
                    assert(group_pairs(groups@) =~= gs.update(
                        gs.len() - 1,
                        (gs.last().0, gs.last().1 + 1),
                    ));
                }
            } else {
                let lab = row_label(row, keys);
                groups.push((lab, 1));
                proof {
                    let gs = groups_of(f, kv);
                    assert(group_pairs(groups@) =~= gs.push((label_of_row(data@[i as int]@, kv), 1)));
                }
            }
            prev = Some(row);
        }
        i += 1;
    }
    proof {
        assert(data@.take(data@.len() as int) =~= data@);
    }
    groups
}

/// Finds a configured bound whose type does not fit some row's value, if
/// any, and names its field.
fn scan_bounds(data: &Vec<Record>, bounds: &Vec<(String, ValueBound)>) -> (res: Option<String>)
    ensures
        match res {
            Some(field) => !all_bounds_ok(data@, bounds@) && exists|i: int, j: int|
                0 <= i < data@.len() && 0 <= j < bounds@.len() && #[trigger] bounds@[j].0@
                    == field@ && match get_of(#[trigger] data@[i]@, bounds@[j].0@) {
                    Some(v) => !vb_compat(v, bounds@[j].1),
                    None => false,
                },
            None => all_bounds_ok(data@, bounds@),
        },
{
    let mut i: usize = 0;
    while i < data.len()
        invariant
            i <= data@.len(),
            forall|ii: int| 0 <= ii < i ==> row_bounds_ok(#[trigger] data@[ii]@, bounds@),
        decreases data@.len() - i,
    {
        match find_bound_mismatch(&data[i], bounds) {
            Some(j) => {
                let field = bounds[j].0.clone();
                proof {
                    assert(!row_bounds_ok(data@[i as int]@, bounds@));
                }
                return Some(field);
            },
            None => {},
        }
        i += 1;
    }
    None
}

/// Finds a group key for which some row holds a nested composite value,
/// if any.
fn scan_keys(data: &Vec<Record>, keys: &Vec<String>) -> (res: Option<String>)
    ensures
        match res {
            Some(field) => !keys_scalar(data@, keys_view(keys@)) && exists|i: int, k: int|
                0 <= i < data@.len() && 0 <= k < keys@.len() && #[trigger] keys@[k]@ == field@
                    && is_nested(type_of(val_of(#[trigger] data@[i]@, field@))),
            None => keys_scalar(data@, keys_view(keys@)),
        },
{
    let ghost kv = keys_view(keys@);
    proof {
        assert(kv.len() == keys@.len());
    }
    let mut i: usize = 0;
    while i < data.len()
        invariant
            i <= data@.len(),
            kv == keys_view(keys@),
            kv.len() == keys@.len(),
            forall|ii: int, k: int|
                0 <= ii < i && 0 <= k < kv.len() ==> !is_nested(
                    type_of(val_of(#[trigger] data@[ii]@, #[trigger] kv[k])),
                ),
        decreases data@.len() - i,
    {
        let mut k: usize = 0;
        while k < keys.len()
            invariant
                i < data@.len(),
                k <= keys@.len(),
                kv == keys_view(keys@),
                kv.len() == keys@.len(),
                forall|kk: int|
                    0 <= kk < k ==> !is_nested(
                        type_of(val_of(data@[i as int]@, #[trigger] kv[kk])),
                    ),
            decreases keys@.len() - k,
        {
            proof {
                assert(kv[k as int] == keys@[k as int]@);
            }
            let nested = match data[i].get(&keys[k]) {
                Some(v) => {
                    let t = v.value_type();
                    t == ValueType::Obj || t == ValueType::Arr
                },
                None => false,
            };
            if nested {
                return Some(keys[k].clone());
            }
            k += 1;
        }
        i += 1;
    }
    None
}

/// Finds where to insert group `i` among the descending-sorted groups
/// before it: the first position whose group counts strictly less.
fn find_desc_pos(work: &Vec<(String, usize)>, i: usize) -> (p: usize)
    requires
        i < work@.len(),
    ensures
        p <= i,
        forall|q: int| 0 <= q < p ==> #[trigger] work@[q].1 >= work@[i as int].1,
        p < i ==> work@[p as int].1 < work@[i as int].1,
{
    let mut p: usize = 0;
    while p < i
        invariant
            p <= i,
            i < work@.len(),
            forall|q: int| 0 <= q < p ==> #[trigger] work@[q].1 >= work@[i as int].1,
        decreases i - p,
    {
        if work[p].1 < work[i].1 {
            return p;
        }
        p += 1;
    }
    p
}

/// Sorts the groups by descending count (stably) and assigns each its
/// zero-based rank in that order.
pub fn rank_groups(groups: Vec<(String, usize)>) -> (bars: Vec<Bar>)
    ensures
        bars@.len() == groups@.len(),
        forall|i: int| 0 <= i < bars@.len() ==> #[trigger] bars@[i].rank == i,
        forall|i: int, j: int| 0 <= i < j < bars@.len() ==> bars@[i].count >= bars@[j].count,
        bar_pairs(bars@).to_multiset() == group_pairs(groups@).to_multiset(),
{
    let mut work = groups;
    let ghost orig = work@;
    let mut i: usize = 1;
    while i < work.len()
        invariant
            i >= 1,
            work@.len() == 0 ==> i == 1,
            work@.len() > 0 ==> i <= work@.len(),
            work@.len() == orig.len(),
            group_pairs(work@).to_multiset() == group_pairs(orig).to_multiset(),
            forall|q1: int, q2: int|
                0 <= q1 < q2 < i ==> #[trigger] work@[q1].1 >= #[trigger] work@[q2].1,
        decreases work@.len() - i,
    {
        let pos = find_desc_pos(&work, i);
        let ghost s = work@;
        let x = work.remove(i);
        work.insert(pos, x);
        proof {
            let pp = pos as int;
            let ii = i as int;
            let t = work@;
            s.remove_ensures(ii);
            s.remove(ii).insert_ensures(pp, x);
            assert(group_pairs(s.remove(ii)) =~= group_pairs(s).remove(ii));
            assert(group_pairs(t) =~= group_pairs(s).remove(ii).insert(pp, (x.0@, x.1 as int)));
            assert(group_pairs(s)[ii] == (x.0@, x.1 as int));
            assert(group_pairs(s).to_multiset().contains((x.0@, x.1 as int)));
            assert(group_pairs(t).to_multiset() =~= group_pairs(s).to_multiset());
            assert forall|q1: int, q2: int| 0 <= q1 < q2 < ii + 1 implies #[trigger] t[q1].1
                >= #[trigger] t[q2].1 by {
                if q1 < pp && q2 == pp {
                    assert(t[q1] == s[q1] && t[q2] == x);
                } else if q1 < pp && q2 > pp {
                    assert(t[q1] == s[q1] && t[q2] == s[q2 - 1]);
                } else if q1 == pp && q2 > pp {
                    assert(t[q1] == x && t[q2] == s[q2 - 1]);
                    assert(s[pp].1 < x.1);
                    if q2 - 1 > pp {
                        assert(s[pp].1 >= s[q2 - 1].1);
                    }
                } else if q1 > pp {
                    assert(t[q1] == s[q1 - 1] && t[q2] == s[q2 - 1]);
                } else {
                    assert(t[q1] == s[q1] && t[q2] == s[q2]);
                }
            }
        }
        i += 1;
    }
    let mut bars: Vec<Bar> = Vec::new();
    let mut idx: usize = 0;
    while idx < work.len()
        invariant
            idx <= work@.len(),
            bars@.len() == idx,
            forall|q: int| 0 <= q < idx ==> #[trigger] bars@[q].rank == q,
            forall|q: int|
                0 <= q < idx ==> (#[trigger] bars@[q].label@, bars@[q].count as int)
                    == group_pairs(work@)[q],
            forall|q1: int, q2: int|
                0 <= q1 < q2 < work@.len() ==> #[trigger] work@[q1].1 >= #[trigger] work@[q2].1,
            group_pairs(work@).to_multiset() == group_pairs(orig).to_multiset(),
            work@.len() == orig.len(),
        decreases work@.len() - idx,
    {
        let lab = work[idx].0.clone();
        let cnt = work[idx].1;
        bars.push(Bar { label: lab, count: cnt, rank: idx });
        idx += 1;
    }
    proof {
        assert(bar_pairs(bars@) =~= group_pairs(work@));
        assert forall|q1: int, q2: int|
            0 <= q1 < q2 < bars@.len() implies bars@[q1].count >= bars@[q2].count by {
            assert((bars@[q1].label@, bars@[q1].count as int) == group_pairs(work@)[q1]);
            assert((bars@[q2].label@, bars@[q2].count as int) == group_pairs(work@)[q2]);
            assert(work@[q1].1 >= work@[q2].1);
        }
    }
    bars
}


/// Builds the ranked bar list for the table under the configuration:
/// rows kept by the bounds are grouped by runs of equal key values and the
/// groups are ranked by descending count.
///
/// An empty group key list yields an empty bar list regardless of the
/// data, the bounds and the aggregation mode. Otherwise the call succeeds
/// exactly when the aggregation mode is `Count`, every configured bound
/// fits its field's values, and no group key reaches a nested composite
/// value; the two latter failures are broken invariants that validation
/// would have rejected, reported as errors distinct from validation's own.
///
/// The rows are expected already sorted by the group keys; this function
/// itself only coalesces adjacent runs, as the aggregator is defined to.
pub fn make_bars(data: &Vec<Record>, settings: &Settings) -> (r: Result<Vec<Bar>, PipelineError>)
    ensures
        match r {
            Ok(bars) => {
                &&& (settings.x_axis@.len() == 0 ==> bars@.len() == 0)
                &&& (settings.x_axis@.len() > 0 ==> {
                    let gs = groups_of(
                        data@.filter(keep_pred(settings.bounds@)),
                        keys_view(settings.x_axis@),
                    );
                    &&& settings.y_axis is Count
                    &&& all_bounds_ok(data@, settings.bounds@)
                    &&& keys_scalar(data@, keys_view(settings.x_axis@))
                    &&& bars@.len() == gs.len()
                    &&& (forall|i: int| 0 <= i < bars@.len() ==> #[trigger] bars@[i].rank == i)
                    &&& (forall|i: int, j: int|
                        0 <= i < j < bars@.len() ==> bars@[i].count >= bars@[j].count)
                    &&& bar_pairs(bars@).to_multiset() == gs.to_multiset()
                })
            },
            Err(e) => {
                &&& settings.x_axis@.len() > 0
                &&& match e {
                    PipelineError::UnsupportedAggregation => !(settings.y_axis is Count),
                    PipelineError::BoundTypeMismatch { field } => {
                        &&& settings.y_axis is Count
                        &&& !all_bounds_ok(data@, settings.bounds@)
                        &&& exists|i: int, j: int|
                            0 <= i < data@.len() && 0 <= j < settings.bounds@.len()
                                && #[trigger] settings.bounds@[j].0@ == field@ && match get_of(
                                #[trigger] data@[i]@,
                                settings.bounds@[j].0@,
                            ) {
                                Some(v) => !vb_compat(v, settings.bounds@[j].1),
                                None => false,
                            }
                    },
                    PipelineError::KeyTypeConflict { field } => {
                        &&& settings.y_axis is Count
                        &&& all_bounds_ok(data@, settings.bounds@)
                        &&& !keys_scalar(data@, keys_view(settings.x_axis@))
                        &&& exists|i: int, k: int|
                            0 <= i < data@.len() && 0 <= k < settings.x_axis@.len()
                                && #[trigger] settings.x_axis@[k]@ == field@ && is_nested(
                                type_of(val_of(#[trigger] data@[i]@, field@)),
                            )
                    },
                }
            },
        },
{
    if settings.x_axis.len() == 0 {
        return Ok(Vec::new());
    }
    match settings.y_axis {
        YAxisKey::Key(_) => {
            return Err(PipelineError::UnsupportedAggregation);
        },
        YAxisKey::Count => {},
    }
    match scan_bounds(data, &settings.bounds) {
        Some(field) => {
            return Err(PipelineError::BoundTypeMismatch { field });
        },
        None => {},
    }
    match scan_keys(data, &settings.x_axis) {
        Some(field) => {
            return Err(PipelineError::KeyTypeConflict { field });
        },
        None => {},
    }
    let groups = group_rows(data, &settings.bounds, &settings.x_axis);
    let bars = rank_groups(groups);
    Ok(bars)
}

} // verus!
