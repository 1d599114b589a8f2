//! The pipeline's owner: validates a table once at construction and
//! recomputes the ranked bar list after every configuration change.

use vstd::prelude::*;
use vstd::relations::sorted_by;
use vstd::seq_lib::group_to_multiset_ensures;

use crate::bars::{
    all_bounds_ok, bar_pairs, groups_of, keep_pred, keys_scalar, make_bars, Bar,
};
use crate::settings::{PipelineError, Settings, ValueBound};
use crate::sort::{keys_consistent, sort_arr};
use crate::value::{
    chars_key, get_of, is_nested, keys_view, lex_cmp, lemma_lex_cmp_flip, lemma_lex_cmp_le_trans,
    rec_le_rel, type_of, cmp_chars, Cmp, RecView, Record, ValueType,
};

verus! {

broadcast use group_to_multiset_ensures;

/// Why a table was rejected at construction: it was empty, two records
/// disagreed on a field's non-Null type, or some value was a nested
/// composite.
#[derive(Clone, Debug, PartialEq)]
pub enum AppCreationErr {
    NoData,
    DifferentTypes { key: String, expected: ValueType, found: ValueType },
    NestedTypes(ValueType),
}

/// Whether any value anywhere in the table is a nested composite.
pub open spec fn table_has_nested(rows: Seq<Record>) -> bool {
    exists|i: int, j: int|
        0 <= i < rows.len() && 0 <= j < rows[i]@.len() && is_nested(
            type_of((#[trigger] rows[i]@[j]).1),
        )
}

/// Whether some record after the first disagrees with the first record on
/// a field's type, with neither value Null. Null is a wildcard: a pairing
/// with Null on either side never mismatches, and a field absent from the
/// first record constrains nothing.
pub open spec fn table_has_mismatch(rows: Seq<Record>) -> bool {
    exists|i: int, j: int|
        1 <= i < rows.len() && 0 <= j < rows[i]@.len() && match get_of(
            rows[0]@,
            (#[trigger] rows[i]@[j]).0,
        ) {
            Some(f) => !(f is Null) && !(rows[i]@[j].1 is Null) && type_of(f) != type_of(
                rows[i]@[j].1,
            ),
            None => false,
        }
}

/// The schema drawn from one record: each field's name with its observed
/// type, in field order.
pub open spec fn schema_pairs(r: RecView) -> Seq<(Seq<char>, ValueType)> {
    Seq::new(r.len(), |j: int| (r[j].0, type_of(r[j].1)))
}

/// The mathematical content of a schema list.
pub open spec fn schema_view(s: Seq<(String, ValueType)>) -> Seq<(Seq<char>, ValueType)> {
    Seq::new(s.len(), |j: int| (s[j].0@, s[j].1))
}

/// Order of schema entries: by field name, lexicographically by code
/// point.
pub open spec fn schema_le_rel() -> spec_fn((String, ValueType), (String, ValueType)) -> bool {
    |a: (String, ValueType), b: (String, ValueType)|
        lex_cmp(chars_key(a.0@), chars_key(b.0@)) != Cmp::Gt
}

/// Finds where to insert schema entry `i` among the name-sorted entries
/// before it: the first position whose name compares greater.
fn find_name_pos(schema: &Vec<(String, ValueType)>, i: usize) -> (p: usize)
    requires
        i < schema@.len(),
    ensures
        p <= i,
        forall|q: int|
            0 <= q < p ==> lex_cmp(
                chars_key(#[trigger] schema@[q].0@),
                chars_key(schema@[i as int].0@),
            ) != Cmp::Gt,
        p < i ==> lex_cmp(chars_key(schema@[p as int].0@), chars_key(schema@[i as int].0@))
            == Cmp::Gt,
{
    let mut p: usize = 0;
    while p < i
        invariant
            p <= i,
            i < schema@.len(),
            forall|q: int|
                0 <= q < p ==> lex_cmp(
                    chars_key(#[trigger] schema@[q].0@),
                    chars_key(schema@[i as int].0@),
                ) != Cmp::Gt,
        decreases i - p,
    {
        let c = cmp_chars(schema[p].0.as_str(), schema[i].0.as_str());
        if c == Cmp::Gt {
            return p;
        }
        p += 1;
    }
    p
}

/// Checks that a table is non-empty, flat and field-type-consistent, and
/// derives its schema: the first record's fields with their observed
/// types, sorted by field name.
///
/// Exactly one of the outcomes holds: `NoData` for an empty table;
/// `NestedTypes` when some value anywhere in the table is a nested
/// composite; `DifferentTypes` when, with the table flat, some record
/// disagrees with the first record on a field's non-Null type; otherwise
/// the sorted schema.
pub fn validate(data: &Vec<Record>) -> (r: Result<Vec<(String, ValueType)>, AppCreationErr>)
    ensures
        match r {
            Ok(schema) => {
                &&& data@.len() > 0
                &&& !table_has_nested(data@)
                &&& !table_has_mismatch(data@)
                &&& sorted_by(schema@, schema_le_rel())
                &&& schema_view(schema@).to_multiset() == schema_pairs(data@[0]@).to_multiset()
            },
            Err(AppCreationErr::NoData) => data@.len() == 0,
            Err(AppCreationErr::NestedTypes(t)) => {
                &&& data@.len() > 0
                &&& table_has_nested(data@)
                &&& is_nested(t)
                &&& exists|i: int, j: int|
                    0 <= i < data@.len() && 0 <= j < data@[i]@.len() && type_of(
                        (#[trigger] data@[i]@[j]).1,
                    ) == t
            },
            Err(AppCreationErr::DifferentTypes { key, expected, found }) => {
                &&& data@.len() > 0
                &&& !table_has_nested(data@)
                &&& table_has_mismatch(data@)
                &&& expected != found
                &&& expected != ValueType::Null
                &&& found != ValueType::Null
                &&& (match get_of(data@[0]@, key@) {
                    Some(f) => type_of(f) == expected,
                    None => false,
                })
                &&& exists|i: int, j: int|
                    1 <= i < data@.len() && 0 <= j < data@[i]@.len()
                        && (#[trigger] data@[i]@[j]).0 == key@ && type_of(data@[i]@[j].1) == found
            },
        },
{
    if data.len() == 0 {
        return Err(AppCreationErr::NoData);
    }
    let mut i: usize = 0;
    while i < data.len()
        invariant
            i <= data@.len(),
            forall|ii: int, j: int|
                0 <= ii < i && 0 <= j < data@[ii]@.len() ==> !is_nested(
                    type_of((#[trigger] data@[ii]@[j]).1),
                ),
        decreases data@.len() - i,
    {
        let mut j: usize = 0;
        while j < data[i].fields.len()
            invariant
                i < data@.len(),
                j <= data@[i as int]@.len(),
                data@[i as int]@.len() == data@[i as int].fields@.len(),
                forall|jj: int|
                    0 <= jj < j ==> !is_nested(type_of((#[trigger] data@[i as int]@[jj]).1)),
            decreases data@[i as int]@.len() - j,
        {
            let t = data[i].fields[j].1.value_type();
            proof {
                assert(data@[i as int]@[j as int].1 == data@[i as int].fields@[j as int].1@);
            }
            if t == ValueType::Obj || t == ValueType::Arr {
                proof {
                    assert(0 <= i < data@.len() && 0 <= j < (data@[i as int]@).len()
                        && is_nested(type_of(data@[i as int]@[j as int].1)));
                }
                return Err(AppCreationErr::NestedTypes(t));
            }
            j += 1;
        }
        i += 1;
    }
    proof {
        if table_has_nested(data@) {
            let (wi, wj) = choose|wi: int, wj: int|
                0 <= wi < data@.len() && 0 <= wj < data@[wi]@.len() && is_nested(
                    type_of((#[trigger] data@[wi]@[wj]).1),
                );
            assert(!is_nested(type_of(data@[wi]@[wj].1)));
        }
    }

    let mut i2: usize = 1;
    while i2 < data.len()
        invariant
            1 <= i2 <= data@.len(),
            data@.len() > 0,
            !table_has_nested(data@),
            forall|ii: int, j: int|
                1 <= ii < i2 && 0 <= j < data@[ii]@.len() ==> match get_of(
                    data@[0]@,
                    (#[trigger] data@[ii]@[j]).0,
                ) {
                    Some(f) => f is Null || data@[ii]@[j].1 is Null || type_of(f) == type_of(
                        data@[ii]@[j].1,
                    ),
                    None => true,
                },
        decreases data@.len() - i2,
    {
        let mut j2: usize = 0;
        while j2 < data[i2].fields.len()
            invariant
                1 <= i2 < data@.len(),
                !table_has_nested(data@),
                j2 <= data@[i2 as int]@.len(),
                data@[i2 as int]@.len() == data@[i2 as int].fields@.len(),
                forall|jj: int|
                    0 <= jj < j2 ==> match get_of(data@[0]@, (#[trigger] data@[i2 as int]@[jj]).0) {
                        Some(f) => f is Null || data@[i2 as int]@[jj].1 is Null || type_of(f)
                            == type_of(data@[i2 as int]@[jj].1),
                        None => true,
                    },
            decreases data@[i2 as int]@.len() - j2,
        {
            let found_t = data[i2].fields[j2].1.value_type();
            proof {
                assert(data@[i2 as int]@[j2 as int]
                    == (data@[i2 as int].fields@[j2 as int].0@, data@[i2 as int].fields@[j2 as int].1@));
            }
            match data[0].get(&data[i2].fields[j2].0) {
                Some(fv) => {
                    let exp_t = fv.value_type();
                    if exp_t != ValueType::Null && found_t != ValueType::Null && exp_t != found_t
                    {
                        proof {
                            assert(1 <= i2 < data@.len() && 0 <= j2 < (data@[i2 as int]@).len()
                                && match get_of(data@[0]@, data@[i2 as int]@[j2 as int].0) {
                                Some(f) => !(f is Null) && !(data@[i2 as int]@[j2 as int].1
                                    is Null) && type_of(f) != type_of(
                                    data@[i2 as int]@[j2 as int].1,
                                ),
                                None => false,
                            });
                        }
                        return Err(
                            AppCreationErr::DifferentTypes {
                                key: data[i2].fields[j2].0.clone(),
                                expected: exp_t,
                                found: found_t,
                            },
                        );
                    }
                },
                None => {},
            }
            j2 += 1;
        }
        i2 += 1;
    }
    proof {
        if table_has_mismatch(data@) {
            let (wi, wj) = choose|wi: int, wj: int|
                1 <= wi < data@.len() && 0 <= wj < data@[wi]@.len() && match get_of(
                    data@[0]@,
                    (#[trigger] data@[wi]@[wj]).0,
                ) {
                    Some(f) => !(f is Null) && !(data@[wi]@[wj].1 is Null) && type_of(f)
                        != type_of(data@[wi]@[wj].1),
                    None => false,
                };
            assert(match get_of(data@[0]@, data@[wi]@[wj].0) {
                Some(f) => f is Null || data@[wi]@[wj].1 is Null || type_of(f) == type_of(
                    data@[wi]@[wj].1,
                ),
                None => true,
            });
        }
    }

    let mut schema: Vec<(String, ValueType)> = Vec::new();
    let mut j3: usize = 0;
    while j3 < data[0].fields.len()
        invariant
            data@.len() > 0,
            j3 <= data@[0]@.len(),
            data@[0]@.len() == data@[0].fields@.len(),
            schema@.len() == j3,
            forall|q: int|
                0 <= q < j3 ==> (#[trigger] schema@[q].0@, schema@[q].1) == schema_pairs(
                    data@[0]@,
                )[q],
        decreases data@[0]@.len() - j3,
    {
        let name = data[0].fields[j3].0.clone();
        let ty = data[0].fields[j3].1.value_type();
        schema.push((name, ty));
        proof {
            assert(data@[0]@[j3 as int]
                == (data@[0].fields@[j3 as int].0@, data@[0].fields@[j3 as int].1@));
        }
        j3 += 1;
    }
    proof {
        assert(schema_view(schema@) =~= schema_pairs(data@[0]@));
    }

    sort_schema(&mut schema);
    Ok(schema)
}

/// Sorts schema entries by field name, keeping the same entries.
fn sort_schema(schema: &mut Vec<(String, ValueType)>)
    ensures
        schema_view(final(schema)@).to_multiset() == schema_view(old(schema)@).to_multiset(),
        sorted_by(final(schema)@, schema_le_rel()),
{
    let ghost orig = schema@;
    let ghost rel = schema_le_rel();
    let mut si: usize = 1;
    while si < schema.len()
        invariant
            si >= 1,
            schema@.len() == 0 ==> si == 1,
            schema@.len() > 0 ==> si <= schema@.len(),
            schema@.len() == orig.len(),
            rel == schema_le_rel(),
            schema_view(schema@).to_multiset() == schema_view(orig).to_multiset(),
            schema@.len() > 0 ==> sorted_by(schema@.take(si as int), rel),
        decreases schema@.len() - si,
    {
        let pos = find_name_pos(&*schema, si);
        let ghost s = schema@;
        let x = schema.remove(si);
        schema.insert(pos, x);
        proof {
            let pp = pos as int;
            let ii = si as int;
            let t = schema@;
            s.remove_ensures(ii);
            s.remove(ii).insert_ensures(pp, x);
            assert(schema_view(s.remove(ii)) =~= schema_view(s).remove(ii));
            assert(schema_view(t) =~= schema_view(s).remove(ii).insert(pp, (x.0@, x.1)));
            assert(schema_view(s)[ii] == (x.0@, x.1));
            assert(schema_view(s).to_multiset().contains((x.0@, x.1)));
            assert(schema_view(t).to_multiset() =~= schema_view(s).to_multiset());
            let ghost tk = t.take(ii + 1);
            assert forall|q1: int, q2: int| #![trigger tk[q1], tk[q2]]
                0 <= q1 < q2 < ii + 1 implies rel(tk[q1], tk[q2]) by {
                let a = tk[q1];
                let b = tk[q2];
                if q1 < pp && q2 < pp {
                    assert(rel(s.take(ii)[q1], s.take(ii)[q2]));
                } else if q1 < pp && q2 == pp {
                    assert(a == s[q1] && b == x);
                } else if q1 < pp && q2 > pp {
                    assert(a == s[q1] && b == s[q2 - 1]);
                    assert(rel(s.take(ii)[q1], s.take(ii)[q2 - 1]));
                } else if q1 == pp && q2 > pp {
                    assert(a == x && b == s[q2 - 1]);
                    lemma_lex_cmp_flip(chars_key(s[pp].0@), chars_key(x.0@));
                    if q2 - 1 > pp {
                        assert(rel(s.take(ii)[pp], s.take(ii)[q2 - 1]));
                        lemma_lex_cmp_le_trans(
                            chars_key(x.0@),
                            chars_key(s[pp].0@),
                            chars_key(s[q2 - 1].0@),
                        );
                    }
                } else {
                    assert(q1 > pp && q2 > pp);
                    assert(a == s[q1 - 1] && b == s[q2 - 1]);
                    assert(rel(s.take(ii)[q1 - 1], s.take(ii)[q2 - 1]));
                }
            }
            assert(sorted_by(tk, rel));
        }
        si += 1;
    }
    proof {
        if schema@.len() > 0 {
            assert(schema@.take(schema@.len() as int) =~= schema@);
        } else {
            assert(sorted_by(schema@, rel));
        }
    }
}


/// Whether a table passes validation: non-empty, flat, and
/// field-type-consistent against the first record.
pub open spec fn table_ok(rows: Seq<Record>) -> bool {
    rows.len() > 0 && !table_has_nested(rows) && !table_has_mismatch(rows)
}

/// What holds of the bar list, the rows and the display cutoff after a
/// successful recompute under the given configuration: the rows are
/// sorted (a permutation of the old rows), the bars are the ranked groups
/// of the kept rows, and the cutoff was reset to the group count exactly
/// when a non-empty bar list first replaced an empty one.
pub open spec fn recompute_ok_post(
    rows0: Seq<Record>,
    rows1: Seq<Record>,
    bars0: Seq<Bar>,
    bars1: Seq<Bar>,
    bounds: Seq<(String, ValueBound)>,
    x_axis: Seq<String>,
    y_is_count: bool,
    shown0: int,
    shown1: int,
) -> bool {
    let kv = keys_view(x_axis);
    let gs = groups_of(rows1.filter(keep_pred(bounds)), kv);
    &&& keys_consistent(rows0, kv)
    &&& rows1.to_multiset() == rows0.to_multiset()
    &&& sorted_by(rows1, rec_le_rel(kv))
    &&& (x_axis.len() == 0 ==> bars1.len() == 0)
    &&& (x_axis.len() > 0 ==> {
        &&& y_is_count
        &&& all_bounds_ok(rows1, bounds)
        &&& keys_scalar(rows1, kv)
        &&& bars1.len() == gs.len()
        &&& (forall|i: int| 0 <= i < bars1.len() ==> #[trigger] bars1[i].rank == i)
        &&& (forall|i: int, j: int| 0 <= i < j < bars1.len() ==> bars1[i].count >= bars1[j].count)
        &&& bar_pairs(bars1).to_multiset() == gs.to_multiset()
    })
    &&& shown1 == if bars0.len() == 0 && bars1.len() > 0 {
        bars1.len() as int
    } else {
        shown0
    }
}

/// The display cutoff rule, read off a successful recompute: the cutoff
/// is reset to the bar count exactly when a non-empty bar list first
/// replaces an empty one; a recompute that starts from a non-empty list,
/// or ends with an empty one, leaves the cutoff where the caller set it,
/// never resetting it upward.
pub proof fn lemma_display_limit_rule(
    rows0: Seq<Record>,
    rows1: Seq<Record>,
    bars0: Seq<Bar>,
    bars1: Seq<Bar>,
    bounds: Seq<(String, ValueBound)>,
    x_axis: Seq<String>,
    y_is_count: bool,
    shown0: int,
    shown1: int,
)
    requires
        recompute_ok_post(rows0, rows1, bars0, bars1, bounds, x_axis, y_is_count, shown0, shown1),
    ensures
        bars0.len() == 0 && bars1.len() > 0 ==> shown1 == bars1.len() as int,
        bars0.len() > 0 ==> shown1 == shown0,
        bars1.len() == 0 ==> shown1 == shown0,
{
}

/// What holds of the rows when a recompute fails: either the group keys'
/// values conflict in type and the rows are untouched, or the rows were
/// sorted and the aggregation then refused the configuration or the data.
pub open spec fn recompute_err_post(
    rows0: Seq<Record>,
    rows1: Seq<Record>,
    bounds: Seq<(String, ValueBound)>,
    x_axis: Seq<String>,
    y_is_count: bool,
) -> bool {
    let kv = keys_view(x_axis);
    &&& x_axis.len() > 0
    &&& rows1.to_multiset() == rows0.to_multiset()
    &&& ((!keys_consistent(rows0, kv) && rows1 == rows0) || (keys_consistent(rows0, kv)
        && sorted_by(rows1, rec_le_rel(kv)) && (!y_is_count || !all_bounds_ok(rows1, bounds)
        || !keys_scalar(rows1, kv))))
}

/// The pipeline's state: the validated table, its schema, the current
/// configuration, and the bar list of the latest recompute.
#[derive(Debug)]
pub struct App {
    pub data: Vec<Record>,
    pub keys: Vec<(String, ValueType)>,
    pub settings: Settings<'static>,
    pub bars: Vec<Bar>,
}

impl App {
    /// Validates the table and takes ownership of it, with the default
    /// configuration and an empty bar list. Fails exactly as `validate`
    /// does.
    pub fn new(data: Vec<Record>) -> (r: Result<App, AppCreationErr>)
        ensures
            match r {
                Ok(app) => {
                    &&& table_ok(data@)
                    &&& app.data == data
                    &&& sorted_by(app.keys@, schema_le_rel())
                    &&& schema_view(app.keys@).to_multiset() == schema_pairs(
                        data@[0]@,
                    ).to_multiset()
                    &&& app.settings.bounds@.len() == 0
                    &&& app.settings.x_axis@.len() == 0
                    &&& app.settings.y_axis is Count
                    &&& app.settings.max_shown == usize::MAX
                    &&& app.bars@.len() == 0
                },
                Err(AppCreationErr::NoData) => data@.len() == 0,
                Err(AppCreationErr::NestedTypes(t)) => data@.len() > 0 && table_has_nested(data@)
                    && is_nested(t),
                Err(AppCreationErr::DifferentTypes { key, expected, found }) => {
                    &&& data@.len() > 0
                    &&& !table_has_nested(data@)
                    &&& table_has_mismatch(data@)
                    &&& expected != found
                },
            },
    {
        match validate(&data) {
            Ok(keys) => Ok(
                App { data, keys, settings: Settings::default(), bars: Vec::new() },
            ),
            Err(e) => Err(e),
        }
    }

    /// Sorts the table by the group keys and rebuilds the ranked bar
    /// list; the first time a non-empty list replaces an empty one, the
    /// display cutoff is reset to the number of groups. On failure the
    /// bar list and the configuration are left as they were.
    pub fn rebuild_bars(
        bars: &mut Vec<Bar>,
        data: &mut Vec<Record>,
        settings: &mut Settings,
    ) -> (r: Result<(), PipelineError>)
        ensures
            final(settings).bounds == old(settings).bounds,
            final(settings).x_axis == old(settings).x_axis,
            final(settings).y_axis == old(settings).y_axis,
            match r {
                Ok(()) => recompute_ok_post(
                    old(data)@,
                    final(data)@,
                    old(bars)@,
                    final(bars)@,
                    old(settings).bounds@,
                    old(settings).x_axis@,
                    old(settings).y_axis is Count,
                    old(settings).max_shown as int,
                    final(settings).max_shown as int,
                ),
                Err(e) => {
                    &&& *final(bars) == *old(bars)
                    &&& final(settings).max_shown == old(settings).max_shown
                    &&& recompute_err_post(
                        old(data)@,
                        final(data)@,
                        old(settings).bounds@,
                        old(settings).x_axis@,
                        old(settings).y_axis is Count,
                    )
                },
            },
    {
        let was_empty = bars.len() == 0;
        match sort_arr(data, &*settings) {
            Err(e) => {
                return Err(e);
            },
            Ok(()) => {},
        }
        match make_bars(&*data, &*settings) {
            Err(e) => {
                return Err(e);
            },
            Ok(new_bars) => {
                *bars = new_bars;
            },
        }
        if was_empty && bars.len() > 0 {
            settings.max_shown = bars.len();
        }
        Ok(())
    }

    /// Appends a group key and recomputes.
    pub fn add_key(
        key: String,
        bars: &mut Vec<Bar>,
        data: &mut Vec<Record>,
        settings: &mut Settings,
    ) -> (r: Result<(), PipelineError>)
        ensures
            final(settings).bounds == old(settings).bounds,
            final(settings).x_axis@ == old(settings).x_axis@.push(key),
            final(settings).y_axis == old(settings).y_axis,
            match r {
                Ok(()) => recompute_ok_post(
                    old(data)@,
                    final(data)@,
                    old(bars)@,
                    final(bars)@,
                    old(settings).bounds@,
                    old(settings).x_axis@.push(key),
                    old(settings).y_axis is Count,
                    old(settings).max_shown as int,
                    final(settings).max_shown as int,
                ),
                Err(e) => {
                    &&& *final(bars) == *old(bars)
                    &&& final(settings).max_shown == old(settings).max_shown
                    &&& recompute_err_post(
                        old(data)@,
                        final(data)@,
                        old(settings).bounds@,
                        old(settings).x_axis@.push(key),
                        old(settings).y_axis is Count,
                    )
                },
            },
    {
        settings.x_axis.push(key);
        Self::rebuild_bars(bars, data, settings)
    }

    /// Removes the first occurrence of a group key, if present, and
    /// recomputes.
    pub fn remove_key(
        key: &String,
        bars: &mut Vec<Bar>,
        data: &mut Vec<Record>,
        settings: &mut Settings,
    ) -> (r: Result<(), PipelineError>)
        ensures
            final(settings).bounds == old(settings).bounds,
            final(settings).x_axis@ == remove_first_key(old(settings).x_axis@, key@),
            final(settings).y_axis == old(settings).y_axis,
            match r {
                Ok(()) => recompute_ok_post(
                    old(data)@,
                    final(data)@,
                    old(bars)@,
                    final(bars)@,
                    old(settings).bounds@,
                    remove_first_key(old(settings).x_axis@, key@),
                    old(settings).y_axis is Count,
                    old(settings).max_shown as int,
                    final(settings).max_shown as int,
                ),
                Err(e) => {
                    &&& *final(bars) == *old(bars)
                    &&& final(settings).max_shown == old(settings).max_shown
                    &&& recompute_err_post(
                        old(data)@,
                        final(data)@,
                        old(settings).bounds@,
                        remove_first_key(old(settings).x_axis@, key@),
                        old(settings).y_axis is Count,
                    )
                },
            },
    {
        let mut idx: usize = 0;
        let mut found = false;
        while idx < settings.x_axis.len() && !found
            invariant
                idx <= settings.x_axis@.len(),
                found ==> idx < settings.x_axis@.len() && settings.x_axis@[idx as int]@ == key@,
                forall|q: int| 0 <= q < idx ==> #[trigger] settings.x_axis@[q]@ != key@,
                settings.bounds == old(settings).bounds,
                settings.x_axis == old(settings).x_axis,
                settings.y_axis == old(settings).y_axis,
                settings.max_shown == old(settings).max_shown,
                *bars == *old(bars),
                *data == *old(data),
            decreases settings.x_axis@.len() - idx + (if found { 0int } else { 1 }),
        {
            if settings.x_axis[idx] == *key {
                found = true;
            } else {
                idx += 1;
            }
        }
        if found {
            proof {
                lemma_remove_first_key_at(settings.x_axis@, key@, idx as int);
            }
            settings.x_axis.remove(idx);
        } else {
            proof {
                lemma_remove_first_key_absent(settings.x_axis@, key@);
            }
        }
        Self::rebuild_bars(bars, data, settings)
    }
}

/// A key list with the first occurrence of one key taken out; a list
/// without that key is unchanged.
pub open spec fn remove_first_key(s: Seq<String>, key: Seq<char>) -> Seq<String>
    decreases s.len(),
{
    if s.len() == 0 {
        s
    } else if s[0]@ == key {
        s.drop_first()
    } else {
        seq![s[0]] + remove_first_key(s.drop_first(), key)
    }
}

proof fn lemma_remove_first_key_at(s: Seq<String>, key: Seq<char>, i: int)
    requires
        0 <= i < s.len(),
        forall|q: int| 0 <= q < i ==> #[trigger] s[q]@ != key,
        s[i]@ == key,
    ensures
        remove_first_key(s, key) == s.remove(i),
    decreases i,
{
    if i == 0 {
        assert(s.drop_first() =~= s.remove(0));
    } else {
        lemma_remove_first_key_at(s.drop_first(), key, i - 1);
        assert(seq![s[0]] + s.drop_first().remove(i - 1) =~= s.remove(i));
    }
}

proof fn lemma_remove_first_key_absent(s: Seq<String>, key: Seq<char>)
    requires
        forall|q: int| 0 <= q < s.len() ==> #[trigger] s[q]@ != key,
    ensures
        remove_first_key(s, key) == s,
    decreases s.len(),
{
    if s.len() > 0 {
        lemma_remove_first_key_absent(s.drop_first(), key);
        assert(seq![s[0]] + s.drop_first() =~= s);
    }
}


/// The bound entries kept when one field's bound is replaced: those of
/// every other field.
pub open spec fn keep_other(field: Seq<char>) -> spec_fn((String, ValueBound)) -> bool {
    |p: (String, ValueBound)| p.0@ != field
}

proof fn lemma_filter_push_bound(
    s: Seq<(String, ValueBound)>,
    x: (String, ValueBound),
    p: spec_fn((String, ValueBound)) -> bool,
)
    ensures
        p(x) ==> s.push(x).filter(p) == s.filter(p).push(x),
        !p(x) ==> s.push(x).filter(p) == s.filter(p),
{
    reveal_with_fuel(Seq::<(String, ValueBound)>::filter, 3);
    assert(s.push(x) =~= s + seq![x]);
    Seq::<(String, ValueBound)>::filter_distributes_over_add(s, seq![x], p);
    assert(seq![x].drop_last() =~= Seq::<(String, ValueBound)>::empty());
    if p(x) {
        assert(seq![x].filter(p) =~= seq![x]);
        assert(s.filter(p) + seq![x] =~= s.filter(p).push(x));
    } else {
        assert(seq![x].filter(p) =~= Seq::<(String, ValueBound)>::empty());
        assert(s.filter(p) + Seq::<(String, ValueBound)>::empty() =~= s.filter(p));
    }
}

/// Drops every bound configured for the given field, in place.
fn drop_bounds_for(bounds: &mut Vec<(String, ValueBound)>, field: &String)
    ensures
        final(bounds)@ == old(bounds)@.filter(keep_other(field@)),
{
    let ghost orig = bounds@;
    let ghost keep = keep_other(field@);
    let mut j: usize = 0;
    let ghost mut consumed: int = 0;
    while j < bounds.len()
        invariant
            0 <= j <= bounds@.len(),
            0 <= consumed <= orig.len(),
            keep == keep_other(field@),
            j as int == orig.take(consumed).filter(keep).len(),
            bounds@ =~= orig.take(consumed).filter(keep) + orig.skip(consumed),
        decreases orig.len() - consumed,
    {
        proof {
            assert(consumed < orig.len());
            assert(bounds@[j as int] == orig.skip(consumed)[0]);
            assert(orig.skip(consumed)[0] == orig[consumed]);
            assert(orig.take(consumed + 1) =~= orig.take(consumed).push(orig[consumed]));
            lemma_filter_push_bound(orig.take(consumed), orig[consumed], keep);
        }
        if bounds[j].0 == *field {
            let ghost before = bounds@;
            bounds.remove(j);
            proof {
                assert(!keep(orig[consumed]));
                assert(before.remove(j as int) =~= orig.take(consumed).filter(keep) + orig.skip(
                    consumed + 1,
                ));
            }
        } else {
            proof {
                assert(keep(orig[consumed]));
                assert(bounds@ =~= orig.take(consumed + 1).filter(keep) + orig.skip(
                    consumed + 1,
                ));
            }
            j += 1;
        }
        proof {
            consumed = consumed + 1;
        }
    }
    proof {
        assert(consumed == orig.len());
        assert(orig.take(orig.len() as int) =~= orig);
        assert(orig.skip(orig.len() as int) =~= Seq::<(String, ValueBound)>::empty());
        assert(bounds@ =~= orig.filter(keep));
    }
}

impl App {
    /// Replaces (or, with `None`, removes) the bound configured for a
    /// field and recomputes.
    pub fn set_bound(
        field: String,
        bound: Option<ValueBound>,
        bars: &mut Vec<Bar>,
        data: &mut Vec<Record>,
        settings: &mut Settings,
    ) -> (r: Result<(), PipelineError>)
        ensures
            final(settings).x_axis == old(settings).x_axis,
            final(settings).y_axis == old(settings).y_axis,
            final(settings).bounds@ == old(settings).bounds@.filter(keep_other(field@)) + (
            match bound {
                Some(b) => seq![(field, b)],
                None => Seq::<(String, ValueBound)>::empty(),
            }),
            match r {
                Ok(()) => recompute_ok_post(
                    old(data)@,
                    final(data)@,
                    old(bars)@,
                    final(bars)@,
                    final(settings).bounds@,
                    old(settings).x_axis@,
                    old(settings).y_axis is Count,
                    old(settings).max_shown as int,
                    final(settings).max_shown as int,
                ),
                Err(e) => {
                    &&& *final(bars) == *old(bars)
                    &&& final(settings).max_shown == old(settings).max_shown
                    &&& recompute_err_post(
                        old(data)@,
                        final(data)@,
                        final(settings).bounds@,
                        old(settings).x_axis@,
                        old(settings).y_axis is Count,
                    )
                },
            },
    {
        drop_bounds_for(&mut settings.bounds, &field);
        match bound {
            Some(b) => {
                settings.bounds.push((field, b));
            },
            None => {
                proof {
                    assert(settings.bounds@ + Seq::<(String, ValueBound)>::empty()
                        =~= settings.bounds@);
                }
            },
        }
        Self::rebuild_bars(bars, data, settings)
    }

    /// Sets the display cutoff and recomputes. A recompute that turns an
    /// empty bar list into a non-empty one resets the cutoff to the group
    /// count, overriding the value just set; any other outcome keeps it.
    pub fn set_display_limit(
        limit: usize,
        bars: &mut Vec<Bar>,
        data: &mut Vec<Record>,
        settings: &mut Settings,
    ) -> (r: Result<(), PipelineError>)
        ensures
            final(settings).bounds == old(settings).bounds,
            final(settings).x_axis == old(settings).x_axis,
            final(settings).y_axis == old(settings).y_axis,
            match r {
                Ok(()) => recompute_ok_post(
                    old(data)@,
                    final(data)@,
                    old(bars)@,
                    final(bars)@,
                    old(settings).bounds@,
                    old(settings).x_axis@,
                    old(settings).y_axis is Count,
                    limit as int,
                    final(settings).max_shown as int,
                ),
                Err(e) => {
                    &&& *final(bars) == *old(bars)
                    &&& final(settings).max_shown == limit
                    &&& recompute_err_post(
                        old(data)@,
                        final(data)@,
                        old(settings).bounds@,
                        old(settings).x_axis@,
                        old(settings).y_axis is Count,
                    )
                },
            },
    {
        settings.max_shown = limit;
        Self::rebuild_bars(bars, data, settings)
    }
}

} // verus!
