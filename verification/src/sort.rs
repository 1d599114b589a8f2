//! The multi-key sorter: orders a table's rows by the configured group
//! keys, after checking that the keys' values can be compared at all.

use vstd::prelude::*;
use vstd::relations::sorted_by;
use vstd::seq_lib::group_to_multiset_ensures;

use crate::settings::{PipelineError, Settings};
use crate::value::{
    cmp_records, is_nested, keys_view, lemma_rec_cmp_flip, lemma_rec_le_trans, rec_cmp, rec_le,
    rec_le_rel, type_of, val_cmp, val_of, Cmp, Record, ValView, ValueType,
};

verus! {

broadcast use group_to_multiset_ensures;

/// Whether two values may meet in a comparison: one of them is Null, or
/// they share one non-composite type.
pub open spec fn comparable(a: ValView, b: ValView) -> bool {
    a is Null || b is Null || (type_of(a) == type_of(b) && !is_nested(type_of(a)))
}

/// Whether every pair of rows holds comparable values for a key.
pub open spec fn key_consistent(rows: Seq<Record>, key: Seq<char>) -> bool {
    forall|i: int, j: int|
        0 <= i < rows.len() && 0 <= j < rows.len() ==> comparable(
            val_of(#[trigger] rows[i]@, key),
            val_of(#[trigger] rows[j]@, key),
        )
}

/// Whether every pair of rows holds comparable values for every key.
pub open spec fn keys_consistent(rows: Seq<Record>, keys: Seq<Seq<char>>) -> bool {
    forall|k: int| 0 <= k < keys.len() ==> key_consistent(rows, #[trigger] keys[k])
}

/// Checks that the rows' values for one key are pairwise comparable: each
/// is Null or of one shared, non-composite type.
fn check_key(rows: &Vec<Record>, key: &String) -> (ok: bool)
    ensures
        ok == key_consistent(rows@, key@),
{
    let mut ref_ty: Option<ValueType> = None;
    let ghost mut ref_idx: int = 0;
    let mut i: usize = 0;
    while i < rows.len()
        invariant
            i <= rows.len(),
            match ref_ty {
                None => forall|j: int| 0 <= j < i ==> val_of(#[trigger] rows@[j]@, key@) is Null,
                Some(t0) => {
                    &&& !is_nested(t0)
                    &&& t0 != ValueType::Null
                    &&& 0 <= ref_idx < i
                    &&& type_of(val_of(rows@[ref_idx]@, key@)) == t0
                    &&& forall|j: int|
                        0 <= j < i ==> (val_of(#[trigger] rows@[j]@, key@) is Null || type_of(
                            val_of(rows@[j]@, key@),
                        ) == t0)
                },
            },
        decreases rows.len() - i,
    {
        let t = match rows[i].get(key) {
            Some(v) => v.value_type(),
            None => ValueType::Null,
        };
        assert(t == type_of(val_of(rows@[i as int]@, key@)));
        if t != ValueType::Null {
            if t == ValueType::Obj || t == ValueType::Arr {
                assert(!comparable(
                    val_of(rows@[i as int]@, key@),
                    val_of(rows@[i as int]@, key@),
                ));
                return false;
            }
            match ref_ty {
                None => {
                    ref_ty = Some(t);
                    proof {
                        ref_idx = i as int;
                    }
                },
                Some(t0) => {
                    if t != t0 {
                        assert(!comparable(
                            val_of(rows@[ref_idx]@, key@),
                            val_of(rows@[i as int]@, key@),
                        ));
                        return false;
                    }
                },
            }
        }
        i += 1;
    }
    proof {
        assert forall|i1: int, i2: int|
            0 <= i1 < rows@.len() && 0 <= i2 < rows@.len() implies comparable(
            val_of(#[trigger] rows@[i1]@, key@),
            val_of(#[trigger] rows@[i2]@, key@),
        ) by {
            match ref_ty {
                None => {},
                Some(t0) => {},
            }
        }
    }
    true
}

/// Finds where to insert row `i` among the sorted rows before it: the
/// first position whose row compares greater.
fn find_insert_pos(rows: &Vec<Record>, i: usize, keys: &Vec<String>) -> (p: usize)
    requires
        i < rows@.len(),
    ensures
        p <= i,
        forall|q: int| 0 <= q < p ==> rec_le(#[trigger] rows@[q]@, rows@[i as int]@, keys_view(keys@)),
        p < i ==> rec_cmp(rows@[p as int]@, rows@[i as int]@, keys_view(keys@)) == Cmp::Gt,
{
    let mut p: usize = 0;
    while p < i
        invariant
            p <= i,
            i < rows@.len(),
            forall|q: int|
                0 <= q < p ==> rec_le(#[trigger] rows@[q]@, rows@[i as int]@, keys_view(keys@)),
        decreases i - p,
    {
        let c = cmp_records(&rows[p], &rows[i], keys);
        if c == Cmp::Gt {
            return p;
        }
        p += 1;
    }
    p
}

/// Sorts the table in place by the configured group keys.
///
/// Succeeds exactly when every key's values are pairwise comparable; the
/// rows are then a permutation of the input, ordered by the record order
/// under the key list. Otherwise the table is left untouched and the
/// conflicting key is reported; such a conflict is a broken invariant that
/// validation would have rejected.
pub fn sort_arr(vec: &mut Vec<Record>, settings: &Settings) -> (r: Result<(), PipelineError>)
    ensures
        match r {
            Ok(()) => {
                &&& keys_consistent(old(vec)@, keys_view(settings.x_axis@))
                &&& final(vec)@.to_multiset() == old(vec)@.to_multiset()
                &&& sorted_by(final(vec)@, rec_le_rel(keys_view(settings.x_axis@)))
            },
            Err(e) => {
                &&& final(vec)@ == old(vec)@
                &&& !keys_consistent(old(vec)@, keys_view(settings.x_axis@))
                &&& (e matches PipelineError::KeyTypeConflict { field } && exists|k: int|
                    0 <= k < settings.x_axis@.len() && #[trigger] settings.x_axis@[k]@ == field@
                        && !key_consistent(old(vec)@, field@))
            },
        },
{
    let ghost kv = keys_view(settings.x_axis@);
    let mut k: usize = 0;
    while k < settings.x_axis.len()
        invariant
            k <= settings.x_axis@.len(),
            kv == keys_view(settings.x_axis@),
            kv.len() == settings.x_axis@.len(),
            forall|kk: int| 0 <= kk < k ==> key_consistent(vec@, #[trigger] kv[kk]),
            vec@ == old(vec)@,
        decreases settings.x_axis@.len() - k,
    {
        proof {
            assert(kv[k as int] == settings.x_axis@[k as int]@);
        }
        if !check_key(&*vec, &settings.x_axis[k]) {
            return Err(
                PipelineError::KeyTypeConflict { field: settings.x_axis[k].clone() },
            );
        }
        k += 1;
    }
    proof {
        assert(keys_consistent(vec@, kv));
    }

    let ghost orig = vec@;
    let ghost rel = rec_le_rel(kv);
    let mut i: usize = 1;
    while i < vec.len()
        invariant
            i >= 1,
            vec@.len() == 0 ==> i == 1,
            vec@.len() > 0 ==> i <= vec@.len(),
            vec@.to_multiset() == orig.to_multiset(),
            vec@.len() == orig.len(),
            kv == keys_view(settings.x_axis@),
            rel == rec_le_rel(kv),
            vec@.len() > 0 ==> sorted_by(vec@.take(i as int), rel),
        decreases vec.len() - i,
    {
        let p = find_insert_pos(&*vec, i, &settings.x_axis);
        let ghost s = vec@;
        let x = vec.remove(i);
        vec.insert(p, x);
        proof {
            let ghost t = vec@;
            s.remove_ensures(i as int);
            s.remove(i as int).insert_ensures(p as int, x);
            // the step keeps the same rows
            assert(s.to_multiset().contains(s[i as int]));
            assert(t.to_multiset() =~= s.to_multiset());
            // the sorted prefix grew by one
            assert(t.take(i as int + 1) =~= s.take(p as int) + seq![x] + s.subrange(
                p as int,
                i as int,
            ));
            let ghost tk = t.take(i as int + 1);
            assert forall|q1: int, q2: int| #![trigger tk[q1], tk[q2]]
                0 <= q1 < q2 < i as int + 1 implies rel(tk[q1], tk[q2]) by {
                let pp = p as int;
                let ii = i as int;
                let a = tk[q1];
                let b = tk[q2];
                if q1 < pp && q2 < pp {
                    assert(rel(s.take(ii)[q1], s.take(ii)[q2]));
                } else if q1 < pp && q2 == pp {
                    assert(a == s[q1]);
                    assert(b == x);
                } else if q1 < pp && q2 > pp {
                    assert(a == s[q1] && b == s[q2 - 1]);
                    assert(rel(s.take(ii)[q1], s.take(ii)[q2 - 1]));
                } else if q1 == pp && q2 > pp {
                    assert(a == x && b == s[q2 - 1]);
                    lemma_rec_cmp_flip(s[pp]@, x@, kv);
                    assert(rec_le(x@, s[pp]@, kv));
                    if q2 - 1 > pp {
                        assert(rel(s.take(ii)[pp], s.take(ii)[q2 - 1]));
                        lemma_rec_le_trans(x@, s[pp]@, s[q2 - 1]@, kv);
                    }
                } else {
                    assert(q1 > pp && q2 > pp);
                    assert(a == s[q1 - 1] && b == s[q2 - 1]);
                    assert(rel(s.take(ii)[q1 - 1], s.take(ii)[q2 - 1]));
                }
            }
            assert(sorted_by(tk, rel));
        }
        i += 1;
    }
    proof {
        if vec@.len() > 0 {
            assert(vec@.take(vec@.len() as int) =~= vec@);
        } else {
            assert(sorted_by(vec@, rel));
        }
    }
    Ok(())
}

/// After sorting on a single key, adjacent rows' values for that key are
/// non-decreasing in the value order.
pub proof fn lemma_sorted_single_key(s: Seq<Record>, k: Seq<char>)
    requires
        sorted_by(s, rec_le_rel(seq![k])),
    ensures
        forall|i: int|
            0 <= i && i + 1 < s.len() ==> val_cmp(
                val_of(#[trigger] s[i]@, k),
                val_of(s[i + 1]@, k),
            ) != Cmp::Gt,
{
    assert forall|i: int| 0 <= i && i + 1 < s.len() implies val_cmp(
        val_of(#[trigger] s[i]@, k),
        val_of(s[i + 1]@, k),
    ) != Cmp::Gt by {
        assert(rec_le_rel(seq![k])(s[i], s[i + 1]));
        assert(rec_le(s[i]@, s[i + 1]@, seq![k]));
        assert(seq![k][0] == k);
    }
}

/// In the value order, Null comes before every non-Null value.
pub proof fn lemma_null_first(v: ValView)
    requires
        !(v is Null),
    ensures
        val_cmp(ValView::Null, v) == Cmp::Lt,
{
}

} // verus!
