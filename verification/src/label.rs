//! Canonical string forms of values and of group labels: decimal digits
//! for integers, the carried text for numbers, literal forms for the
//! remaining scalars, and comma-joined forms per group key.

use vstd::prelude::*;

use crate::value::{keys_view, val_of, RecView, Record, ValView, Value};

verus! {

/// Relies on `String::push_str` of std: it appends the characters of the
/// given slice to the string.
pub assume_specification[ String::push_str ](s: &mut String, other: &str)
    ensures
        final(s)@ == old(s)@ + other@,
;

/// The character of one decimal digit.
pub open spec fn digit_char(d: int) -> char {
    if d == 0 {
        '0'
    } else if d == 1 {
        '1'
    } else if d == 2 {
        '2'
    } else if d == 3 {
        '3'
    } else if d == 4 {
        '4'
    } else if d == 5 {
        '5'
    } else if d == 6 {
        '6'
    } else if d == 7 {
        '7'
    } else if d == 8 {
        '8'
    } else {
        '9'
    }
}

/// The decimal form of a non-negative integer, most significant digit
/// first and without leading zeroes.
pub open spec fn dec_of(n: int) -> Seq<char>
    recommends
        n >= 0,
    decreases n,
{
    if n < 10 {
        seq![digit_char(n)]
    } else {
        dec_of(n / 10).push(digit_char(n % 10))
    }
}

/// The decimal form of a signed integer: a minus sign before the digits
/// of its magnitude when negative.
pub open spec fn dec_i64(n: int) -> Seq<char> {
    if n < 0 {
        seq!['-'] + dec_of(-n)
    } else {
        dec_of(n)
    }
}

fn digit_str(d: u8) -> (r: &'static str)
    requires
        d < 10,
    ensures
        r@ =~= seq![digit_char(d as int)],
{
    match d {
        0 => {
            proof {
                reveal_strlit("0");
            }
            "0"
        },
        1 => {
            proof {
                reveal_strlit("1");
            }
            "1"
        },
        2 => {
            proof {
                reveal_strlit("2");
            }
            "2"
        },
        3 => {
            proof {
                reveal_strlit("3");
            }
            "3"
        },
        4 => {
            proof {
                reveal_strlit("4");
            }
            "4"
        },
        5 => {
            proof {
                reveal_strlit("5");
            }
            "5"
        },
        6 => {
            proof {
                reveal_strlit("6");
            }
            "6"
        },
        7 => {
            proof {
                reveal_strlit("7");
            }
            "7"
        },
        8 => {
            proof {
                reveal_strlit("8");
            }
            "8"
        },
        _ => {
            proof {
                reveal_strlit("9");
            }
            "9"
        },
    }
}

/// The digit characters of a digit list read back to front.
pub open spec fn digits_rev_chars(ds: Seq<u8>) -> Seq<char> {
    Seq::new(ds.len(), |i: int| digit_char(ds[ds.len() - 1 - i] as int))
}

/// Writes an unsigned integer in decimal.
pub fn u64_dec(n: u64) -> (s: String)
    ensures
        s@ == dec_of(n as int),
{
    let mut s = String::new();
    if n == 0 {
        s.push_str(digit_str(0));
        return s;
    }
    let mut digits: Vec<u8> = Vec::new();
    let mut m: u64 = n;
    while m > 0
        invariant
            m >= 0,
            forall|j: int| 0 <= j < digits@.len() ==> digits@[j] < 10,
            m > 0 ==> dec_of(n as int) == dec_of(m as int) + digits_rev_chars(digits@),
            m == 0 ==> dec_of(n as int) == digits_rev_chars(digits@),
        decreases m,
    {
        let d: u8 = (m % 10) as u8;
        let ghost old_digits = digits@;
        let ghost old_m = m as int;
        digits.push(d);
        m = m / 10;
        proof {
            assert(digits_rev_chars(digits@) =~= seq![digit_char(d as int)] + digits_rev_chars(
                old_digits,
            ));
            assert(old_m == 10 * (old_m / 10) + (old_m % 10));
            if old_m >= 10 {
                assert(dec_of(old_m) == dec_of(old_m / 10).push(digit_char(old_m % 10)));
                assert(dec_of(old_m / 10).push(digit_char(old_m % 10)) =~= dec_of(old_m / 10)
                    + seq![digit_char(old_m % 10)]);
                assert(dec_of(old_m) + digits_rev_chars(old_digits) =~= dec_of(old_m / 10) + (
                seq![digit_char(d as int)] + digits_rev_chars(old_digits)));
            } else {
                assert(dec_of(old_m) == seq![digit_char(old_m)]);
                assert(dec_of(old_m) + digits_rev_chars(old_digits) =~= seq![
                    digit_char(d as int),
                ] + digits_rev_chars(old_digits));
            }
        }
    }
    let ghost tc = digits_rev_chars(digits@);
    let mut i: usize = digits.len();
    while i > 0
        invariant
            i <= digits@.len(),
            tc == digits_rev_chars(digits@),
            tc.len() == digits@.len(),
            forall|j: int| 0 <= j < digits@.len() ==> digits@[j] < 10,
            s@ == tc.take(digits@.len() - i),
        decreases i,
    {
        i -= 1;
        let ghost k = digits@.len() - i - 1;
        s.push_str(digit_str(digits[i]));
        proof {
            assert(tc[k] == digit_char(digits@[i as int] as int));
            assert(tc.take(k + 1) =~= tc.take(k) + seq![tc[k]]);
        }
    }
    proof {
        assert(tc.take(digits@.len() as int) =~= tc);
    }
    s
}

/// Writes a signed integer in decimal.
pub fn i64_dec(v: i64) -> (s: String)
    ensures
        s@ == dec_i64(v as int),
{
    if v >= 0 {
        u64_dec(v as u64)
    } else {
        let mag_wide: i128 = -(v as i128);
        let mag: u64 = mag_wide as u64;
        let mut s = String::new();
        proof {
            reveal_strlit("-");
        }
        s.push_str("-");
        let digits = u64_dec(mag);
        s.push_str(digits.as_str());
        proof {
            assert("-"@ =~= seq!['-']);
            assert(s@ =~= seq!['-'] + dec_of(mag as int));
        }
        s
    }
}

/// The canonical string form of one value: `null`, a boolean or numeric
/// literal, the string itself, a number's carried text, or a bracketed
/// byte list. Nested composite values have no form; validation rejects
/// them before any label is built.
pub open spec fn label_of_value(v: ValView) -> Seq<char> {
    match v {
        ValView::Null => seq!['n', 'u', 'l', 'l'],
        ValView::Bool(b) => if b {
            seq!['t', 'r', 'u', 'e']
        } else {
            seq!['f', 'a', 'l', 's', 'e']
        },
        ValView::I64(n) => dec_i64(n),
        ValView::U64(n) => dec_of(n),
        ValView::F64 { text, .. } => text,
        ValView::Str(s) => s,
        ValView::Bytes(bs) => seq!['['] + bytes_label_inner(bs) + seq![']'],
        ValView::Obj => Seq::empty(),
        ValView::Arr => Seq::empty(),
    }
}

/// The comma-separated decimal forms of a byte list.
pub open spec fn bytes_label_inner(bs: Seq<u8>) -> Seq<char>
    decreases bs.len(),
{
    if bs.len() == 0 {
        Seq::empty()
    } else if bs.len() == 1 {
        dec_of(bs[0] as int)
    } else {
        bytes_label_inner(bs.drop_last()) + seq![','] + dec_of(bs.last() as int)
    }
}

/// Writes a value's canonical string form.
pub fn value_label(v: &Value) -> (s: String)
    ensures
        s@ == label_of_value(v@),
{
    match v {
        Value::Null => {
            proof {
                reveal_strlit("null");
            }
            let s = "null".to_owned();
            proof {
                assert(s@ =~= seq!['n', 'u', 'l', 'l']);
            }
            s
        },
        Value::Bool(b) => {
            if *b {
                proof {
                    reveal_strlit("true");
                }
                let s = "true".to_owned();
                proof {
                    assert(s@ =~= seq!['t', 'r', 'u', 'e']);
                }
                s
            } else {
                proof {
                    reveal_strlit("false");
                }
                let s = "false".to_owned();
                proof {
                    assert(s@ =~= seq!['f', 'a', 'l', 's', 'e']);
                }
                s
            }
        },
        Value::I64(x) => i64_dec(*x),
        Value::U64(x) => u64_dec(*x),
        Value::F64 { text, .. } => text.clone(),
        Value::Str(st) => st.clone(),
        Value::Bytes(bs) => {
            let mut s = String::new();
            proof {
                reveal_strlit("[");
                reveal_strlit("]");
                reveal_strlit(",");
            }
            s.push_str("[");
            proof {
                assert(s@ =~= seq!['[']);
            }
            let mut i: usize = 0;
            while i < bs.len()
                invariant
                    i <= bs@.len(),
                    s@ == seq!['['] + bytes_label_inner(bs@.take(i as int)),
                    ","@ =~= seq![','],
                decreases bs@.len() - i,
            {
                if i > 0 {
                    s.push_str(",");
                }
                let piece = u64_dec(bs[i] as u64);
                s.push_str(piece.as_str());
                proof {
                    let t = bs@.take(i as int + 1);
                    assert(t.drop_last() =~= bs@.take(i as int));
                    assert(t.last() == bs@[i as int]);
                    if i == 0 {
                        assert(bytes_label_inner(t) == dec_of(bs@[0] as int));
                        assert(s@ =~= seq!['['] + bytes_label_inner(t));
                    } else {
                        assert(bytes_label_inner(t) == bytes_label_inner(bs@.take(i as int))
                            + seq![','] + dec_of(bs@[i as int] as int));
                        assert(s@ =~= seq!['['] + bytes_label_inner(t));
                    }
                }
                i += 1;
            }
            proof {
                assert(bs@.take(bs@.len() as int) =~= bs@);
            }
            s.push_str("]");
            proof {
                assert("]"@ =~= seq![']']);
                assert(s@ =~= seq!['['] + bytes_label_inner(bs@) + seq![']']);
            }
            s
        },
        Value::Obj => String::new(),
        Value::Arr => String::new(),
    }
}

/// The label of a row under a key list: the canonical forms of its values
/// for the keys, joined in key order with commas.
pub open spec fn label_of_row(r: RecView, keys: Seq<Seq<char>>) -> Seq<char>
    decreases keys.len(),
{
    if keys.len() == 0 {
        Seq::empty()
    } else if keys.len() == 1 {
        label_of_value(val_of(r, keys[0]))
    } else {
        label_of_row(r, keys.drop_last()) + seq![','] + label_of_value(val_of(r, keys.last()))
    }
}

/// Writes a row's group label under the key list.
pub fn row_label(r: &Record, keys: &Vec<String>) -> (s: String)
    ensures
        s@ == label_of_row(r@, keys_view(keys@)),
{
    let ghost kv = keys_view(keys@);
    proof {
        assert(kv.len() == keys@.len());
        reveal_strlit(",");
    }
    let mut s = String::new();
    let mut i: usize = 0;
    while i < keys.len()
        invariant
            i <= keys@.len(),
            kv == keys_view(keys@),
            kv.len() == keys@.len(),
            s@ == label_of_row(r@, kv.take(i as int)),
            ","@ =~= seq![','],
        decreases keys@.len() - i,
    {
        if i > 0 {
            s.push_str(",");
        }
        let piece = match r.get(&keys[i]) {
            Some(v) => value_label(v),
            None => {
                let null_value = Value::Null;
                value_label(&null_value)
            },
        };
        s.push_str(piece.as_str());
        proof {
            assert(kv[i as int] == keys@[i as int]@);
            assert(piece@ == label_of_value(val_of(r@, kv[i as int])));
            let t = kv.take(i as int + 1);
            assert(t.drop_last() =~= kv.take(i as int));
            assert(t.last() == kv[i as int]);
            if i == 0 {
                assert(label_of_row(r@, t) == label_of_value(val_of(r@, kv[0])));
                assert(s@ =~= label_of_row(r@, t));
            } else {
                assert(label_of_row(r@, t) == label_of_row(r@, kv.take(i as int)) + seq![',']
                    + label_of_value(val_of(r@, kv[i as int])));
                assert(s@ =~= label_of_row(r@, t));
            }
        }
        i += 1;
    }
    proof {
        assert(kv.take(kv.len() as int) =~= kv);
    }
    s
}

} // verus!
