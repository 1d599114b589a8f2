use spart::label::{i64_dec, u64_dec, value_label};
use spart::settings::value_excluded;
use spart::value::ValueType;
use spart::settings::{Bound, Inclusion, ValueBound};
use spart::value::{cmp_value, values_equal, Cmp, Value};

fn str_val(s: &str) -> Value {
    Value::Str(s.to_string())
}

#[test]
fn u64_decimal_forms() {
    assert_eq!(u64_dec(0), "0");
    assert_eq!(u64_dec(7), "7");
    assert_eq!(u64_dec(42), "42");
    assert_eq!(u64_dec(1000), "1000");
    assert_eq!(u64_dec(u64::MAX), "18446744073709551615");
}

#[test]
fn i64_decimal_forms() {
    assert_eq!(i64_dec(5), "5");
    assert_eq!(i64_dec(0), "0");
    assert_eq!(i64_dec(-7), "-7");
    assert_eq!(i64_dec(i64::MIN), "-9223372036854775808");
    assert_eq!(i64_dec(i64::MAX), "9223372036854775807");
}

#[test]
fn value_label_forms() {
    assert_eq!(value_label(&Value::Null), "null");
    assert_eq!(value_label(&Value::Bool(true)), "true");
    assert_eq!(value_label(&Value::Bool(false)), "false");
    assert_eq!(value_label(&Value::I64(-12)), "-12");
    assert_eq!(value_label(&Value::U64(99)), "99");
    assert_eq!(value_label(&str_val("hello")), "hello");
    assert_eq!(value_label(&Value::Bytes(vec![1, 2, 3])), "[1,2,3]");
    assert_eq!(value_label(&Value::Bytes(vec![])), "[]");
    assert_eq!(
        value_label(&Value::F64 { key: 0x8004000000000000, text: "2.5".to_string() }),
        "2.5"
    );
}

#[test]
fn value_order_null_first() {
    // Null comes before every non-Null value
    assert_eq!(cmp_value(&Value::Null, &Value::Bool(false)), Cmp::Lt);
    assert_eq!(cmp_value(&Value::Null, &Value::I64(i64::MIN)), Cmp::Lt);
    assert_eq!(cmp_value(&str_val(""), &Value::Null), Cmp::Gt);
    assert_eq!(cmp_value(&Value::Null, &Value::Null), Cmp::Eq);
}

#[test]
fn value_order_within_types() {
    assert_eq!(cmp_value(&Value::Bool(false), &Value::Bool(true)), Cmp::Lt);
    assert_eq!(cmp_value(&Value::I64(-3), &Value::I64(4)), Cmp::Lt);
    assert_eq!(cmp_value(&Value::U64(9), &Value::U64(2)), Cmp::Gt);
    assert_eq!(cmp_value(&str_val("abc"), &str_val("abd")), Cmp::Lt);
    assert_eq!(cmp_value(&str_val("ab"), &str_val("abc")), Cmp::Lt);
    assert_eq!(cmp_value(&str_val("b"), &str_val("ab")), Cmp::Gt);
    assert_eq!(
        cmp_value(&Value::Bytes(vec![1, 2]), &Value::Bytes(vec![1, 2, 0])),
        Cmp::Lt
    );
    assert_eq!(
        cmp_value(&Value::Bytes(vec![2]), &Value::Bytes(vec![1, 9])),
        Cmp::Gt
    );
}

#[test]
fn number_equality_ignores_text() {
    let a = Value::F64 { key: 0x8008000000000000, text: "3.0".to_string() };
    let b = Value::F64 { key: 0x8008000000000000, text: "3".to_string() };
    let c = Value::F64 { key: 0x8008000000000001, text: "3.0".to_string() };
    assert!(values_equal(&a, &b));
    assert!(!values_equal(&a, &c));
}

#[test]
fn range_bound_half_open() {
    // v == start is kept, v == end is excluded, v < start is excluded
    let b: Bound<i64> = Bound::Range { start: 10, end: 20 };
    assert!(!b.excludes(&10));
    assert!(b.excludes(&20));
    assert!(b.excludes(&5));
    assert!(!b.excludes(&19));
    assert!(b.excludes(&21));
    let u: Bound<u64> = Bound::Range { start: 3, end: 4 };
    assert!(!u.excludes(&3));
    assert!(u.excludes(&4));
    assert!(u.excludes(&2));
}

#[test]
fn specifics_bound_modes() {
    let inc: Bound<i64> = Bound::Specifics { mode: Inclusion::Include, values: vec![5, 8] };
    assert!(!inc.excludes(&5));
    assert!(!inc.excludes(&8));
    assert!(inc.excludes(&6));
    let exc: Bound<i64> = Bound::Specifics { mode: Inclusion::Exclude, values: vec![5] };
    assert!(exc.excludes(&5));
    assert!(!exc.excludes(&6));
    // an empty default bound excludes no typed value
    let dflt: Bound<u64> = Bound::default();
    assert!(!dflt.excludes(&0));
    assert!(!dflt.excludes(&u64::MAX));
}

#[test]
fn specifics_constructor_is_empty() {
    let b: Bound<u64> = Bound::specifics(Inclusion::Include);
    match b {
        Bound::Specifics { mode, values } => {
            assert_eq!(mode, Inclusion::Include);
            assert!(values.is_empty());
        }
        _ => panic!("expected a specifics bound"),
    }
}

#[test]
fn base_options_per_type() {
    let ints = ValueBound::base_options_for(ValueType::I64);
    assert_eq!(ints.len(), 3);
    assert_eq!(ints[0], ValueBound::I64(Bound::Range { start: 0, end: i64::MAX }));
    assert_eq!(
        ints[1],
        ValueBound::I64(Bound::Specifics { mode: Inclusion::Exclude, values: vec![] })
    );
    assert_eq!(
        ints[2],
        ValueBound::I64(Bound::Specifics { mode: Inclusion::Include, values: vec![] })
    );
    let strs = ValueBound::base_options_for(ValueType::Str);
    assert_eq!(strs.len(), 2);
    let bools = ValueBound::base_options_for(ValueType::Bool);
    assert_eq!(bools, vec![ValueBound::Bool(true), ValueBound::Bool(false)]);
    assert!(ValueBound::base_options_for(ValueType::Bytes).is_empty());
    assert!(ValueBound::base_options_for(ValueType::Null).is_empty());
}

#[test]
fn descriptors_name_bound_kinds() {
    assert_eq!(ValueBound::I64(Bound::Range { start: 0, end: 1 }).ui_descriptor(), "Range");
    assert_eq!(
        ValueBound::U64(Bound::Specifics { mode: Inclusion::Exclude, values: vec![] })
            .ui_descriptor(),
        "Exclude Values"
    );
    assert_eq!(
        ValueBound::Str { mode: Inclusion::Include, values: vec![] }.ui_descriptor(),
        "Include Values"
    );
    assert_eq!(ValueBound::Bool(true).ui_descriptor(), "true");
    assert_eq!(ValueBound::Bool(false).ui_descriptor(), "false");
}

#[test]
fn typed_values_against_bounds() {
    // any configured bound excludes Null
    assert!(value_excluded(&Value::Null, &ValueBound::Bool(true)));
    // a bound on a byte field never excludes
    assert!(!value_excluded(
        &Value::Bytes(vec![0]),
        &ValueBound::Str { mode: Inclusion::Include, values: vec![] }
    ));
    // the boolean bound demands an exact match
    assert!(value_excluded(&Value::Bool(false), &ValueBound::Bool(true)));
    assert!(!value_excluded(&Value::Bool(true), &ValueBound::Bool(true)));
    // string specifics in both modes
    let inc = ValueBound::Str { mode: Inclusion::Include, values: vec!["a".to_string()] };
    assert!(!value_excluded(&str_val("a"), &inc));
    assert!(value_excluded(&str_val("b"), &inc));
    let exc = ValueBound::Str { mode: Inclusion::Exclude, values: vec!["a".to_string()] };
    assert!(value_excluded(&str_val("a"), &exc));
    assert!(!value_excluded(&str_val("b"), &exc));
}
