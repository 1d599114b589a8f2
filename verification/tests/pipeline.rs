use spart::app::{App, AppCreationErr};
use spart::bars::{group_rows, make_bars, rank_groups};
use spart::settings::{Inclusion, PipelineError, Settings, ValueBound, YAxisKey};
use spart::sort::sort_arr;
use spart::value::{Record, Value, ValueType};

fn rec(fields: Vec<(&str, Value)>) -> Record {
    Record { fields: fields.into_iter().map(|(k, v)| (k.to_string(), v)).collect() }
}

fn str_val(s: &str) -> Value {
    Value::Str(s.to_string())
}

fn keyed(vals: Vec<Value>) -> Vec<Record> {
    vals.into_iter().map(|v| rec(vec![("k", v)])).collect()
}

fn settings_with_keys(keys: Vec<&str>) -> Settings<'static> {
    let mut s = Settings::default();
    s.x_axis = keys.into_iter().map(|k| k.to_string()).collect();
    s
}

fn field_of<'a>(r: &'a Record, name: &str) -> &'a Value {
    &r.fields.iter().find(|(k, _)| k == name).expect("field missing").1
}

#[test]
fn validate_accepts_consistent_table_sorted() {
    let data = vec![
        rec(vec![("beta", Value::I64(1)), ("alpha", str_val("x"))]),
        rec(vec![("beta", Value::I64(2)), ("alpha", str_val("y"))]),
    ];
    let schema = spart::app::validate(&data).expect("validation should succeed");
    assert_eq!(
        schema,
        vec![("alpha".to_string(), ValueType::Str), ("beta".to_string(), ValueType::I64)]
    );
}

#[test]
fn validate_rejects_empty_table() {
    let data: Vec<Record> = vec![];
    assert_eq!(spart::app::validate(&data), Err(AppCreationErr::NoData));
}

#[test]
fn validate_rejects_nested_values() {
    let data = vec![rec(vec![("a", Value::I64(1))]), rec(vec![("a", Value::Obj)])];
    assert_eq!(
        spart::app::validate(&data),
        Err(AppCreationErr::NestedTypes(ValueType::Obj))
    );
    let one = vec![rec(vec![("a", Value::Arr)])];
    assert_eq!(
        spart::app::validate(&one),
        Err(AppCreationErr::NestedTypes(ValueType::Arr))
    );
}

#[test]
fn validate_rejects_type_mismatch() {
    let data = vec![rec(vec![("k", Value::I64(1))]), rec(vec![("k", str_val("x"))])];
    assert_eq!(
        spart::app::validate(&data),
        Err(AppCreationErr::DifferentTypes {
            key: "k".to_string(),
            expected: ValueType::I64,
            found: ValueType::Str,
        })
    );
}

#[test]
fn validate_treats_null_as_wildcard() {
    let data = vec![
        rec(vec![("k", Value::Null)]),
        rec(vec![("k", Value::I64(1))]),
        rec(vec![("k", Value::Null)]),
    ];
    assert!(spart::app::validate(&data).is_ok());
}

#[test]
fn sort_orders_single_key_with_null_first() {
    let mut data = keyed(vec![Value::I64(3), Value::I64(1), Value::Null, Value::I64(2)]);
    let settings = settings_with_keys(vec!["k"]);
    sort_arr(&mut data, &settings).expect("consistent table should sort");
    let got: Vec<&Value> = data.iter().map(|r| field_of(r, "k")).collect();
    assert!(matches!(got[0], Value::Null));
    assert!(matches!(got[1], Value::I64(1)));
    assert!(matches!(got[2], Value::I64(2)));
    assert!(matches!(got[3], Value::I64(3)));
}

#[test]
fn sort_uses_keys_in_order() {
    let mut data = vec![
        rec(vec![("a", str_val("y")), ("b", Value::I64(1))]),
        rec(vec![("a", str_val("x")), ("b", Value::I64(9))]),
        rec(vec![("a", str_val("x")), ("b", Value::I64(2))]),
    ];
    let settings = settings_with_keys(vec!["a", "b"]);
    sort_arr(&mut data, &settings).expect("consistent table should sort");
    assert!(matches!(field_of(&data[0], "b"), Value::I64(2)));
    assert!(matches!(field_of(&data[1], "b"), Value::I64(9)));
    assert!(matches!(field_of(&data[2], "b"), Value::I64(1)));
}

#[test]
fn sort_reports_conflicting_key_types() {
    let mut data = keyed(vec![Value::I64(1), str_val("x")]);
    let settings = settings_with_keys(vec!["k"]);
    match sort_arr(&mut data, &settings) {
        Err(PipelineError::KeyTypeConflict { field }) => assert_eq!(field, "k"),
        other => panic!("expected a key type conflict, got {:?}", other),
    }
    // the table is left untouched
    assert!(matches!(field_of(&data[0], "k"), Value::I64(1)));
}

#[test]
fn grouping_counts_adjacent_runs() {
    let data = keyed(vec![
        str_val("A"),
        str_val("A"),
        str_val("B"),
        str_val("B"),
        str_val("B"),
        str_val("C"),
    ]);
    let keys = vec!["k".to_string()];
    let groups = group_rows(&data, &vec![], &keys);
    assert_eq!(
        groups,
        vec![("A".to_string(), 2), ("B".to_string(), 3), ("C".to_string(), 1)]
    );
}

#[test]
fn grouping_joins_multi_key_labels() {
    let data = vec![
        rec(vec![("a", str_val("x")), ("b", Value::I64(1))]),
        rec(vec![("a", str_val("x")), ("b", Value::I64(1))]),
        rec(vec![("a", str_val("x")), ("b", Value::Null)]),
    ];
    let keys = vec!["a".to_string(), "b".to_string()];
    let groups = group_rows(&data, &vec![], &keys);
    assert_eq!(groups, vec![("x,1".to_string(), 2), ("x,null".to_string(), 1)]);
}

#[test]
fn ranking_orders_by_descending_count() {
    let groups = vec![("A".to_string(), 2), ("B".to_string(), 3), ("C".to_string(), 1)];
    let bars = rank_groups(groups);
    assert_eq!(bars.len(), 3);
    assert_eq!((bars[0].label.as_str(), bars[0].count, bars[0].rank), ("B", 3, 0));
    assert_eq!((bars[1].label.as_str(), bars[1].count, bars[1].rank), ("A", 2, 1));
    assert_eq!((bars[2].label.as_str(), bars[2].count, bars[2].rank), ("C", 1, 2));
}

#[test]
fn empty_group_keys_yield_no_bars() {
    let data = keyed(vec![Value::I64(1), Value::I64(2)]);
    let mut settings = settings_with_keys(vec![]);
    settings.bounds.push(("k".to_string(), ValueBound::Bool(true)));
    let bars = make_bars(&data, &settings).expect("empty keys always succeed");
    assert!(bars.is_empty());
    // even under the unimplemented aggregation mode
    let by_key = Settings {
        bounds: vec![],
        x_axis: vec![],
        y_axis: YAxisKey::Key("k"),
        max_shown: usize::MAX,
    };
    assert!(make_bars(&data, &by_key).expect("empty keys always succeed").is_empty());
}

#[test]
fn by_key_aggregation_is_unsupported() {
    let data = keyed(vec![Value::I64(1)]);
    let settings = Settings {
        bounds: vec![],
        x_axis: vec!["k".to_string()],
        y_axis: YAxisKey::Key("k"),
        max_shown: usize::MAX,
    };
    match make_bars(&data, &settings) {
        Err(PipelineError::UnsupportedAggregation) => {}
        other => panic!("expected the unsupported-aggregation error, got {:?}", other),
    }
}

#[test]
fn mismatched_bound_is_reported() {
    let data = keyed(vec![Value::I64(1)]);
    let mut settings = settings_with_keys(vec!["k"]);
    settings.bounds.push((
        "k".to_string(),
        ValueBound::Str { mode: Inclusion::Include, values: vec![] },
    ));
    match make_bars(&data, &settings) {
        Err(PipelineError::BoundTypeMismatch { field }) => assert_eq!(field, "k"),
        other => panic!("expected a bound type mismatch, got {:?}", other),
    }
}

#[test]
fn nested_value_under_key_is_reported() {
    let data = keyed(vec![Value::Obj]);
    let settings = settings_with_keys(vec!["k"]);
    match make_bars(&data, &settings) {
        Err(PipelineError::KeyTypeConflict { field }) => assert_eq!(field, "k"),
        other => panic!("expected a key type conflict, got {:?}", other),
    }
}

#[test]
fn bounds_filter_rows_and_exclude_null() {
    let data = keyed(vec![
        Value::I64(1),
        Value::I64(5),
        Value::I64(5),
        Value::Null,
        Value::I64(9),
    ]);
    let mut settings = settings_with_keys(vec!["k"]);
    // keep values in [2, 8); any configured bound also drops Null
    settings.bounds.push(("k".to_string(), ValueBound::I64(spart::settings::Bound::Range {
        start: 2,
        end: 8,
    })));
    let bars = make_bars(&data, &settings).expect("well-typed table");
    assert_eq!(bars.len(), 1);
    assert_eq!((bars[0].label.as_str(), bars[0].count, bars[0].rank), ("5", 2, 0));
}

#[test]
fn end_to_end_counts_by_category() {
    let data = vec![
        rec(vec![("cat", str_val("a")), ("n", Value::I64(1))]),
        rec(vec![("cat", str_val("a")), ("n", Value::I64(2))]),
        rec(vec![("cat", str_val("b")), ("n", Value::I64(3))]),
    ];
    let mut app = App::new(data).expect("valid table");
    assert_eq!(
        app.keys,
        vec![("cat".to_string(), ValueType::Str), ("n".to_string(), ValueType::I64)]
    );
    assert!(app.bars.is_empty());
    App::add_key("cat".to_string(), &mut app.bars, &mut app.data, &mut app.settings)
        .expect("recompute succeeds");
    assert_eq!(app.bars.len(), 2);
    assert_eq!((app.bars[0].label.as_str(), app.bars[0].count, app.bars[0].rank), ("a", 2, 0));
    assert_eq!((app.bars[1].label.as_str(), app.bars[1].count, app.bars[1].rank), ("b", 1, 1));
}

#[test]
fn display_limit_resets_once_then_holds() {
    let data = vec![
        rec(vec![("cat", str_val("a"))]),
        rec(vec![("cat", str_val("a"))]),
        rec(vec![("cat", str_val("b"))]),
        rec(vec![("cat", str_val("c"))]),
    ];
    let mut app = App::new(data).expect("valid table");
    // the first non-empty recompute resets the cutoff to the group count
    App::add_key("cat".to_string(), &mut app.bars, &mut app.data, &mut app.settings)
        .expect("recompute succeeds");
    assert_eq!(app.bars.len(), 3);
    assert_eq!(app.settings.max_shown, 3);
    // a lowered cutoff survives later recomputes
    App::set_display_limit(1, &mut app.bars, &mut app.data, &mut app.settings)
        .expect("recompute succeeds");
    assert_eq!(app.settings.max_shown, 1);
    App::add_key("cat".to_string(), &mut app.bars, &mut app.data, &mut app.settings)
        .expect("recompute succeeds");
    assert_eq!(app.settings.max_shown, 1);
}

#[test]
fn removing_keys_empties_bars_and_rearms_reset() {
    let data = vec![rec(vec![("cat", str_val("a"))]), rec(vec![("cat", str_val("b"))])];
    let mut app = App::new(data).expect("valid table");
    App::add_key("cat".to_string(), &mut app.bars, &mut app.data, &mut app.settings)
        .expect("recompute succeeds");
    assert_eq!(app.settings.max_shown, 2);
    App::set_display_limit(1, &mut app.bars, &mut app.data, &mut app.settings)
        .expect("recompute succeeds");
    // no keys: no bars at all
    App::remove_key(&"cat".to_string(), &mut app.bars, &mut app.data, &mut app.settings)
        .expect("recompute succeeds");
    assert!(app.settings.x_axis.is_empty());
    assert!(app.bars.is_empty());
    // the next non-empty recompute resets the cutoff again
    App::add_key("cat".to_string(), &mut app.bars, &mut app.data, &mut app.settings)
        .expect("recompute succeeds");
    assert_eq!(app.settings.max_shown, 2);
}

#[test]
fn set_bound_replaces_and_clears() {
    let data = keyed(vec![Value::I64(1), Value::I64(5)]);
    let mut app = App::new(data).expect("valid table");
    App::add_key("k".to_string(), &mut app.bars, &mut app.data, &mut app.settings)
        .expect("recompute succeeds");
    assert_eq!(app.bars.len(), 2);
    App::set_bound(
        "k".to_string(),
        Some(ValueBound::I64(spart::settings::Bound::Range { start: 0, end: 3 })),
        &mut app.bars,
        &mut app.data,
        &mut app.settings,
    )
        .expect("recompute succeeds");
    assert_eq!(app.bars.len(), 1);
    assert_eq!(app.bars[0].label, "1");
    App::set_bound("k".to_string(), None, &mut app.bars, &mut app.data, &mut app.settings)
        .expect("recompute succeeds");
    assert!(app.settings.bounds.is_empty());
    assert_eq!(app.bars.len(), 2);
}

#[test]
fn null_reference_type_defers_conflict_to_sort() {
    // The first record establishes Null for `k`, which is compatible with
    // everything, so validation passes even though later records mix
    // non-Null types; the sorter then reports the conflict instead of
    // comparing across types.
    let data = keyed(vec![Value::Null, Value::I64(1), str_val("x")]);
    let mut app = App::new(data).expect("null reference type accepts any later type");
    match App::add_key("k".to_string(), &mut app.bars, &mut app.data, &mut app.settings) {
        Err(PipelineError::KeyTypeConflict { field }) => assert_eq!(field, "k"),
        other => panic!("expected a key type conflict, got {:?}", other),
    }
    assert!(app.bars.is_empty());
}

#[test]
fn floats_group_by_order_key_and_label_by_text() {
    let data = keyed(vec![
        Value::F64 { key: 100, text: "1.5".to_string() },
        Value::F64 { key: 100, text: "1.50".to_string() },
        Value::F64 { key: 200, text: "2.5".to_string() },
    ]);
    let keys = vec!["k".to_string()];
    let groups = group_rows(&data, &vec![], &keys);
    assert_eq!(groups, vec![("1.5".to_string(), 2), ("2.5".to_string(), 1)]);
}

#[test]
fn booleans_sort_false_before_true() {
    let mut data = keyed(vec![Value::Bool(true), Value::Bool(false), Value::Bool(true)]);
    let settings = settings_with_keys(vec!["k"]);
    sort_arr(&mut data, &settings).expect("consistent table should sort");
    assert!(matches!(field_of(&data[0], "k"), Value::Bool(false)));
    assert!(matches!(field_of(&data[1], "k"), Value::Bool(true)));
    assert!(matches!(field_of(&data[2], "k"), Value::Bool(true)));
}
