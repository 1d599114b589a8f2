//! Configuration of the pipeline: per-field bounds, group keys, the
//! aggregation mode and the display cutoff.

use vstd::prelude::*;

use crate::value::{get_of, is_nested, RecView, Record, ValView, Value, ValueType};

verus! {

/// Whether a specifics bound keeps only the listed values or drops them.
#[derive(Clone, Copy, Debug, PartialEq, Eq, Structural)]
pub enum Inclusion {
    Include,
    Exclude,
}

/// A per-field predicate over one value type: either a half-open range or
/// an explicit value list.
#[derive(Clone, Debug, PartialEq)]
pub enum Bound<T> {
    Range { start: T, end: T },
    Specifics { mode: Inclusion, values: Vec<T> },
}

impl<T> Bound<T> {
    /// A specifics bound with an empty value list.
    pub fn specifics(mode: Inclusion) -> (r: Self)
        ensures
            r matches Bound::Specifics { mode: inc, values } && inc == mode
                && values@.len() == 0,
    {
        Bound::Specifics { mode, values: Vec::new() }
    }
}

impl<T> Default for Bound<T> {
    /// The default bound excludes an empty value set, so it excludes no
    /// typed value.
    fn default() -> (r: Self)
        ensures
            r matches Bound::Specifics { mode: inc, values } && inc == Inclusion::Exclude
                && values@.len() == 0,
    {
        Bound::Specifics { mode: Inclusion::Exclude, values: Vec::new() }
    }
}

/// Whether an integer sequence holds a value.
pub open spec fn has_i64(s: Seq<i64>, v: int) -> bool {
    exists|i: int| 0 <= i < s.len() && s[i] == v
}

/// Whether an unsigned sequence holds a value.
pub open spec fn has_u64(s: Seq<u64>, v: int) -> bool {
    exists|i: int| 0 <= i < s.len() && s[i] == v
}

/// Whether a string list holds a string with the given characters.
pub open spec fn has_str(s: Seq<String>, v: Seq<char>) -> bool {
    exists|i: int| 0 <= i < s.len() && s[i]@ == v
}

/// What a signed bound excludes: a value outside the half-open range, or
/// one missing from (Include) or present in (Exclude) the value list.
pub open spec fn i64_bound_excludes(b: Bound<i64>, v: int) -> bool {
    match b {
        Bound::Range { start, end } => !(start <= v && v < end),
        Bound::Specifics { mode: Inclusion::Include, values } => !has_i64(values@, v),
        Bound::Specifics { mode: Inclusion::Exclude, values } => has_i64(values@, v),
    }
}

/// What an unsigned bound excludes; also the bound on numbers carried as
/// `F64`, over their order keys.
pub open spec fn u64_bound_excludes(b: Bound<u64>, v: int) -> bool {
    match b {
        Bound::Range { start, end } => !(start <= v && v < end),
        Bound::Specifics { mode: Inclusion::Include, values } => !has_u64(values@, v),
        Bound::Specifics { mode: Inclusion::Exclude, values } => has_u64(values@, v),
    }
}

fn contains_i64(values: &Vec<i64>, v: i64) -> (r: bool)
    ensures
        r == has_i64(values@, v as int),
{
    let mut i: usize = 0;
    while i < values.len()
        invariant
            i <= values.len(),
            forall|j: int| 0 <= j < i ==> values@[j] != v,
        decreases values.len() - i,
    {
        if values[i] == v {
            assert(has_i64(values@, v as int));
            return true;
        }
        i += 1;
    }
    proof {
        if has_i64(values@, v as int) {
            let j = choose|j: int| 0 <= j < values@.len() && values@[j] == v;
            assert(values@[j] != v);
        }
    }
    false
}

fn contains_u64(values: &Vec<u64>, v: u64) -> (r: bool)
    ensures
        r == has_u64(values@, v as int),
{
    let mut i: usize = 0;
    while i < values.len()
        invariant
            i <= values.len(),
            forall|j: int| 0 <= j < i ==> values@[j] != v,
        decreases values.len() - i,
    {
        if values[i] == v {
            assert(has_u64(values@, v as int));
            return true;
        }
        i += 1;
    }
    proof {
        if has_u64(values@, v as int) {
            let j = choose|j: int| 0 <= j < values@.len() && values@[j] == v;
            assert(values@[j] != v);
        }
    }
    false
}

fn contains_str(values: &Vec<String>, v: &String) -> (r: bool)
    ensures
        r == has_str(values@, v@),
{
    let mut i: usize = 0;
    while i < values.len()
        invariant
            i <= values.len(),
            forall|j: int| 0 <= j < i ==> values@[j]@ != v@,
        decreases values.len() - i,
    {
        if values[i] == *v {
            assert(has_str(values@, v@));
            return true;
        }
        i += 1;
    }
    proof {
        if has_str(values@, v@) {
            let j = choose|j: int| 0 <= j < values@.len() && values@[j]@ == v@;
            assert(values@[j]@ != v@);
        }
    }
    false
}

impl Bound<i64> {
    /// Whether this bound excludes a signed value.
    pub fn excludes(&self, val: &i64) -> (r: bool)
        ensures
            r == i64_bound_excludes(*self, *val as int),
    {
        match self {
            Bound::Range { start, end } => !(*start <= *val && *val < *end),
            Bound::Specifics { mode, values } => {
                let found = contains_i64(values, *val);
                match mode {
                    Inclusion::Include => !found,
                    Inclusion::Exclude => found,
                }
            },
        }
    }
}

impl Bound<u64> {
    /// Whether this bound excludes an unsigned value or an `F64` order key.
    pub fn excludes(&self, val: &u64) -> (r: bool)
        ensures
            r == u64_bound_excludes(*self, *val as int),
    {
        match self {
            Bound::Range { start, end } => !(*start <= *val && *val < *end),
            Bound::Specifics { mode, values } => {
                let found = contains_u64(values, *val);
                match mode {
                    Inclusion::Include => !found,
                    Inclusion::Exclude => found,
                }
            },
        }
    }
}

/// A range bound excludes nothing at its start (when the range is
/// non-empty), everything from its end upward, and everything below its
/// start; an exact statement of the half-open convention.
pub proof fn lemma_range_excludes_i64(start: i64, end: i64, v: int)
    ensures
        start < end ==> !i64_bound_excludes(Bound::Range { start, end }, start as int),
        i64_bound_excludes(Bound::Range { start, end }, end as int),
        v < start ==> i64_bound_excludes(Bound::Range { start, end }, v),
{
}

/// The unsigned counterpart of the range law.
pub proof fn lemma_range_excludes_u64(start: u64, end: u64, v: int)
    ensures
        start < end ==> !u64_bound_excludes(Bound::Range { start, end }, start as int),
        u64_bound_excludes(Bound::Range { start, end }, end as int),
        v < start ==> u64_bound_excludes(Bound::Range { start, end }, v),
{
}

/// A specifics bound in Include mode excludes exactly the values missing
/// from its set; in Exclude mode, exactly the values present in it.
pub proof fn lemma_specifics_excludes_i64(b: Bound<i64>, v: int)
    ensures
        b matches Bound::Specifics { mode, values } ==> i64_bound_excludes(b, v) == (
        if mode == Inclusion::Include {
            !has_i64(values@, v)
        } else {
            has_i64(values@, v)
        }),
{
}

/// The unsigned counterpart of the specifics law.
pub proof fn lemma_specifics_excludes_u64(b: Bound<u64>, v: int)
    ensures
        b matches Bound::Specifics { mode, values } ==> u64_bound_excludes(b, v) == (
        if mode == Inclusion::Include {
            !has_u64(values@, v)
        } else {
            has_u64(values@, v)
        }),
{
}

/// A specifics bound on a string field follows the same law: Include mode
/// excludes exactly the strings missing from its list, Exclude mode
/// exactly those present.
pub proof fn lemma_specifics_excludes_str(b: ValueBound, s: Seq<char>)
    ensures
        b matches ValueBound::Str { mode, values } ==> vb_excludes(ValView::Str(s), b) == (
        if mode == Inclusion::Include {
            !has_str(values@, s)
        } else {
            has_str(values@, s)
        }),
{
}

/// A per-field bound, specialized to the field's value type.
///
/// The bound on numbers carried as `F64` ranges over their order keys, so
/// it draws the same line the numeric bound of the source data would. The
/// boolean bound demands an exact match. Byte-sequence fields accept no
/// bound; a bound configured against one is a deliberate no-op.
#[derive(Clone, Debug, PartialEq)]
pub enum ValueBound {
    I64(Bound<i64>),
    U64(Bound<u64>),
    F64(Bound<u64>),
    Str { mode: Inclusion, values: Vec<String> },
    Bool(bool),
}

/// Whether a value's type fits a configured bound: Null and byte values
/// fit every bound, a typed value only the bound of its own type, and a
/// nested composite fits none.
pub open spec fn vb_compat(v: ValView, b: ValueBound) -> bool {
    match v {
        ValView::Null => true,
        ValView::Bytes(_) => true,
        ValView::Bool(_) => b is Bool,
        ValView::I64(_) => b is I64,
        ValView::U64(_) => b is U64,
        ValView::F64 { .. } => b is F64,
        ValView::Str(_) => b is Str,
        ValView::Obj => false,
        ValView::Arr => false,
    }
}

/// What a configured bound excludes, given the field's value: any bound
/// excludes Null, no bound excludes a byte sequence, and a typed value is
/// judged by the matching bound. A mismatched pairing excludes nothing;
/// the aggregator reports it as an error before filtering.
pub open spec fn vb_excludes(v: ValView, b: ValueBound) -> bool {
    match (v, b) {
        (ValView::Null, _) => true,
        (ValView::Bytes(_), _) => false,
        (ValView::I64(x), ValueBound::I64(bd)) => i64_bound_excludes(bd, x),
        (ValView::U64(x), ValueBound::U64(bd)) => u64_bound_excludes(bd, x),
        (ValView::F64 { key, .. }, ValueBound::F64(bd)) => u64_bound_excludes(bd, key),
        (ValView::Str(s), ValueBound::Str { mode: Inclusion::Include, values }) => !has_str(
            values@,
            s,
        ),
        (ValView::Str(s), ValueBound::Str { mode: Inclusion::Exclude, values }) => has_str(
            values@,
            s,
        ),
        (ValView::Bool(x), ValueBound::Bool(bb)) => x != bb,
        _ => false,
    }
}

/// Whether a value is excluded by a configured bound.
pub fn value_excluded(v: &Value, b: &ValueBound) -> (r: bool)
    ensures
        r == vb_excludes(v@, *b),
{
    match (v, b) {
        (Value::Null, _) => true,
        (Value::Bytes(_), _) => false,
        (Value::I64(x), ValueBound::I64(bd)) => bd.excludes(x),
        (Value::U64(x), ValueBound::U64(bd)) => bd.excludes(x),
        (Value::F64 { key, .. }, ValueBound::F64(bd)) => bd.excludes(key),
        (Value::Str(s), ValueBound::Str { mode, values }) => {
            let found = contains_str(values, s);
            match mode {
                Inclusion::Include => !found,
                Inclusion::Exclude => found,
            }
        },
        (Value::Bool(x), ValueBound::Bool(bb)) => *x != *bb,
        _ => false,
    }
}

/// Whether a row is dropped by the configured bounds: some bound's field
/// is present in the row and that bound excludes the field's value.
pub open spec fn row_excluded(r: RecView, bounds: Seq<(String, ValueBound)>) -> bool {
    exists|j: int|
        0 <= j < bounds.len() && match get_of(r, #[trigger] bounds[j].0@) {
            Some(v) => vb_excludes(v, bounds[j].1),
            None => false,
        }
}

/// Whether every configured bound fits the type of the row's value for its
/// field; fields absent from the row fit trivially.
pub open spec fn row_bounds_ok(r: RecView, bounds: Seq<(String, ValueBound)>) -> bool {
    forall|j: int|
        0 <= j < bounds.len() ==> match get_of(r, #[trigger] bounds[j].0@) {
            Some(v) => vb_compat(v, bounds[j].1),
            None => true,
        }
}

/// Which quantity the aggregator measures per group. Only counting is
/// implemented; aggregating by a value key is declared but unsupported,
/// and the aggregator reports it as such.
#[derive(Clone, Copy, Debug, PartialEq)]
pub enum YAxisKey<'keys> {
    Count,
    Key(&'keys str),
}

/// The externally owned configuration: per-field bounds, the ordered group
/// key list (order sets both grouping and sort precedence), the
/// aggregation mode, and how many ranked bars the renderer should show.
#[derive(Debug)]
pub struct Settings<'keys> {
    pub bounds: Vec<(String, ValueBound)>,
    pub x_axis: Vec<String>,
    pub y_axis: YAxisKey<'keys>,
    pub max_shown: usize,
}

impl Default for Settings<'_> {
    /// No bounds, no group keys, counting, and no display cutoff.
    fn default() -> (r: Self)
        ensures
            r.bounds@.len() == 0,
            r.x_axis@.len() == 0,
            r.y_axis is Count,
            r.max_shown == usize::MAX,
    {
        Settings {
            bounds: Vec::new(),
            x_axis: Vec::new(),
            y_axis: YAxisKey::Count,
            max_shown: usize::MAX,
        }
    }
}

/// An error raised by a recompute. `UnsupportedAggregation` reports a
/// configuration the pipeline does not implement; the other two report
/// broken invariants that validation would have caught, distinct from
/// user-facing validation errors.
#[derive(Clone, Debug, PartialEq)]
pub enum PipelineError {
    UnsupportedAggregation,
    KeyTypeConflict { field: String },
    BoundTypeMismatch { field: String },
}


/// Order key of the number zero, the lower end of the default numeric
/// range bound on `F64` fields.
pub const F64_KEY_ZERO: u64 = 0x8000_0000_0000_0000;

/// Order key of the largest finite double-precision number, the upper end
/// of the default numeric range bound on `F64` fields.
pub const F64_KEY_MAX_FINITE: u64 = 0xFFEF_FFFF_FFFF_FFFF;

/// Whether a bound is a signed specifics bound with the given mode and an
/// empty value list.
pub open spec fn is_empty_specifics_i64(b: ValueBound, m: Inclusion) -> bool {
    match b {
        ValueBound::I64(Bound::Specifics { mode, values }) => mode == m && values@.len() == 0,
        _ => false,
    }
}

/// Whether a bound is an unsigned specifics bound with the given mode and
/// an empty value list.
pub open spec fn is_empty_specifics_u64(b: ValueBound, m: Inclusion) -> bool {
    match b {
        ValueBound::U64(Bound::Specifics { mode, values }) => mode == m && values@.len() == 0,
        _ => false,
    }
}

/// Whether a bound is an `F64` specifics bound with the given mode and an
/// empty value list.
pub open spec fn is_empty_specifics_f64(b: ValueBound, m: Inclusion) -> bool {
    match b {
        ValueBound::F64(Bound::Specifics { mode, values }) => mode == m && values@.len() == 0,
        _ => false,
    }
}

/// Whether a bound is a string bound with the given mode and an empty
/// value list.
pub open spec fn is_empty_specifics_str(b: ValueBound, m: Inclusion) -> bool {
    match b {
        ValueBound::Str { mode, values } => mode == m && values@.len() == 0,
        _ => false,
    }
}

impl ValueBound {
    /// The configurable bounds offered for a field of the given type:
    /// numeric fields offer a zero-to-maximum range and the two specifics
    /// modes, string fields the two specifics modes, boolean fields the
    /// two literal bounds, and byte or null fields nothing.
    pub fn base_options_for(ty: ValueType) -> (r: Vec<ValueBound>)
        requires
            !is_nested(ty),
        ensures
            ty == ValueType::I64 ==> r@.len() == 3 && r@[0] == ValueBound::I64(
                Bound::Range { start: 0i64, end: i64::MAX },
            ) && is_empty_specifics_i64(r@[1], Inclusion::Exclude) && is_empty_specifics_i64(
                r@[2],
                Inclusion::Include,
            ),
            ty == ValueType::U64 ==> r@.len() == 3 && r@[0] == ValueBound::U64(
                Bound::Range { start: 0u64, end: u64::MAX },
            ) && is_empty_specifics_u64(r@[1], Inclusion::Exclude) && is_empty_specifics_u64(
                r@[2],
                Inclusion::Include,
            ),
            ty == ValueType::F64 ==> r@.len() == 3 && r@[0] == ValueBound::F64(
                Bound::Range { start: F64_KEY_ZERO, end: F64_KEY_MAX_FINITE },
            ) && is_empty_specifics_f64(r@[1], Inclusion::Exclude) && is_empty_specifics_f64(
                r@[2],
                Inclusion::Include,
            ),
            ty == ValueType::Str ==> r@.len() == 2 && is_empty_specifics_str(
                r@[0],
                Inclusion::Include,
            ) && is_empty_specifics_str(r@[1], Inclusion::Exclude),
            ty == ValueType::Bool ==> r@.len() == 2 && r@[0] == ValueBound::Bool(true) && r@[1]
                == ValueBound::Bool(false),
            ty == ValueType::Bytes || ty == ValueType::Null ==> r@.len() == 0,
    {
        let mut r: Vec<ValueBound> = Vec::new();
        match ty {
            ValueType::I64 => {
                r.push(ValueBound::I64(Bound::Range { start: 0, end: i64::MAX }));
                r.push(ValueBound::I64(Bound::specifics(Inclusion::Exclude)));
                r.push(ValueBound::I64(Bound::specifics(Inclusion::Include)));
            },
            ValueType::U64 => {
                r.push(ValueBound::U64(Bound::Range { start: 0, end: u64::MAX }));
                r.push(ValueBound::U64(Bound::specifics(Inclusion::Exclude)));
                r.push(ValueBound::U64(Bound::specifics(Inclusion::Include)));
            },
            ValueType::F64 => {
                r.push(ValueBound::F64(Bound::Range {
                    start: F64_KEY_ZERO,
                    end: F64_KEY_MAX_FINITE,
                }));
                r.push(ValueBound::F64(Bound::specifics(Inclusion::Exclude)));
                r.push(ValueBound::F64(Bound::specifics(Inclusion::Include)));
            },
            ValueType::Str => {
                r.push(ValueBound::Str { mode: Inclusion::Include, values: Vec::new() });
                r.push(ValueBound::Str { mode: Inclusion::Exclude, values: Vec::new() });
            },
            ValueType::Bool => {
                r.push(ValueBound::Bool(true));
                r.push(ValueBound::Bool(false));
            },
            _ => {},
        }
        r
    }

    /// A short label naming the kind of this bound.
    pub fn ui_descriptor(&self) -> (r: &'static str)
        ensures
            r@ == descriptor_of(*self),
    {
        match self {
            ValueBound::I64(Bound::Range { .. })
            | ValueBound::U64(Bound::Range { .. })
            | ValueBound::F64(Bound::Range { .. }) => "Range",
            ValueBound::I64(Bound::Specifics { mode: Inclusion::Exclude, .. })
            | ValueBound::U64(Bound::Specifics { mode: Inclusion::Exclude, .. })
            | ValueBound::F64(Bound::Specifics { mode: Inclusion::Exclude, .. })
            | ValueBound::Str { mode: Inclusion::Exclude, .. } => "Exclude Values",
            ValueBound::I64(Bound::Specifics { mode: Inclusion::Include, .. })
            | ValueBound::U64(Bound::Specifics { mode: Inclusion::Include, .. })
            | ValueBound::F64(Bound::Specifics { mode: Inclusion::Include, .. })
            | ValueBound::Str { mode: Inclusion::Include, .. } => "Include Values",
            ValueBound::Bool(true) => "true",
            ValueBound::Bool(false) => "false",
        }
    }
}

/// The label `ui_descriptor` gives each kind of bound.
pub open spec fn descriptor_of(b: ValueBound) -> Seq<char> {
    match b {
        ValueBound::I64(Bound::Range { .. })
        | ValueBound::U64(Bound::Range { .. })
        | ValueBound::F64(Bound::Range { .. }) => "Range"@,
        ValueBound::I64(Bound::Specifics { mode: Inclusion::Exclude, .. })
        | ValueBound::U64(Bound::Specifics { mode: Inclusion::Exclude, .. })
        | ValueBound::F64(Bound::Specifics { mode: Inclusion::Exclude, .. })
        | ValueBound::Str { mode: Inclusion::Exclude, .. } => "Exclude Values"@,
        ValueBound::I64(Bound::Specifics { mode: Inclusion::Include, .. })
        | ValueBound::U64(Bound::Specifics { mode: Inclusion::Include, .. })
        | ValueBound::F64(Bound::Specifics { mode: Inclusion::Include, .. })
        | ValueBound::Str { mode: Inclusion::Include, .. } => "Include Values"@,
        ValueBound::Bool(true) => "true"@,
        ValueBound::Bool(false) => "false"@,
    }
}

/// Whether a value's type fits a configured bound.
pub fn value_compatible(v: &Value, b: &ValueBound) -> (r: bool)
    ensures
        r == vb_compat(v@, *b),
{
    match v {
        Value::Null => true,
        Value::Bytes(_) => true,
        Value::Bool(_) => matches!(b, ValueBound::Bool(_)),
        Value::I64(_) => matches!(b, ValueBound::I64(_)),
        Value::U64(_) => matches!(b, ValueBound::U64(_)),
        Value::F64 { .. } => matches!(b, ValueBound::F64(_)),
        Value::Str(_) => matches!(b, ValueBound::Str { .. }),
        Value::Obj => false,
        Value::Arr => false,
    }
}

/// Whether the configured bounds drop a row.
pub fn row_is_excluded(r: &Record, bounds: &Vec<(String, ValueBound)>) -> (ex: bool)
    ensures
        ex == row_excluded(r@, bounds@),
{
    let mut j: usize = 0;
    while j < bounds.len()
        invariant
            j <= bounds.len(),
            forall|k: int|
                0 <= k < j ==> match get_of(r@, #[trigger] bounds@[k].0@) {
                    Some(v) => !vb_excludes(v, bounds@[k].1),
                    None => true,
                },
        decreases bounds.len() - j,
    {
        match r.get(&bounds[j].0) {
            Some(v) => {
                if value_excluded(v, &bounds[j].1) {
                    assert(row_excluded(r@, bounds@));
                    return true;
                }
            },
            None => {},
        }
        j += 1;
    }
    proof {
        if row_excluded(r@, bounds@) {
            let k = choose|k: int|
                0 <= k < bounds@.len() && match get_of(r@, #[trigger] bounds@[k].0@) {
                    Some(v) => vb_excludes(v, bounds@[k].1),
                    None => false,
                };
            assert(0 <= k < j);
        }
    }
    false
}

/// Finds the first configured bound whose type does not fit the row's
/// value for its field, if any.
pub fn find_bound_mismatch(r: &Record, bounds: &Vec<(String, ValueBound)>) -> (res: Option<usize>)
    ensures
        match res {
            Some(j) => j < bounds@.len() && match get_of(r@, bounds@[j as int].0@) {
                Some(v) => !vb_compat(v, bounds@[j as int].1),
                None => false,
            },
            None => row_bounds_ok(r@, bounds@),
        },
{
    let mut j: usize = 0;
    while j < bounds.len()
        invariant
            j <= bounds.len(),
            forall|k: int|
                0 <= k < j ==> match get_of(r@, #[trigger] bounds@[k].0@) {
                    Some(v) => vb_compat(v, bounds@[k].1),
                    None => true,
                },
        decreases bounds.len() - j,
    {
        match r.get(&bounds[j].0) {
            Some(v) => {
                if !value_compatible(v, &bounds[j].1) {
                    return Some(j);
                }
            },
            None => {},
        }
        j += 1;
    }
    None
}

} // verus!
