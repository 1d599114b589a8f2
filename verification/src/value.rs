//! The scalar value model: typed values, records, and the total order
//! shared by the sorter, the bound engine and the aggregator.

use vstd::prelude::*;

verus! {

/// The type tag of a value. `Obj` and `Arr` mark nested composite values,
/// which the pipeline rejects during validation.
#[derive(Clone, Copy, Debug, PartialEq, Eq, Structural)]
pub enum ValueType {
    Null,
    Bool,
    I64,
    U64,
    F64,
    Str,
    Bytes,
    Obj,
    Arr,
}

/// Mathematical model of a `Value`.
pub enum ValView {
    Null,
    Bool(bool),
    I64(int),
    U64(int),
    F64 { key: int, text: Seq<char> },
    Str(Seq<char>),
    Bytes(Seq<u8>),
    Obj,
    Arr,
}

/// One scalar value of a record.
///
/// A double-precision number is carried as `F64 { key, text }`: `key` is a
/// monotone encoding of the number (order of keys is order of numbers, equal
/// keys mean the same number) and `text` is its display form; the pipeline
/// itself never performs floating-point arithmetic. `Obj` and `Arr` stand
/// for nested composite values; only their presence matters, since
/// validation rejects any table containing one.
#[derive(Debug)]
pub enum Value {
    Null,
    Bool(bool),
    I64(i64),
    U64(u64),
    F64 { key: u64, text: String },
    Str(String),
    Bytes(Vec<u8>),
    Obj,
    Arr,
}

impl View for Value {
    type V = ValView;

    open spec fn view(&self) -> ValView {
        match *self {
            Value::Null => ValView::Null,
            Value::Bool(b) => ValView::Bool(b),
            Value::I64(n) => ValView::I64(n as int),
            Value::U64(n) => ValView::U64(n as int),
            Value::F64 { key, ref text } => ValView::F64 { key: key as int, text: text@ },
            Value::Str(ref s) => ValView::Str(s@),
            Value::Bytes(ref b) => ValView::Bytes(b@),
            Value::Obj => ValView::Obj,
            Value::Arr => ValView::Arr,
        }
    }
}

/// The type tag of a value model.
pub open spec fn type_of(v: ValView) -> ValueType {
    match v {
        ValView::Null => ValueType::Null,
        ValView::Bool(_) => ValueType::Bool,
        ValView::I64(_) => ValueType::I64,
        ValView::U64(_) => ValueType::U64,
        ValView::F64 { .. } => ValueType::F64,
        ValView::Str(_) => ValueType::Str,
        ValView::Bytes(_) => ValueType::Bytes,
        ValView::Obj => ValueType::Obj,
        ValView::Arr => ValueType::Arr,
    }
}

/// Whether a type tag marks a nested composite value.
pub open spec fn is_nested(t: ValueType) -> bool {
    t == ValueType::Obj || t == ValueType::Arr
}

impl Value {
    /// The type tag of this value.
    pub fn value_type(&self) -> (t: ValueType)
        ensures
            t == type_of(self@),
    {
        match self {
            Value::Null => ValueType::Null,
            Value::Bool(_) => ValueType::Bool,
            Value::I64(_) => ValueType::I64,
            Value::U64(_) => ValueType::U64,
            Value::F64 { .. } => ValueType::F64,
            Value::Str(_) => ValueType::Str,
            Value::Bytes(_) => ValueType::Bytes,
            Value::Obj => ValueType::Obj,
            Value::Arr => ValueType::Arr,
        }
    }
}

/// Outcome of a three-way comparison.
#[derive(Clone, Copy, Debug, PartialEq, Eq, Structural)]
pub enum Cmp {
    Lt,
    Eq,
    Gt,
}

/// The opposite comparison outcome.
pub open spec fn flip(c: Cmp) -> Cmp {
    match c {
        Cmp::Lt => Cmp::Gt,
        Cmp::Eq => Cmp::Eq,
        Cmp::Gt => Cmp::Lt,
    }
}

/// Three-way comparison of two integers.
pub open spec fn int_cmp(a: int, b: int) -> Cmp {
    if a < b {
        Cmp::Lt
    } else if a > b {
        Cmp::Gt
    } else {
        Cmp::Eq
    }
}

/// Lexicographic three-way comparison of two integer sequences.
pub open spec fn lex_cmp(a: Seq<int>, b: Seq<int>) -> Cmp
    decreases a.len(),
{
    if a.len() == 0 && b.len() == 0 {
        Cmp::Eq
    } else if a.len() == 0 {
        Cmp::Lt
    } else if b.len() == 0 {
        Cmp::Gt
    } else if a[0] < b[0] {
        Cmp::Lt
    } else if a[0] > b[0] {
        Cmp::Gt
    } else {
        lex_cmp(a.drop_first(), b.drop_first())
    }
}

/// A character sequence as its sequence of code points, the order strings
/// compare by.
pub open spec fn chars_key(s: Seq<char>) -> Seq<int> {
    s.map_values(|c: char| c as int)
}

/// A byte sequence as a sequence of integers.
pub open spec fn bytes_key(s: Seq<u8>) -> Seq<int> {
    s.map_values(|x: u8| x as int)
}

pub proof fn lemma_lex_cmp_eq_iff(a: Seq<int>, b: Seq<int>)
    ensures
        (lex_cmp(a, b) == Cmp::Eq) <==> (a == b),
    decreases a.len(),
{
    if a.len() == 0 && b.len() == 0 {
        assert(a =~= b);
    } else if a.len() == 0 || b.len() == 0 {
        assert(a != b);
    } else {
        lemma_lex_cmp_eq_iff(a.drop_first(), b.drop_first());
        if lex_cmp(a, b) == Cmp::Eq {
            assert(a[0] == b[0]);
            assert(a.drop_first() == b.drop_first());
            assert(a =~= b) by {
                assert forall|i: int| 0 <= i < a.len() implies a[i] == b[i] by {
                    if i > 0 {
                        assert(a[i] == a.drop_first()[i - 1]);
                        assert(b[i] == b.drop_first()[i - 1]);
                    }
                }
            }
        }
        if a == b {
            assert(a.drop_first() =~= b.drop_first());
        }
    }
}

pub proof fn lemma_lex_cmp_flip(a: Seq<int>, b: Seq<int>)
    ensures
        lex_cmp(b, a) == flip(lex_cmp(a, b)),
    decreases a.len(),
{
    if a.len() > 0 && b.len() > 0 && a[0] == b[0] {
        lemma_lex_cmp_flip(a.drop_first(), b.drop_first());
    }
}

pub proof fn lemma_lex_cmp_le_trans(a: Seq<int>, b: Seq<int>, c: Seq<int>)
    requires
        lex_cmp(a, b) != Cmp::Gt,
        lex_cmp(b, c) != Cmp::Gt,
    ensures
        lex_cmp(a, c) != Cmp::Gt,
    decreases a.len(),
{
    if a.len() > 0 {
        assert(b.len() > 0);
        assert(c.len() > 0);
        if a[0] == c[0] {
            assert(a[0] == b[0] && b[0] == c[0]);
            lemma_lex_cmp_le_trans(a.drop_first(), b.drop_first(), c.drop_first());
        }
    }
}

pub proof fn lemma_chars_key_inj(x: Seq<char>, y: Seq<char>)
    requires
        chars_key(x) == chars_key(y),
    ensures
        x == y,
{
    assert(chars_key(x).len() == x.len());
    assert(chars_key(y).len() == y.len());
    assert(x.len() == y.len());
    assert(x =~= y) by {
        assert forall|i: int| 0 <= i < x.len() implies x[i] == y[i] by {
            assert(chars_key(x)[i] == x[i] as int);
            assert(chars_key(y)[i] == y[i] as int);
            assert(chars_key(x)[i] == chars_key(y)[i]);
        }
    }
}

pub proof fn lemma_bytes_key_inj(x: Seq<u8>, y: Seq<u8>)
    requires
        bytes_key(x) == bytes_key(y),
    ensures
        x == y,
{
    assert(bytes_key(x).len() == x.len());
    assert(bytes_key(y).len() == y.len());
    assert(x.len() == y.len());
    assert(x =~= y) by {
        assert forall|i: int| 0 <= i < x.len() implies x[i] == y[i] by {
            assert(bytes_key(x)[i] == x[i] as int);
            assert(bytes_key(y)[i] == y[i] as int);
            assert(bytes_key(x)[i] == bytes_key(y)[i]);
        }
    }
}

/// Rank of a type tag in the cross-type order. Null ranks below every other
/// type, so null values sort before all non-null values.
pub open spec fn tag_rank(t: ValueType) -> int {
    match t {
        ValueType::Null => 0,
        ValueType::Bool => 1,
        ValueType::I64 => 2,
        ValueType::U64 => 3,
        ValueType::F64 => 4,
        ValueType::Str => 5,
        ValueType::Bytes => 6,
        ValueType::Obj => 7,
        ValueType::Arr => 8,
    }
}

/// The total order on value models shared by the sorter, the bound engine
/// and the aggregator: Null below everything, booleans false before true,
/// numbers numerically, strings by code point, byte sequences
/// lexicographically.
///
/// Values of differing non-Null types are ordered by type tag so that the
/// order is total; the executable pipeline reports a type-conflict error
/// before it ever relies on that arm, since validated tables never mix
/// non-Null types within a field.
pub open spec fn val_cmp(a: ValView, b: ValView) -> Cmp {
    if tag_rank(type_of(a)) < tag_rank(type_of(b)) {
        Cmp::Lt
    } else if tag_rank(type_of(a)) > tag_rank(type_of(b)) {
        Cmp::Gt
    } else {
        match (a, b) {
            (ValView::Bool(x), ValView::Bool(y)) => {
                if x == y {
                    Cmp::Eq
                } else if !x {
                    Cmp::Lt
                } else {
                    Cmp::Gt
                }
            },
            (ValView::I64(x), ValView::I64(y)) => int_cmp(x, y),
            (ValView::U64(x), ValView::U64(y)) => int_cmp(x, y),
            (ValView::F64 { key: x, .. }, ValView::F64 { key: y, .. }) => int_cmp(x, y),
            (ValView::Str(x), ValView::Str(y)) => lex_cmp(chars_key(x), chars_key(y)),
            (ValView::Bytes(x), ValView::Bytes(y)) => lex_cmp(bytes_key(x), bytes_key(y)),
            _ => Cmp::Eq,
        }
    }
}

/// Value equality as the pipeline understands it: comparison yields `Eq`.
/// For numbers carried as `F64` this compares the order keys and ignores
/// the display text.
pub open spec fn veq(a: ValView, b: ValView) -> bool {
    val_cmp(a, b) == Cmp::Eq
}

/// Non-strict order on value models.
pub open spec fn val_le(a: ValView, b: ValView) -> bool {
    val_cmp(a, b) != Cmp::Gt
}

pub proof fn lemma_val_cmp_flip(a: ValView, b: ValView)
    ensures
        val_cmp(b, a) == flip(val_cmp(a, b)),
{
    match (a, b) {
        (ValView::Str(x), ValView::Str(y)) => {
            lemma_lex_cmp_flip(chars_key(x), chars_key(y));
        },
        (ValView::Bytes(x), ValView::Bytes(y)) => {
            lemma_lex_cmp_flip(bytes_key(x), bytes_key(y));
        },
        _ => {},
    }
}

/// Comparison respects value equality: equal values compare the same way
/// against every third value, on either side.
pub proof fn lemma_val_cmp_congr(a: ValView, b: ValView, c: ValView)
    requires
        veq(a, b),
    ensures
        val_cmp(a, c) == val_cmp(b, c),
        val_cmp(c, a) == val_cmp(c, b),
{
    match (a, b) {
        (ValView::Str(x), ValView::Str(y)) => {
            lemma_lex_cmp_eq_iff(chars_key(x), chars_key(y));
            lemma_chars_key_inj(x, y);
        },
        (ValView::Bytes(x), ValView::Bytes(y)) => {
            lemma_lex_cmp_eq_iff(bytes_key(x), bytes_key(y));
            lemma_bytes_key_inj(x, y);
        },
        _ => {},
    }
    lemma_val_cmp_flip(c, a);
    lemma_val_cmp_flip(c, b);
}

pub proof fn lemma_val_le_trans(a: ValView, b: ValView, c: ValView)
    requires
        val_le(a, b),
        val_le(b, c),
    ensures
        val_le(a, c),
{
    match (a, b) {
        (ValView::Str(x), ValView::Str(y)) => {
            match c {
                ValView::Str(z) => {
                    lemma_lex_cmp_le_trans(chars_key(x), chars_key(y), chars_key(z));
                },
                _ => {},
            }
        },
        (ValView::Bytes(x), ValView::Bytes(y)) => {
            match c {
                ValView::Bytes(z) => {
                    lemma_lex_cmp_le_trans(bytes_key(x), bytes_key(y), bytes_key(z));
                },
                _ => {},
            }
        },
        _ => {},
    }
}


/// Mathematical model of a record: its fields in order, each a name with a
/// value model.
pub type RecView = Seq<(Seq<char>, ValView)>;

/// First-match lookup of a field by name.
pub open spec fn get_of(r: RecView, name: Seq<char>) -> Option<ValView>
    decreases r.len(),
{
    if r.len() == 0 {
        None
    } else if r[0].0 == name {
        Some(r[0].1)
    } else {
        get_of(r.drop_first(), name)
    }
}

/// The value a record holds for a field; a missing field reads as Null,
/// matching Null's role as the universally compatible wildcard.
pub open spec fn val_of(r: RecView, name: Seq<char>) -> ValView {
    match get_of(r, name) {
        Some(v) => v,
        None => ValView::Null,
    }
}

/// One row: a mapping from field name to value, kept in insertion order.
#[derive(Debug)]
pub struct Record {
    pub fields: Vec<(String, Value)>,
}

impl View for Record {
    type V = RecView;

    open spec fn view(&self) -> RecView {
        Seq::new(self.fields@.len(), |i: int| (self.fields@[i].0@, self.fields@[i].1@))
    }
}

pub proof fn lemma_get_of_found(r: RecView, name: Seq<char>, i: int)
    requires
        0 <= i < r.len(),
        forall|j: int| 0 <= j < i ==> r[j].0 != name,
        r[i].0 == name,
    ensures
        get_of(r, name) == Some(r[i].1),
    decreases i,
{
    if i > 0 {
        lemma_get_of_found(r.drop_first(), name, i - 1);
    }
}

pub proof fn lemma_get_of_none(r: RecView, name: Seq<char>)
    requires
        forall|j: int| 0 <= j < r.len() ==> r[j].0 != name,
    ensures
        get_of(r, name) is None,
    decreases r.len(),
{
    if r.len() > 0 {
        lemma_get_of_none(r.drop_first(), name);
    }
}

impl Record {
    /// Looks a field up by name; the first field with that name decides.
    pub fn get(&self, name: &String) -> (r: Option<&Value>)
        ensures
            match r {
                Some(v) => get_of(self@, name@) == Some(v@),
                None => get_of(self@, name@) is None,
            },
    {
        let mut i: usize = 0;
        while i < self.fields.len()
            invariant
                i <= self.fields.len(),
                forall|j: int| 0 <= j < i ==> self@[j].0 != name@,
            decreases self.fields.len() - i,
        {
            if self.fields[i].0 == *name {
                proof {
                    lemma_get_of_found(self@, name@, i as int);
                }
                return Some(&self.fields[i].1);
            }
            i += 1;
        }
        proof {
            lemma_get_of_none(self@, name@);
        }
        None
    }
}

/// The names of a key list, the form record comparison is defined over.
pub open spec fn keys_view(keys: Seq<String>) -> Seq<Seq<char>> {
    keys.map_values(|k: String| k@)
}

/// Three-way comparison of two records, walking the key list in order and
/// deciding at the first key whose values differ.
pub open spec fn rec_cmp(a: RecView, b: RecView, keys: Seq<Seq<char>>) -> Cmp
    decreases keys.len(),
{
    if keys.len() == 0 {
        Cmp::Eq
    } else {
        match val_cmp(val_of(a, keys[0]), val_of(b, keys[0])) {
            Cmp::Eq => rec_cmp(a, b, keys.drop_first()),
            c => c,
        }
    }
}

/// Non-strict record order under a key list.
pub open spec fn rec_le(a: RecView, b: RecView, keys: Seq<Seq<char>>) -> bool {
    rec_cmp(a, b, keys) != Cmp::Gt
}

/// Whether two records agree on every key of the list, the grouping
/// criterion of the aggregator.
pub open spec fn rec_matches(a: RecView, b: RecView, keys: Seq<Seq<char>>) -> bool {
    rec_cmp(a, b, keys) == Cmp::Eq
}

/// The record order as a relation on records, for sortedness statements.
pub open spec fn rec_le_rel(keys: Seq<Seq<char>>) -> spec_fn(Record, Record) -> bool {
    |a: Record, b: Record| rec_le(a@, b@, keys)
}

pub proof fn lemma_rec_cmp_flip(a: RecView, b: RecView, keys: Seq<Seq<char>>)
    ensures
        rec_cmp(b, a, keys) == flip(rec_cmp(a, b, keys)),
    decreases keys.len(),
{
    if keys.len() > 0 {
        lemma_val_cmp_flip(val_of(a, keys[0]), val_of(b, keys[0]));
        lemma_rec_cmp_flip(a, b, keys.drop_first());
    }
}

pub proof fn lemma_rec_le_trans(a: RecView, b: RecView, c: RecView, keys: Seq<Seq<char>>)
    requires
        rec_le(a, b, keys),
        rec_le(b, c, keys),
    ensures
        rec_le(a, c, keys),
    decreases keys.len(),
{
    if keys.len() > 0 {
        let x = val_of(a, keys[0]);
        let y = val_of(b, keys[0]);
        let z = val_of(c, keys[0]);
        if val_cmp(x, y) == Cmp::Eq {
            lemma_val_cmp_congr(x, y, z);
            if val_cmp(y, z) == Cmp::Eq {
                lemma_rec_le_trans(a, b, c, keys.drop_first());
            }
        } else {
            if val_cmp(y, z) == Cmp::Eq {
                lemma_val_cmp_congr(y, z, x);
                lemma_val_cmp_flip(x, y);
                lemma_val_cmp_flip(x, z);
            } else {
                lemma_val_le_trans(x, y, z);
                if val_cmp(x, z) == Cmp::Eq {
                    lemma_val_cmp_congr(x, z, y);
                    lemma_val_cmp_flip(y, z);
                }
            }
        }
    }
}

pub proof fn lemma_rec_cmp_prefix(a: RecView, b: RecView, keys: Seq<Seq<char>>, i: int)
    requires
        0 <= i <= keys.len(),
        forall|j: int| 0 <= j < i ==> val_cmp(val_of(a, keys[j]), val_of(b, keys[j])) == Cmp::Eq,
    ensures
        rec_cmp(a, b, keys) == rec_cmp(a, b, keys.skip(i)),
    decreases i,
{
    if i > 0 {
        lemma_rec_cmp_prefix(a, b, keys, i - 1);
        assert(keys.skip(i - 1).len() > 0);
        assert(keys.skip(i - 1)[0] == keys[i - 1]);
        assert(keys.skip(i - 1).drop_first() =~= keys.skip(i));
    } else {
        assert(keys.skip(0) =~= keys);
    }
}


pub proof fn lemma_lex_cmp_common_prefix(a: Seq<int>, b: Seq<int>, i: int)
    requires
        0 <= i <= a.len(),
        i <= b.len(),
        forall|j: int| 0 <= j < i ==> a[j] == b[j],
    ensures
        lex_cmp(a, b) == lex_cmp(a.skip(i), b.skip(i)),
    decreases i,
{
    if i > 0 {
        lemma_lex_cmp_common_prefix(a, b, i - 1);
        assert(a.skip(i - 1).len() > 0);
        assert(a.skip(i - 1)[0] == a[i - 1]);
        assert(b.skip(i - 1)[0] == b[i - 1]);
        assert(a.skip(i - 1).drop_first() =~= a.skip(i));
        assert(b.skip(i - 1).drop_first() =~= b.skip(i));
    } else {
        assert(a.skip(0) =~= a);
        assert(b.skip(0) =~= b);
    }
}

/// Compares two strings by code point order.
pub fn cmp_chars(a: &str, b: &str) -> (c: Cmp)
    ensures
        c == lex_cmp(chars_key(a@), chars_key(b@)),
{
    let alen = a.unicode_len();
    let blen = b.unicode_len();
    let ghost ka = chars_key(a@);
    let ghost kb = chars_key(b@);
    proof {
        assert(ka.len() == a@.len());
        assert(kb.len() == b@.len());
    }
    let mut i: usize = 0;
    loop
        invariant
            i <= alen,
            i <= blen,
            alen == a@.len(),
            blen == b@.len(),
            ka == chars_key(a@),
            kb == chars_key(b@),
            ka.len() == alen,
            kb.len() == blen,
            forall|j: int| 0 <= j < i ==> ka[j] == kb[j],
        decreases alen - i,
    {
        proof {
            lemma_lex_cmp_common_prefix(ka, kb, i as int);
        }
        if i == alen && i == blen {
            proof {
                assert(ka.skip(i as int).len() == 0);
                assert(kb.skip(i as int).len() == 0);
            }
            return Cmp::Eq;
        }
        if i == alen {
            proof {
                assert(ka.skip(i as int).len() == 0);
                assert(kb.skip(i as int).len() > 0);
            }
            return Cmp::Lt;
        }
        if i == blen {
            proof {
                assert(kb.skip(i as int).len() == 0);
            }
            return Cmp::Gt;
        }
        let ca = a.get_char(i);
        let cb = b.get_char(i);
        proof {
            assert(ka.skip(i as int)[0] == ka[i as int]);
            assert(kb.skip(i as int)[0] == kb[i as int]);
            assert(ka[i as int] == a@[i as int] as int);
            assert(kb[i as int] == b@[i as int] as int);
        }
        if (ca as u32) < (cb as u32) {
            return Cmp::Lt;
        }
        if (ca as u32) > (cb as u32) {
            return Cmp::Gt;
        }
        i += 1;
    }
}

/// Compares two byte sequences lexicographically.
pub fn cmp_bytes(a: &Vec<u8>, b: &Vec<u8>) -> (c: Cmp)
    ensures
        c == lex_cmp(bytes_key(a@), bytes_key(b@)),
{
    let alen = a.len();
    let blen = b.len();
    let ghost ka = bytes_key(a@);
    let ghost kb = bytes_key(b@);
    proof {
        assert(ka.len() == a@.len());
        assert(kb.len() == b@.len());
    }
    let mut i: usize = 0;
    loop
        invariant
            i <= alen,
            i <= blen,
            alen == a@.len(),
            blen == b@.len(),
            ka == bytes_key(a@),
            kb == bytes_key(b@),
            ka.len() == alen,
            kb.len() == blen,
            forall|j: int| 0 <= j < i ==> ka[j] == kb[j],
        decreases alen - i,
    {
        proof {
            lemma_lex_cmp_common_prefix(ka, kb, i as int);
        }
        if i == alen && i == blen {
            return Cmp::Eq;
        }
        if i == alen {
            proof {
                assert(kb.skip(i as int).len() > 0);
            }
            return Cmp::Lt;
        }
        if i == blen {
            return Cmp::Gt;
        }
        let ba = a[i];
        let bb = b[i];
        proof {
            assert(ka.skip(i as int)[0] == ka[i as int]);
            assert(kb.skip(i as int)[0] == kb[i as int]);
            assert(ka[i as int] == a@[i as int] as int);
            assert(kb[i as int] == b@[i as int] as int);
        }
        if ba < bb {
            return Cmp::Lt;
        }
        if ba > bb {
            return Cmp::Gt;
        }
        i += 1;
    }
}

/// Rank of a type tag in the cross-type order.
pub fn rank_of(t: ValueType) -> (r: u8)
    ensures
        r as int == tag_rank(t),
{
    match t {
        ValueType::Null => 0,
        ValueType::Bool => 1,
        ValueType::I64 => 2,
        ValueType::U64 => 3,
        ValueType::F64 => 4,
        ValueType::Str => 5,
        ValueType::Bytes => 6,
        ValueType::Obj => 7,
        ValueType::Arr => 8,
    }
}

/// Compares two values in the pipeline's order.
pub fn cmp_value(a: &Value, b: &Value) -> (c: Cmp)
    ensures
        c == val_cmp(a@, b@),
{
    let ra = rank_of(a.value_type());
    let rb = rank_of(b.value_type());
    if ra < rb {
        return Cmp::Lt;
    }
    if ra > rb {
        return Cmp::Gt;
    }
    match (a, b) {
        (Value::Bool(x), Value::Bool(y)) => {
            if *x == *y {
                Cmp::Eq
            } else if !*x {
                Cmp::Lt
            } else {
                Cmp::Gt
            }
        },
        (Value::I64(x), Value::I64(y)) => {
            if *x < *y {
                Cmp::Lt
            } else if *x > *y {
                Cmp::Gt
            } else {
                Cmp::Eq
            }
        },
        (Value::U64(x), Value::U64(y)) => {
            if *x < *y {
                Cmp::Lt
            } else if *x > *y {
                Cmp::Gt
            } else {
                Cmp::Eq
            }
        },
        (Value::F64 { key: x, .. }, Value::F64 { key: y, .. }) => {
            if *x < *y {
                Cmp::Lt
            } else if *x > *y {
                Cmp::Gt
            } else {
                Cmp::Eq
            }
        },
        (Value::Str(x), Value::Str(y)) => cmp_chars(x.as_str(), y.as_str()),
        (Value::Bytes(x), Value::Bytes(y)) => cmp_bytes(x, y),
        _ => Cmp::Eq,
    }
}

/// Whether two values are equal as the pipeline understands equality.
pub fn values_equal(a: &Value, b: &Value) -> (r: bool)
    ensures
        r == veq(a@, b@),
{
    let c = cmp_value(a, b);
    c == Cmp::Eq
}

/// Compares what two records hold for one field; a missing field reads
/// as Null.
pub fn cmp_at_key(a: &Record, b: &Record, key: &String) -> (c: Cmp)
    ensures
        c == val_cmp(val_of(a@, key@), val_of(b@, key@)),
{
    let va = a.get(key);
    let vb = b.get(key);
    let null_value = Value::Null;
    match (va, vb) {
        (Some(x), Some(y)) => cmp_value(x, y),
        (Some(x), None) => cmp_value(x, &null_value),
        (None, Some(y)) => cmp_value(&null_value, y),
        (None, None) => Cmp::Eq,
    }
}

/// Compares two records under a key list, deciding at the first key whose
/// values differ.
pub fn cmp_records(a: &Record, b: &Record, keys: &Vec<String>) -> (c: Cmp)
    ensures
        c == rec_cmp(a@, b@, keys_view(keys@)),
{
    let ghost kv = keys_view(keys@);
    proof {
        assert(kv.len() == keys@.len());
    }
    let mut i: usize = 0;
    while i < keys.len()
        invariant
            i <= keys.len(),
            kv == keys_view(keys@),
            kv.len() == keys@.len(),
            forall|j: int| 0 <= j < i ==> val_cmp(val_of(a@, kv[j]), val_of(b@, kv[j])) == Cmp::Eq,
        decreases keys.len() - i,
    {
        let c = cmp_at_key(a, b, &keys[i]);
        proof {
            assert(kv[i as int] == keys@[i as int]@);
        }
        if !(c == Cmp::Eq) {
            proof {
                lemma_rec_cmp_prefix(a@, b@, kv, i as int);
                assert(kv.skip(i as int)[0] == kv[i as int]);
            }
            return c;
        }
        i += 1;
    }
    proof {
        lemma_rec_cmp_prefix(a@, b@, kv, i as int);
        assert(kv.skip(i as int).len() == 0);
    }
    Cmp::Eq
}

} // verus!
