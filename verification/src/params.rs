//! Conversion of parsed YAML document nodes into the crate's parameter
//! values.
//!
//! `YamlValue` models a parsed YAML node as plain data: scalars, sequences,
//! mappings as entry lists, and tagged nodes. A float is carried opaquely
//! as its IEEE 754 bit pattern; the conversion never interprets it.
//! Conversion fails on a mapping key that is not a string and on an
//! unsigned integer too large for the signed representation; such a
//! failure concerns just the enclosing document.

use crate::strutil::str_eq;
use vstd::prelude::*;

verus! {

/// A numeric YAML scalar: a signed integer, an unsigned integer, or a
/// float carried as its IEEE 754 bit pattern.
#[derive(Debug, PartialEq)]
pub enum YamlNumber {
    Int(i64),
    UInt(u64),
    Float(u64),
}

/// A parsed YAML node.
#[derive(Debug, PartialEq)]
pub enum YamlValue {
    Null,
    Bool(bool),
    Number(YamlNumber),
    Str(String),
    Sequence(Vec<YamlValue>),
    Mapping(Vec<(YamlValue, YamlValue)>),
    Tagged(Box<YamlValue>),
}

/// A numeric parameter value: an integer, or a float carried as its IEEE
/// 754 bit pattern.
#[derive(Debug, PartialEq)]
pub enum Number {
    Integer(i64),
    Float(u64),
}

/// A parameter value.
#[derive(Debug, PartialEq)]
pub enum Value {
    Null,
    Bool(bool),
    Number(Number),
    Str(String),
    Array(Vec<Value>),
    Object(Params),
}

/// A keyed collection of parameter values: insertion replaces the entry
/// with the same key, otherwise appends.
#[derive(Debug, PartialEq)]
pub struct Params {
    entries: Vec<(String, Value)>,
}

/// The entries after inserting `(k, v)`: the first entry with the same key
/// text is replaced, otherwise the pair is appended.
pub open spec fn spec_params_insert(s: Seq<(String, Value)>, k: String, v: Value) -> Seq<
    (String, Value),
>
    decreases s.len(),
{
    if s.len() == 0 {
        seq![(k, v)]
    } else if s[0].0@ == k@ {
        seq![(k, v)] + s.drop_first()
    } else {
        seq![s[0]] + spec_params_insert(s.drop_first(), k, v)
    }
}

/// A scan that found no earlier entry with this key agrees with
/// `spec_params_insert`.
proof fn lemma_params_insert_scan(s: Seq<(String, Value)>, k: String, v: Value, i: int)
    requires
        0 <= i <= s.len(),
        forall|j: int| 0 <= j < i ==> (#[trigger] s[j]).0@ != k@,
        i == s.len() || s[i].0@ == k@,
    ensures
        spec_params_insert(s, k, v) == (if i == s.len() {
            s.push((k, v))
        } else {
            s.update(i, (k, v))
        }),
    decreases s.len(),
{
    if s.len() == 0 {
        assert(spec_params_insert(s, k, v) =~= s.push((k, v)));
    } else if s[0].0@ == k@ {
        assert(i == 0);
        assert(seq![(k, v)] + s.drop_first() =~= s.update(0, (k, v)));
    } else {
        assert(i >= 1);
        let rest = s.drop_first();
        assert(forall|j: int| 0 <= j < i - 1 ==> (#[trigger] rest[j]).0@ != k@) by {
            assert(forall|j: int| 0 <= j < i - 1 ==> rest[j] == s[j + 1]);
        }
        assert(i - 1 == rest.len() || rest[i - 1].0@ == k@);
        lemma_params_insert_scan(rest, k, v, i - 1);
        if i == s.len() {
            assert(seq![s[0]] + rest.push((k, v)) =~= s.push((k, v)));
        } else {
            assert(seq![s[0]] + rest.update(i - 1, (k, v)) =~= s.update(i, (k, v)));
        }
    }
}

impl Params {
    /// The entries, in insertion order.
    pub closed spec fn view(&self) -> Seq<(String, Value)> {
        self.entries@
    }

    /// An empty collection.
    pub fn new() -> (r: Params)
        ensures
            r@ == Seq::<(String, Value)>::empty(),
    {
        Params { entries: Vec::new() }
    }

    /// Insert a value under a key, replacing an entry with the same key
    /// text.
    pub fn insert(&mut self, k: String, v: Value)
        ensures
            final(self)@ == spec_params_insert(old(self)@, k, v),
    {
        let n = self.entries.len();
        let mut i: usize = 0;
        while i < n
            invariant
                0 <= i <= n,
                n == self.entries@.len(),
                self.entries@ == old(self).entries@,
                forall|j: int| 0 <= j < i ==> (#[trigger] self.entries@[j]).0@ != k@,
            decreases n - i,
        {
            if str_eq(self.entries[i].0.as_str(), k.as_str()) {
                proof {
                    lemma_params_insert_scan(self.entries@, k, v, i as int);
                }
                self.entries[i] = (k, v);
                return;
            }
            i += 1;
        }
        proof {
            lemma_params_insert_scan(self.entries@, k, v, n as int);
        }
        self.entries.push((k, v));
    }
}

/// A conversion failure within a single document.
#[derive(Debug, PartialEq)]
pub enum ConversionError {
    InvalidKeyFormat,
    InvalidNumberFormat,
}

impl ConversionError {
    /// A fixed description of the failure.
    pub fn message(&self) -> (r: &'static str)
        ensures
            r@ == (match self {
                ConversionError::InvalidKeyFormat => "invalid key format"@,
                ConversionError::InvalidNumberFormat => "invalid number format"@,
            }),
    {
        match self {
            ConversionError::InvalidKeyFormat => "invalid key format",
            ConversionError::InvalidNumberFormat => "invalid number format",
        }
    }
}

/// Conversion of a numeric scalar: an unsigned value beyond the signed
/// range does not fit the supported representation.
pub open spec fn spec_convert_number(n: YamlNumber) -> Result<Number, ConversionError> {
    match n {
        YamlNumber::Int(i) => Ok(Number::Integer(i)),
        YamlNumber::UInt(u) => if u <= i64::MAX as u64 {
            Ok(Number::Integer(u as i64))
        } else {
            Err(ConversionError::InvalidNumberFormat)
        },
        YamlNumber::Float(bits) => Ok(Number::Float(bits)),
    }
}

/// Successful conversion: `out` is the value that the node `v` converts
/// to. Sequences convert element by element; a mapping folds its entries,
/// in order, into a parameter collection by keyed insertion.
pub open spec fn value_ok(v: YamlValue, out: Value) -> bool
    decreases v, 0int, 0int,
{
    match v {
        YamlValue::Null => out == Value::Null,
        YamlValue::Bool(b) => out == Value::Bool(b),
        YamlValue::Number(n) => (match spec_convert_number(n) {
            Ok(x) => out == Value::Number(x),
            Err(_) => false,
        }),
        YamlValue::Str(s) => out == Value::Str(s),
        YamlValue::Sequence(arr) => match out {
            Value::Array(o) => seq_ok(arr, o@),
            _ => false,
        },
        YamlValue::Mapping(m) => match out {
            Value::Object(ps) => mapping_ok(m, m@.len() as int, ps@),
            _ => false,
        },
        YamlValue::Tagged(t) => value_ok(*t, out),
    }
}

/// The node converts to some value.
pub open spec fn value_succeeds(v: YamlValue) -> bool
    decreases v, 1int, 0int,
{
    exists|out: Value| value_ok(v, out)
}

/// Element-wise successful conversion of a sequence.
pub open spec fn seq_ok(arr: Vec<YamlValue>, o: Seq<Value>) -> bool
    decreases arr, 1int, 0int,
{
    o.len() == arr@.len() && forall|i: int|
        0 <= i < arr@.len() ==> value_ok(#[trigger] arr@[i], o[i])
}

/// One mapping entry converts successfully: the key is the string `k` and
/// the value converts to `x`.
pub open spec fn entry_ok(entry: (YamlValue, YamlValue), k: String, x: Value) -> bool
    decreases entry, 0int, 0int,
{
    entry.0 == YamlValue::Str(k) && value_ok(entry.1, x)
}

/// Successful conversion of the first `upto` mapping entries into the
/// accumulated parameter entries `acc`.
pub open spec fn mapping_ok(
    m: Vec<(YamlValue, YamlValue)>,
    upto: int,
    acc: Seq<(String, Value)>,
) -> bool
    decreases m, 1int, upto,
{
    if upto <= 0 || upto > m@.len() {
        upto <= 0 && acc == Seq::<(String, Value)>::empty()
    } else {
        exists|pre: Seq<(String, Value)>, k: String, x: Value|
            {
                &&& mapping_ok(m, upto - 1, pre)
                &&& entry_ok(m@[upto - 1], k, x)
                &&& acc == #[trigger] spec_params_insert(pre, k, x)
            }
    }
}

/// One mapping entry converts: a string key and a value that converts.
pub open spec fn entry_succeeds(entry: (YamlValue, YamlValue)) -> bool
    decreases entry, 2int, 0int,
{
    entry.0 is Str && value_succeeds(entry.1)
}

/// One mapping entry fails with this error: a non-string key, or a value
/// that fails.
pub open spec fn entry_err(entry: (YamlValue, YamlValue), e: ConversionError) -> bool
    decreases entry, 1int, 0int,
{
    match entry.0 {
        YamlValue::Str(_) => value_err(entry.1, e),
        _ => e == ConversionError::InvalidKeyFormat,
    }
}

/// The first `upto` entries of a sequence: some element fails with `e`,
/// every earlier element converting.
pub open spec fn seq_err(arr: Vec<YamlValue>, e: ConversionError) -> bool
    decreases arr, 2int, 0int,
{
    exists|j: int|
        {
            &&& 0 <= j < arr@.len()
            &&& value_err(#[trigger] arr@[j], e)
            &&& forall|k: int| 0 <= k < j ==> value_succeeds(#[trigger] arr@[k])
        }
}

/// The mapping fails with this error: its first failing entry, every
/// earlier entry converting.
pub open spec fn mapping_err(m: Vec<(YamlValue, YamlValue)>, e: ConversionError) -> bool
    decreases m, 2int, 0int,
{
    exists|j: int|
        {
            &&& 0 <= j < m@.len()
            &&& entry_err(#[trigger] m@[j], e)
            &&& forall|k: int| 0 <= k < j ==> entry_succeeds(#[trigger] m@[k])
        }
}

/// Failing conversion: the node `v` fails with exactly the error `e`, the
/// first failure in document order.
pub open spec fn value_err(v: YamlValue, e: ConversionError) -> bool
    decreases v, 0int, 0int,
{
    match v {
        YamlValue::Null => false,
        YamlValue::Bool(_) => false,
        YamlValue::Number(n) => spec_convert_number(n) == Result::<
            Number,
            ConversionError,
        >::Err(e),
        YamlValue::Str(_) => false,
        YamlValue::Sequence(arr) => seq_err(arr, e),
        YamlValue::Mapping(m) => mapping_err(m, e),
        YamlValue::Tagged(t) => value_err(*t, e),
    }
}

/// Every entry of a successfully converted mapping prefix converts.
proof fn lemma_mapping_ok_entries_succeed(
    m: Vec<(YamlValue, YamlValue)>,
    upto: int,
    acc: Seq<(String, Value)>,
    j: int,
)
    requires
        mapping_ok(m, upto, acc),
        0 <= j < upto,
    ensures
        entry_succeeds(m@[j]),
    decreases m, 0int, upto,
{
    let (pre, k, x) = choose|pre: Seq<(String, Value)>, k: String, x: Value|
        {
            &&& mapping_ok(m, upto - 1, pre)
            &&& entry_ok(m@[upto - 1], k, x)
            &&& acc == #[trigger] spec_params_insert(pre, k, x)
        };
    if j == upto - 1 {
        assert(value_ok(m@[j].1, x));
    } else {
        lemma_mapping_ok_entries_succeed(m, upto - 1, pre, j);
    }
}

/// An entry that converts does not fail.
proof fn lemma_excl_entry(entry: (YamlValue, YamlValue), e: ConversionError)
    requires
        entry_succeeds(entry),
    ensures
        !entry_err(entry, e),
    decreases entry, 3int, 0int,
{
    let out = choose|out: Value| value_ok(entry.1, out);
    lemma_conversion_exclusive(entry.1, out, e);
}

/// A sequence that converts element-wise does not fail.
proof fn lemma_excl_seq(arr: Vec<YamlValue>, o: Seq<Value>, e: ConversionError)
    requires
        seq_ok(arr, o),
    ensures
        !seq_err(arr, e),
    decreases arr, 3int, 0int,
{
    if seq_err(arr, e) {
        let j = choose|j: int|
            {
                &&& 0 <= j < arr@.len()
                &&& value_err(#[trigger] arr@[j], e)
                &&& forall|k: int| 0 <= k < j ==> value_succeeds(#[trigger] arr@[k])
            };
        lemma_conversion_exclusive(arr@[j], o[j], e);
    }
}

/// A mapping that converts does not fail.
proof fn lemma_excl_mapping(m: Vec<(YamlValue, YamlValue)>, acc: Seq<(String, Value)>,
    e: ConversionError)
    requires
        mapping_ok(m, m@.len() as int, acc),
    ensures
        !mapping_err(m, e),
    decreases m, 3int, 0int,
{
    if mapping_err(m, e) {
        let j = choose|j: int|
            {
                &&& 0 <= j < m@.len()
                &&& entry_err(#[trigger] m@[j], e)
                &&& forall|k: int| 0 <= k < j ==> entry_succeeds(#[trigger] m@[k])
            };
        lemma_mapping_ok_entries_succeed(m, m@.len() as int, acc, j);
        lemma_excl_entry(m@[j], e);
    }
}

/// A node that converts successfully does not also fail: the success and
/// failure relations exclude each other, so the conversion outcome is
/// unambiguous.
pub proof fn lemma_conversion_exclusive(v: YamlValue, out: Value, e: ConversionError)
    requires
        value_ok(v, out),
    ensures
        !value_err(v, e),
    decreases v, 4int, 0int,
{
    match v {
        YamlValue::Null => {},
        YamlValue::Bool(_) => {},
        YamlValue::Number(_) => {},
        YamlValue::Str(_) => {},
        YamlValue::Sequence(arr) => {
            match out {
                Value::Array(o) => {
                    lemma_excl_seq(arr, o@, e);
                },
                _ => {},
            }
        },
        YamlValue::Mapping(m) => {
            match out {
                Value::Object(ps) => {
                    lemma_excl_mapping(m, ps@, e);
                },
                _ => {},
            }
        },
        YamlValue::Tagged(t) => {
            lemma_conversion_exclusive(*t, out, e);
        },
    }
}

/// Folding one more successfully converted entry extends a successful
/// mapping conversion.
proof fn lemma_mapping_ok_step(
    m: Vec<(YamlValue, YamlValue)>,
    upto: int,
    pre: Seq<(String, Value)>,
    k: String,
    x: Value,
)
    requires
        1 <= upto <= m@.len(),
        mapping_ok(m, upto - 1, pre),
        entry_ok(m@[upto - 1], k, x),
    ensures
        mapping_ok(m, upto, spec_params_insert(pre, k, x)),
{
    assert(mapping_ok(m, upto - 1, pre) && entry_ok(m@[upto - 1], k, x)
        && spec_params_insert(pre, k, x) == spec_params_insert(pre, k, x));
}

/// Convert one mapping entry: the key must be a string, then the value is
/// converted.
fn convert_entry(entry: &(YamlValue, YamlValue)) -> (r: Result<(String, Value), ConversionError>)
    ensures
        match r {
            Ok(kv) => entry_ok(*entry, kv.0, kv.1),
            Err(e) => entry_err(*entry, e),
        },
    decreases *entry, 1int, 0int,
{
    let key = match &entry.0 {
        YamlValue::Str(k) => k.clone(),
        _ => {
            return Err(ConversionError::InvalidKeyFormat);
        },
    };
    match convert_value(&entry.1) {
        Ok(v) => Ok((key, v)),
        Err(e) => Err(e),
    }
}

/// Convert a whole YAML mapping into parameters: the entries are folded in
/// order, a non-string key or a failing value failing the whole mapping
/// with its first error.
pub fn convert_params(m: &Vec<(YamlValue, YamlValue)>) -> (r: Result<Params, ConversionError>)
    ensures
        match r {
            Ok(ps) => mapping_ok(*m, m@.len() as int, ps@),
            Err(e) => mapping_err(*m, e),
        },
    decreases *m, 3int, 0int,
{
    let n = m.len();
    let mut params = Params::new();
    let mut i: usize = 0;
    while i < n
        invariant
            0 <= i <= n,
            n == m@.len(),
            mapping_ok(*m, i as int, params@),
            forall|k: int| 0 <= k < i ==> entry_succeeds(#[trigger] m@[k]),
        decreases n - i,
    {
        let ghost pre = params@;
        match convert_entry(&m[i]) {
            Ok(kv) => {
                let (key, value) = kv;
                let ghost kg = key;
                let ghost xg = value;
                proof {
                    assert(entry_ok(m@[i as int], kg, xg));
                    assert(entry_succeeds(m@[i as int])) by {
                        assert(value_ok(m@[i as int].1, xg));
                    }
                }
                params.insert(key, value);
                proof {
                    lemma_mapping_ok_step(*m, i + 1, pre, kg, xg);
                    assert(params@ == spec_params_insert(pre, kg, xg));
                }
            },
            Err(e) => {
                proof {
                    assert(entry_err(m@[i as int], e));
                }
                return Err(e);
            },
        }
        i += 1;
    }
    Ok(params)
}

/// Convert the elements of a YAML sequence, stopping at the first failure.
fn convert_list(arr: &Vec<YamlValue>) -> (r: Result<Vec<Value>, ConversionError>)
    ensures
        match r {
            Ok(out) => seq_ok(*arr, out@),
            Err(e) => seq_err(*arr, e),
        },
    decreases *arr, 1int, 0int,
{
    let n = arr.len();
    let mut out: Vec<Value> = Vec::new();
    let mut i: usize = 0;
    while i < n
        invariant
            0 <= i <= n,
            n == arr@.len(),
            out@.len() == i,
            forall|k: int| 0 <= k < i ==> value_ok(#[trigger] arr@[k], out@[k]),
        decreases n - i,
    {
        match convert_value(&arr[i]) {
            Ok(v) => {
                out.push(v);
            },
            Err(e) => {
                proof {
                    assert forall|k: int| 0 <= k < i implies value_succeeds(
                        #[trigger] arr@[k],
                    ) by {
                        assert(value_ok(arr@[k], out@[k]));
                    }
                }
                return Err(e);
            },
        }
        i += 1;
    }
    Ok(out)
}

/// Convert one YAML node into a parameter value.
pub fn convert_value(value: &YamlValue) -> (r: Result<Value, ConversionError>)
    ensures
        match r {
            Ok(out) => value_ok(*value, out),
            Err(e) => value_err(*value, e),
        },
    decreases *value, 0int, 0int,
{
    match value {
        YamlValue::Null => Ok(Value::Null),
        YamlValue::Bool(b) => Ok(Value::Bool(*b)),
        YamlValue::Number(n) => match n {
            YamlNumber::Int(i) => Ok(Value::Number(Number::Integer(*i))),
            YamlNumber::UInt(u) => if *u <= 9223372036854775807u64 {
                Ok(Value::Number(Number::Integer(*u as i64)))
            } else {
                Err(ConversionError::InvalidNumberFormat)
            },
            YamlNumber::Float(bits) => Ok(Value::Number(Number::Float(*bits))),
        },
        YamlValue::Str(s) => Ok(Value::Str(s.clone())),
        YamlValue::Sequence(arr) => match convert_list(arr) {
            Ok(out) => Ok(Value::Array(out)),
            Err(e) => Err(e),
        },
        YamlValue::Mapping(m) => match convert_params(m) {
            Ok(ps) => Ok(Value::Object(ps)),
            Err(e) => Err(e),
        },
        YamlValue::Tagged(t) => convert_value(&**t),
    }
}

} // verus!
