//! The untyped structured value model: the universal intermediate form
//! between caller data and schema/document construction. A caller record is
//! converted (outside this crate) into a `Value`; schema inference and
//! marshalling then work on the top level of a `Value::Mapping` and never
//! descend into nested sequences or mappings.

use vstd::prelude::*;

verus! {

/// A tagged structured value.
///
/// Floating-point payloads are carried as raw bit patterns so that the
/// value graph stays free of machine floats; nothing in this crate reads
/// them as numbers. Caller-side variants with no field-kind mapping
/// (unit, absent options, characters, and the like) are folded into `Null`.
#[derive(Debug, PartialEq)]
pub enum Value {
    /// Absent, unit, or any caller shape with no field-kind mapping.
    Null,
    Bool(bool),
    Text(String),
    U8(u8),
    U16(u16),
    U32(u32),
    U64(u64),
    I8(i8),
    I16(i16),
    I32(i32),
    I64(i64),
    /// A single-precision floating value, as its raw bits.
    F32Bits(u32),
    /// A double-precision floating value, as its raw bits.
    F64Bits(u64),
    Sequence(Vec<Value>),
    /// An ordered list of key/value pairs; schema inference accepts only
    /// mappings whose keys are all `Text`.
    Mapping(Vec<(Value, Value)>),
}

/// Mathematical image of a `Value`: vectors become sequences and strings
/// become character sequences.
pub enum SpecValue {
    Null,
    Bool(bool),
    Text(Seq<char>),
    U8(u8),
    U16(u16),
    U32(u32),
    U64(u64),
    I8(i8),
    I16(i16),
    I32(i32),
    I64(i64),
    F32Bits(u32),
    F64Bits(u64),
    Sequence(Seq<SpecValue>),
    Mapping(Seq<(SpecValue, SpecValue)>),
}

/// The image of one value.
pub open spec fn spec_value_of(v: Value) -> SpecValue
    decreases v,
{
    match v {
        Value::Null => SpecValue::Null,
        Value::Bool(b) => SpecValue::Bool(b),
        Value::Text(s) => SpecValue::Text(s@),
        Value::U8(n) => SpecValue::U8(n),
        Value::U16(n) => SpecValue::U16(n),
        Value::U32(n) => SpecValue::U32(n),
        Value::U64(n) => SpecValue::U64(n),
        Value::I8(n) => SpecValue::I8(n),
        Value::I16(n) => SpecValue::I16(n),
        Value::I32(n) => SpecValue::I32(n),
        Value::I64(n) => SpecValue::I64(n),
        Value::F32Bits(b) => SpecValue::F32Bits(b),
        Value::F64Bits(b) => SpecValue::F64Bits(b),
        Value::Sequence(items) => SpecValue::Sequence(spec_values_of(items@)),
        Value::Mapping(entries) => SpecValue::Mapping(spec_pairs_of(entries@)),
    }
}

/// The image of a sequence of values, element by element.
pub open spec fn spec_values_of(items: Seq<Value>) -> Seq<SpecValue>
    decreases items,
{
    if items.len() == 0 {
        Seq::empty()
    } else {
        seq![spec_value_of(items[0])] + spec_values_of(items.drop_first())
    }
}

/// The image of a sequence of key/value pairs, pair by pair.
pub open spec fn spec_pairs_of(entries: Seq<(Value, Value)>) -> Seq<(SpecValue, SpecValue)>
    decreases entries,
{
    if entries.len() == 0 {
        Seq::empty()
    } else {
        seq![(spec_value_of(entries[0].0), spec_value_of(entries[0].1))] + spec_pairs_of(
            entries.drop_first(),
        )
    }
}

/// `spec_pairs_of` maps pair by pair.
pub proof fn lemma_pairs_of(entries: Seq<(Value, Value)>)
    ensures
        spec_pairs_of(entries).len() == entries.len(),
        forall|i: int|
            0 <= i < entries.len() ==> #[trigger] spec_pairs_of(entries)[i] == (
                spec_value_of(entries[i].0),
                spec_value_of(entries[i].1),
            ),
    decreases entries.len(),
{
    if entries.len() > 0 {
        lemma_pairs_of(entries.drop_first());
    }
}

impl View for Value {
    type V = SpecValue;

    open spec fn view(&self) -> SpecValue {
        spec_value_of(*self)
    }
}

} // verus!
