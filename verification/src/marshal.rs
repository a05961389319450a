//! Document marshalling: a mapping-shaped record becomes a single-valued
//! engine document against a schema, and a retrieved document becomes an
//! ordered, typed mapping again. Both directions carry exact contracts,
//! and a proved round trip connects them.

use vstd::prelude::*;

use crate::error::IndexError;
use crate::error::SpecIndexError;
use crate::schema::FieldKind;
use crate::schema::Schema;
use crate::schema::SpecField;
use crate::schema::lookup_field;
use crate::value::SpecValue;
use crate::value::Value;

verus! {

/// One stored value of an engine document field. Floating payloads keep
/// their width tag: the engine's double storage preserves a
/// single-precision payload exactly, so nothing is lost either way.
#[derive(Debug, Clone, PartialEq)]
pub enum FieldValue {
    Text(String),
    U64(u64),
    I64(i64),
    F32Bits(u32),
    F64Bits(u64),
}

/// Mathematical image of a `FieldValue`.
pub enum SpecFieldValue {
    Text(Seq<char>),
    U64(u64),
    I64(i64),
    F32Bits(u32),
    F64Bits(u64),
}

impl View for FieldValue {
    type V = SpecFieldValue;

    open spec fn view(&self) -> SpecFieldValue {
        match self {
            FieldValue::Text(s) => SpecFieldValue::Text(s@),
            FieldValue::U64(n) => SpecFieldValue::U64(*n),
            FieldValue::I64(n) => SpecFieldValue::I64(*n),
            FieldValue::F32Bits(b) => SpecFieldValue::F32Bits(*b),
            FieldValue::F64Bits(b) => SpecFieldValue::F64Bits(*b),
        }
    }
}

/// An engine-facing document: one value per named field, in the order
/// the record supplied them.
#[derive(Debug, Clone, PartialEq)]
pub struct Document {
    pub entries: Vec<(String, FieldValue)>,
}

/// Image of a document's entry list.
pub open spec fn doc_view(entries: Seq<(String, FieldValue)>) -> Seq<(Seq<char>, SpecFieldValue)> {
    Seq::new(
        entries.len(),
        |i: int|
            if 0 <= i < entries.len() {
                (entries[i].0@, entries[i].1@)
            } else {
                (Seq::empty(), SpecFieldValue::U64(0))
            },
    )
}

impl View for Document {
    type V = Seq<(Seq<char>, SpecFieldValue)>;

    open spec fn view(&self) -> Seq<(Seq<char>, SpecFieldValue)> {
        doc_view(self.entries@)
    }
}

/// How one record value is stored under a field kind, on the textual
/// parse path: text fields take text only, integer fields widen any
/// integer whose value fits, double fields keep floating payloads as
/// they are, and bytes fields accept nothing.
pub open spec fn spec_marshal_value(kind: FieldKind, v: SpecValue) -> Option<SpecFieldValue> {
    match kind {
        FieldKind::Text => match v {
            SpecValue::Text(s) => Some(SpecFieldValue::Text(s)),
            _ => None,
        },
        FieldKind::U64 => match v {
            SpecValue::U8(n) => Some(SpecFieldValue::U64(n as u64)),
            SpecValue::U16(n) => Some(SpecFieldValue::U64(n as u64)),
            SpecValue::U32(n) => Some(SpecFieldValue::U64(n as u64)),
            SpecValue::U64(n) => Some(SpecFieldValue::U64(n)),
            SpecValue::I8(n) => if n >= 0 {
                Some(SpecFieldValue::U64(n as u64))
            } else {
                None
            },
            SpecValue::I16(n) => if n >= 0 {
                Some(SpecFieldValue::U64(n as u64))
            } else {
                None
            },
            SpecValue::I32(n) => if n >= 0 {
                Some(SpecFieldValue::U64(n as u64))
            } else {
                None
            },
            SpecValue::I64(n) => if n >= 0 {
                Some(SpecFieldValue::U64(n as u64))
            } else {
                None
            },
            _ => None,
        },
        FieldKind::I64 => match v {
            SpecValue::U8(n) => Some(SpecFieldValue::I64(n as i64)),
            SpecValue::U16(n) => Some(SpecFieldValue::I64(n as i64)),
            SpecValue::U32(n) => Some(SpecFieldValue::I64(n as i64)),
            SpecValue::U64(n) => if n <= i64::MAX as u64 {
                Some(SpecFieldValue::I64(n as i64))
            } else {
                None
            },
            SpecValue::I8(n) => Some(SpecFieldValue::I64(n as i64)),
            SpecValue::I16(n) => Some(SpecFieldValue::I64(n as i64)),
            SpecValue::I32(n) => Some(SpecFieldValue::I64(n as i64)),
            SpecValue::I64(n) => Some(SpecFieldValue::I64(n)),
            _ => None,
        },
        FieldKind::F64 => match v {
            SpecValue::F32Bits(b) => Some(SpecFieldValue::F32Bits(b)),
            SpecValue::F64Bits(b) => Some(SpecFieldValue::F64Bits(b)),
            _ => None,
        },
        FieldKind::Bytes => None,
    }
}

/// The document already holds a value under `key`.
pub open spec fn doc_has_key(doc: Seq<(Seq<char>, SpecFieldValue)>, key: Seq<char>) -> bool {
    exists|k: int| 0 <= k < doc.len() && (#[trigger] doc[k]).0 == key
}

/// Marshalling one record entry against the document built so far.
pub open spec fn spec_marshal_entry(
    e: (SpecValue, SpecValue),
    fields: Seq<SpecField>,
    doc: Seq<(Seq<char>, SpecFieldValue)>,
) -> Result<Seq<(Seq<char>, SpecFieldValue)>, SpecIndexError> {
    if !(e.0 is Text) {
        Err(SpecIndexError::DocParseNonStringKey)
    } else {
        let key = e.0->Text_0;
        if doc_has_key(doc, key) {
            Err(SpecIndexError::DocParseDuplicateField { field: key })
        } else {
            match lookup_field(fields, key) {
                None => Err(SpecIndexError::DocParseUnknownField { field: key }),
                Some(f) => match spec_marshal_value(f.kind, e.1) {
                    None => Err(SpecIndexError::DocParseKindMismatch { field: key }),
                    Some(fv) => Ok(doc.push((key, fv))),
                },
            }
        }
    }
}

/// Marshalling a whole record: entry by entry in record order, stopping
/// at the first rejected entry. A successful document holds exactly one
/// value per supplied key.
pub open spec fn spec_marshal(
    entries: Seq<(SpecValue, SpecValue)>,
    fields: Seq<SpecField>,
) -> Result<Seq<(Seq<char>, SpecFieldValue)>, SpecIndexError>
    decreases entries.len(),
{
    if entries.len() == 0 {
        Ok(Seq::empty())
    } else {
        match spec_marshal(entries.drop_last(), fields) {
            Err(e) => Err(e),
            Ok(doc) => spec_marshal_entry(entries.last(), fields, doc),
        }
    }
}

/// Once a prefix of the record is rejected, the whole record is rejected
/// with that same failure.
pub proof fn lemma_marshal_prefix_err(
    entries: Seq<(SpecValue, SpecValue)>,
    fields: Seq<SpecField>,
    n: int,
)
    requires
        0 <= n <= entries.len(),
        spec_marshal(entries.take(n), fields) is Err,
    ensures
        spec_marshal(entries, fields) == spec_marshal(entries.take(n), fields),
    decreases entries.len(),
{
    if n == entries.len() {
        assert(entries.take(n) =~= entries);
    } else {
        assert(entries.drop_last().take(n) =~= entries.take(n));
        lemma_marshal_prefix_err(entries.drop_last(), fields, n);
    }
}

/// Marshals one value under a field kind.
pub fn marshal_field_value(kind: FieldKind, v: &Value) -> (r: Option<FieldValue>)
    ensures
        match r {
            Some(fv) => spec_marshal_value(kind, v@) == Some(fv@),
            None => spec_marshal_value(kind, v@) is None,
        },
{
    match kind {
        FieldKind::Text => match v {
            Value::Text(s) => Some(FieldValue::Text(s.clone())),
            _ => None,
        },
        FieldKind::U64 => match v {
            Value::U8(n) => Some(FieldValue::U64(*n as u64)),
            Value::U16(n) => Some(FieldValue::U64(*n as u64)),
            Value::U32(n) => Some(FieldValue::U64(*n as u64)),
            Value::U64(n) => Some(FieldValue::U64(*n)),
            Value::I8(n) => if *n >= 0 {
                Some(FieldValue::U64(*n as u64))
            } else {
                None
            },
            Value::I16(n) => if *n >= 0 {
                Some(FieldValue::U64(*n as u64))
            } else {
                None
            },
            Value::I32(n) => if *n >= 0 {
                Some(FieldValue::U64(*n as u64))
            } else {
                None
            },
            Value::I64(n) => if *n >= 0 {
                Some(FieldValue::U64(*n as u64))
            } else {
                None
            },
            _ => None,
        },
        FieldKind::I64 => match v {
            Value::U8(n) => Some(FieldValue::I64(*n as i64)),
            Value::U16(n) => Some(FieldValue::I64(*n as i64)),
            Value::U32(n) => Some(FieldValue::I64(*n as i64)),
            Value::U64(n) => if *n <= i64::MAX as u64 {
                Some(FieldValue::I64(*n as i64))
            } else {
                None
            },
            Value::I8(n) => Some(FieldValue::I64(*n as i64)),
            Value::I16(n) => Some(FieldValue::I64(*n as i64)),
            Value::I32(n) => Some(FieldValue::I64(*n as i64)),
            Value::I64(n) => Some(FieldValue::I64(*n)),
            _ => None,
        },
        FieldKind::F64 => match v {
            Value::F32Bits(b) => Some(FieldValue::F32Bits(*b)),
            Value::F64Bits(b) => Some(FieldValue::F64Bits(*b)),
            _ => None,
        },
        FieldKind::Bytes => None,
    }
}

/// Turns a mapping-shaped record into an engine document against a
/// schema, or reports the first incompatible entry.
#[verifier::rlimit(30)]
pub fn marshal_document(schema: &Schema, data: &Value) -> (r: Result<Document, IndexError>)
    ensures
        match data@ {
            SpecValue::Mapping(entries) => match spec_marshal(entries, schema@) {
                Ok(doc) => r matches Ok(d) && d@ == doc,
                Err(se) => r matches Err(e) && e@ == se,
            },
            _ => r matches Err(e) && e@ == SpecIndexError::DocParseNotRecord,
        },
{
    match data {
        Value::Mapping(entries) => {
            let ghost sv = data@->Mapping_0;
            proof {
                crate::value::lemma_pairs_of(entries@);
                assert(sv.take(0) =~= Seq::<(SpecValue, SpecValue)>::empty());
            }
            let mut out: Vec<(String, FieldValue)> = Vec::new();
            proof {
                assert(doc_view(out@) =~= Seq::<(Seq<char>, SpecFieldValue)>::empty());
            }
            let n = entries.len();
            let mut i: usize = 0;
            while i < n
                invariant
                    0 <= i <= n,
                    n == entries@.len(),
                    data@ == SpecValue::Mapping(sv),
                    sv.len() == n,
                    forall|j: int| 0 <= j < n ==> sv[j] == (entries@[j].0@, entries@[j].1@),
                    spec_marshal(sv.take(i as int), schema@) == Ok::<_, SpecIndexError>(
                        doc_view(out@),
                    ),
                decreases n - i,
            {
                proof {
                    assert(sv.take(i as int + 1).drop_last() =~= sv.take(i as int));
                    assert(sv.take(i as int + 1).last() == sv[i as int]);
                }
                let ghost doc_so_far = doc_view(out@);
                match &entries[i].0 {
                    Value::Text(name) => {
                        // reject a key that the record already supplied
                        let mut dup = false;
                        let m = out.len();
                        let mut k: usize = 0;
                        while k < m
                            invariant
                                0 <= k <= m,
                                m == out@.len(),
                                dup ==> doc_has_key(doc_view(out@), name@),
                                !dup ==> forall|t: int|
                                    0 <= t < k ==> (#[trigger] doc_view(out@)[t]).0 != name@,
                            decreases m - k,
                        {
                            if out[k].0 == *name {
                                proof {
                                    assert((doc_view(out@)[k as int]).0 == name@);
                                }
                                dup = true;
                            }
                            k += 1;
                        }
                        if dup {
                            proof {
                                lemma_marshal_prefix_err(sv, schema@, i as int + 1);
                            }
                            return Err(IndexError::DocParseDuplicateField { field: name.clone() });
                        }
                        proof {
                            assert(!doc_has_key(doc_so_far, name@));
                        }
                        match schema.get_field(name.as_str()) {
                            None => {
                                proof {
                                    lemma_marshal_prefix_err(sv, schema@, i as int + 1);
                                }
                                return Err(IndexError::DocParseUnknownField { field: name.clone() });
                            },
                            Some(field) => {
                                let kind = field.kind;
                                match marshal_field_value(kind, &entries[i].1) {
                                    None => {
                                        proof {
                                            lemma_marshal_prefix_err(sv, schema@, i as int + 1);
                                        }
                                        return Err(IndexError::DocParseKindMismatch {
                                            field: name.clone(),
                                        });
                                    },
                                    Some(fv) => {
                                        out.push((name.clone(), fv));
                                        proof {
                                            assert(doc_view(out@) =~= doc_so_far.push(
                                                (name@, fv@),
                                            ));
                                        }
                                    },
                                }
                            },
                        }
                    },
                    _ => {
                        proof {
                            lemma_marshal_prefix_err(sv, schema@, i as int + 1);
                        }
                        return Err(IndexError::DocParseNonStringKey);
                    },
                }
                i += 1;
            }
            proof {
                assert(sv.take(n as int) =~= sv);
            }
            Ok(Document { entries: out })
        },
        _ => Err(IndexError::DocParseNotRecord),
    }
}

/// The caller-visible value of one stored field value.
pub open spec fn field_to_value(fv: SpecFieldValue) -> SpecValue {
    match fv {
        SpecFieldValue::Text(s) => SpecValue::Text(s),
        SpecFieldValue::U64(n) => SpecValue::U64(n),
        SpecFieldValue::I64(n) => SpecValue::I64(n),
        SpecFieldValue::F32Bits(b) => SpecValue::F32Bits(b),
        SpecFieldValue::F64Bits(b) => SpecValue::F64Bits(b),
    }
}

/// Reconstruction of a retrieved document: each field's first stored
/// value, in the order the engine hands fields back; a field with no
/// stored value fails, naming the field and the collection.
pub open spec fn spec_reconstruct(
    collection: Seq<char>,
    fields: Seq<(String, Vec<FieldValue>)>,
) -> Result<Seq<(SpecValue, SpecValue)>, SpecIndexError>
    decreases fields.len(),
{
    if fields.len() == 0 {
        Ok(Seq::empty())
    } else {
        match spec_reconstruct(collection, fields.drop_last()) {
            Err(e) => Err(e),
            Ok(done) => {
                let name = fields.last().0@;
                let values = fields.last().1@;
                if values.len() == 0 {
                    Err(SpecIndexError::MissingFieldValue { collection, field: name })
                } else {
                    Ok(done.push((SpecValue::Text(name), field_to_value(values[0]@))))
                }
            },
        }
    }
}

/// Once a prefix of the retrieved fields is rejected, the whole document
/// is rejected with that same failure.
pub proof fn lemma_reconstruct_prefix_err(
    collection: Seq<char>,
    fields: Seq<(String, Vec<FieldValue>)>,
    n: int,
)
    requires
        0 <= n <= fields.len(),
        spec_reconstruct(collection, fields.take(n)) is Err,
    ensures
        spec_reconstruct(collection, fields) == spec_reconstruct(collection, fields.take(n)),
    decreases fields.len(),
{
    if n == fields.len() {
        assert(fields.take(n) =~= fields);
    } else {
        assert(fields.drop_last().take(n) =~= fields.take(n));
        lemma_reconstruct_prefix_err(collection, fields.drop_last(), n);
    }
}

/// The caller-visible value of one stored field value, executable side.
pub fn field_value_to_value(fv: &FieldValue) -> (r: Value)
    ensures
        r@ == field_to_value(fv@),
{
    match fv {
        FieldValue::Text(s) => Value::Text(s.clone()),
        FieldValue::U64(n) => Value::U64(*n),
        FieldValue::I64(n) => Value::I64(*n),
        FieldValue::F32Bits(b) => Value::F32Bits(*b),
        FieldValue::F64Bits(b) => Value::F64Bits(*b),
    }
}

/// Rebuilds the ordered, typed mapping of a retrieved document, taking
/// each field's first stored value, or fails on the first field that
/// stored none.
pub fn reconstruct_document(collection: &str, fields: &Vec<(String, Vec<FieldValue>)>) -> (r:
    Result<Value, IndexError>)
    ensures
        match spec_reconstruct(collection@, fields@) {
            Ok(pairs) => r matches Ok(v) && v@ == SpecValue::Mapping(pairs),
            Err(se) => r matches Err(e) && e@ == se,
        },
{
    let mut out: Vec<(Value, Value)> = Vec::new();
    proof {
        crate::value::lemma_pairs_of(out@);
        assert(crate::value::spec_pairs_of(out@) =~= Seq::<(SpecValue, SpecValue)>::empty());
        assert(fields@.take(0) =~= Seq::<(String, Vec<FieldValue>)>::empty());
    }
    let n = fields.len();
    let mut i: usize = 0;
    while i < n
        invariant
            0 <= i <= n,
            n == fields@.len(),
            spec_reconstruct(collection@, fields@.take(i as int)) == Ok::<_, SpecIndexError>(
                crate::value::spec_pairs_of(out@),
            ),
        decreases n - i,
    {
        proof {
            assert(fields@.take(i as int + 1).drop_last() =~= fields@.take(i as int));
            assert(fields@.take(i as int + 1).last() == fields@[i as int]);
        }
        if fields[i].1.len() == 0 {
            proof {
                lemma_reconstruct_prefix_err(collection@, fields@, i as int + 1);
            }
            return Err(IndexError::MissingFieldValue {
                collection: collection.to_owned(),
                field: fields[i].0.clone(),
            });
        }
        let value = field_value_to_value(&fields[i].1[0]);
        let ghost prev = out@;
        out.push((Value::Text(fields[i].0.clone()), value));
        proof {
            crate::value::lemma_pairs_of(prev);
            crate::value::lemma_pairs_of(out@);
            assert(crate::value::spec_pairs_of(out@) =~= crate::value::spec_pairs_of(prev).push(
                (
                    SpecValue::Text(fields@[i as int].0@),
                    field_to_value(fields@[i as int].1@[0]@),
                ),
            ));
        }
        i += 1;
    }
    proof {
        assert(fields@.take(n as int) =~= fields@);
    }
    Ok(Value::Mapping(out))
}

/// The canonical form in which a scalar comes back from a round trip
/// through its own classified field kind: integers widen to the family
/// width, text and floating payloads come back unchanged.
pub open spec fn canon_value(v: SpecValue) -> SpecValue {
    match v {
        SpecValue::U8(n) => SpecValue::U64(n as u64),
        SpecValue::U16(n) => SpecValue::U64(n as u64),
        SpecValue::U32(n) => SpecValue::U64(n as u64),
        SpecValue::I8(n) => SpecValue::I64(n as i64),
        SpecValue::I16(n) => SpecValue::I64(n as i64),
        SpecValue::I32(n) => SpecValue::I64(n as i64),
        _ => v,
    }
}

/// A value stored under its own classified kind reads back as its
/// canonical form.
pub proof fn lemma_canon_marshal(v: SpecValue, kind: FieldKind)
    requires
        crate::utils::classify(v) == Some(kind),
        spec_marshal_value(kind, v) is Some,
    ensures
        field_to_value(spec_marshal_value(kind, v)->Some_0) == canon_value(v),
{
}

/// When marshalling succeeds, the document pairs each record key, in
/// record order, with its value stored under the looked-up field's kind.
pub open spec fn marshal_ok_entry(
    entries: Seq<(SpecValue, SpecValue)>,
    fields: Seq<SpecField>,
    j: int,
) -> bool {
    let doc = spec_marshal(entries, fields)->Ok_0;
    &&& entries[j].0 is Text
    &&& doc[j].0 == entries[j].0->Text_0
    &&& lookup_field(fields, entries[j].0->Text_0) matches Some(f) && spec_marshal_value(
        f.kind,
        entries[j].1,
    ) == Some(doc[j].1)
}

pub proof fn lemma_marshal_ok_pointwise(
    entries: Seq<(SpecValue, SpecValue)>,
    fields: Seq<SpecField>,
)
    requires
        spec_marshal(entries, fields) is Ok,
    ensures
        spec_marshal(entries, fields)->Ok_0.len() == entries.len(),
        forall|j: int| 0 <= j < entries.len() ==> #[trigger] marshal_ok_entry(entries, fields, j),
    decreases entries.len(),
{
    if entries.len() > 0 {
        let prefix = entries.drop_last();
        lemma_marshal_ok_pointwise(prefix, fields);
        let doc = spec_marshal(entries, fields)->Ok_0;
        let doc_pre = spec_marshal(prefix, fields)->Ok_0;
        assert forall|j: int| 0 <= j < entries.len() implies #[trigger] marshal_ok_entry(
            entries,
            fields,
            j,
        ) by {
            if j < entries.len() - 1 {
                assert(marshal_ok_entry(prefix, fields, j));
                assert(prefix[j] == entries[j]);
                assert(doc[j] == doc_pre[j]);
            } else {
                assert(doc[j] == doc.last());
            }
        }
    }
}

/// When every retrieved field stored at least one value, reconstruction
/// yields, in order, each field's name with its first stored value.
pub proof fn lemma_reconstruct_all_present(
    collection: Seq<char>,
    fields: Seq<(String, Vec<FieldValue>)>,
)
    requires
        forall|j: int| 0 <= j < fields.len() ==> (#[trigger] fields[j]).1@.len() >= 1,
    ensures
        spec_reconstruct(collection, fields) matches Ok(pairs) && pairs.len() == fields.len()
            && forall|j: int|
            0 <= j < fields.len() ==> #[trigger] pairs[j] == (
                SpecValue::Text(fields[j].0@),
                field_to_value(fields[j].1@[0]@),
            ),
    decreases fields.len(),
{
    if fields.len() > 0 {
        let prefix = fields.drop_last();
        assert(forall|j: int| 0 <= j < prefix.len() ==> (#[trigger] prefix[j]).1@.len() >= 1);
        lemma_reconstruct_all_present(collection, prefix);
        let pairs = spec_reconstruct(collection, fields)->Ok_0;
        let pairs_pre = spec_reconstruct(collection, prefix)->Ok_0;
        assert forall|j: int| 0 <= j < fields.len() implies #[trigger] pairs[j] == (
            SpecValue::Text(fields[j].0@),
            field_to_value(fields[j].1@[0]@),
        ) by {
            if j < fields.len() - 1 {
                assert(prefix[j] == fields[j]);
                assert(pairs[j] == pairs_pre[j]);
            }
        }
    }
}

/// ROUND TRIP. A record whose structured shape matches the schema — every
/// value is stored under the kind that classification assigns it — and
/// which marshals successfully, reads back as itself: when the engine
/// returns the document with exactly the one stored value per field that
/// was written, reconstruction yields the record's own keys, in record
/// order, each mapped to the canonical form of the value it wrote. The
/// premise on the kinds is exactly what schema inference from a
/// same-shaped representative value establishes.
pub proof fn lemma_insert_read_round_trip(
    entries: Seq<(SpecValue, SpecValue)>,
    fields: Seq<SpecField>,
    retrieved: Seq<(String, Vec<FieldValue>)>,
    collection: Seq<char>,
)
    requires
        spec_marshal(entries, fields) is Ok,
        forall|j: int|
            0 <= j < entries.len() ==> crate::utils::classify(#[trigger] entries[j].1) == Some(
                lookup_field(fields, entries[j].0->Text_0)->Some_0.kind,
            ),
        retrieved.len() == entries.len(),
        forall|j: int|
            0 <= j < retrieved.len() ==> {
                let doc = spec_marshal(entries, fields)->Ok_0;
                &&& (#[trigger] retrieved[j]).0@ == doc[j].0
                &&& retrieved[j].1@.len() == 1
                &&& retrieved[j].1@[0]@ == doc[j].1
            },
    ensures
        spec_reconstruct(collection, retrieved) matches Ok(pairs) && pairs.len() == entries.len()
            && forall|j: int|
            0 <= j < entries.len() ==> #[trigger] pairs[j] == (
                entries[j].0,
                canon_value(entries[j].1),
            ),
{
    lemma_marshal_ok_pointwise(entries, fields);
    lemma_reconstruct_all_present(collection, retrieved);
    let doc = spec_marshal(entries, fields)->Ok_0;
    let pairs = spec_reconstruct(collection, retrieved)->Ok_0;
    assert forall|j: int| 0 <= j < entries.len() implies #[trigger] pairs[j] == (
        entries[j].0,
        canon_value(entries[j].1),
    ) by {
        assert(marshal_ok_entry(entries, fields, j));
        let kind = lookup_field(fields, entries[j].0->Text_0)->Some_0.kind;
        lemma_canon_marshal(entries[j].1, kind);
        assert(pairs[j] == (SpecValue::Text(retrieved[j].0@), field_to_value(retrieved[j].1@[0]@)));
    }
}

/// ROUND TRIP, from registration on. A collection whose schema was
/// inferred from the record's own shape (with distinct keys) accepts the
/// record whenever its values fit their classified kinds, and the
/// document it writes reads back as the record itself, key for key in
/// record order, each value in canonical form.
pub proof fn lemma_register_insert_read_round_trip(
    entries: Seq<(SpecValue, SpecValue)>,
    control: Option<&crate::schema::Controls>,
    retrieved: Seq<(String, Vec<FieldValue>)>,
    collection: Seq<char>,
)
    requires
        crate::utils::spec_infer(entries, control) is Ok,
        forall|a: int, b: int| 0 <= a < b < entries.len() ==> entries[a].0 != entries[b].0,
        spec_marshal(entries, crate::utils::spec_infer(entries, control)->Ok_0) is Ok,
        retrieved.len() == entries.len(),
        forall|j: int|
            0 <= j < retrieved.len() ==> {
                let doc = spec_marshal(
                    entries,
                    crate::utils::spec_infer(entries, control)->Ok_0,
                )->Ok_0;
                &&& (#[trigger] retrieved[j]).0@ == doc[j].0
                &&& retrieved[j].1@.len() == 1
                &&& retrieved[j].1@[0]@ == doc[j].1
            },
    ensures
        spec_reconstruct(collection, retrieved) matches Ok(pairs) && pairs.len() == entries.len()
            && forall|j: int|
            0 <= j < entries.len() ==> #[trigger] pairs[j] == (
                entries[j].0,
                canon_value(entries[j].1),
            ),
{
    let fields = crate::utils::spec_infer(entries, control)->Ok_0;
    crate::utils::lemma_inferred_schema_matches(entries, control);
    crate::utils::lemma_infer_ok_entries(entries, control);
    assert forall|j: int|
        0 <= j < entries.len() implies crate::utils::classify(#[trigger] entries[j].1) == Some(
        lookup_field(fields, entries[j].0->Text_0)->Some_0.kind,
    ) by {
        assert(crate::utils::entry_ok(entries[j]));
    }
    lemma_insert_read_round_trip(entries, fields, retrieved, collection);
}

} // verus!
