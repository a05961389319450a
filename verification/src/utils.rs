//! Schema inference and the helpers around it: value classification,
//! per-field option resolution against an override table, path joining,
//! and a random-name helper.

use vstd::prelude::*;

use rand::Rng;

use crate::error::IndexError;
use crate::error::SpecIndexError;
use crate::schema::Control;
use crate::schema::Controls;
use crate::schema::FieldKind;
use crate::schema::IntOptions;
use crate::schema::Schema;
use crate::schema::SchemaBuilder;
use crate::schema::SpecField;
use crate::schema::TextOptions;
use crate::schema::lookup_control;
use crate::schema::lookup_field;
use crate::value::SpecValue;
use crate::value::Value;

verus! {

/// The fixed variant-to-kind table of schema inference. `None` marks the
/// variants with no field-kind mapping (`Null` and nested mappings).
pub open spec fn classify(v: SpecValue) -> Option<FieldKind> {
    match v {
        SpecValue::Text(_) => Some(FieldKind::Text),
        SpecValue::Bool(_) => Some(FieldKind::Text),
        SpecValue::U8(_) => Some(FieldKind::U64),
        SpecValue::U16(_) => Some(FieldKind::U64),
        SpecValue::U32(_) => Some(FieldKind::U64),
        SpecValue::U64(_) => Some(FieldKind::U64),
        SpecValue::I8(_) => Some(FieldKind::I64),
        SpecValue::I16(_) => Some(FieldKind::I64),
        SpecValue::I32(_) => Some(FieldKind::I64),
        SpecValue::I64(_) => Some(FieldKind::I64),
        SpecValue::F32Bits(_) => Some(FieldKind::F64),
        SpecValue::F64Bits(_) => Some(FieldKind::F64),
        SpecValue::Sequence(_) => Some(FieldKind::Bytes),
        SpecValue::Null => None,
        SpecValue::Mapping(_) => None,
    }
}

/// Classifies one value by its variant alone.
pub fn classify_value(v: &Value) -> (r: Option<FieldKind>)
    ensures
        r == classify(v@),
{
    match v {
        Value::Text(_) => Some(FieldKind::Text),
        Value::Bool(_) => Some(FieldKind::Text),
        Value::U8(_) => Some(FieldKind::U64),
        Value::U16(_) => Some(FieldKind::U64),
        Value::U32(_) => Some(FieldKind::U64),
        Value::U64(_) => Some(FieldKind::U64),
        Value::I8(_) => Some(FieldKind::I64),
        Value::I16(_) => Some(FieldKind::I64),
        Value::I32(_) => Some(FieldKind::I64),
        Value::I64(_) => Some(FieldKind::I64),
        Value::F32Bits(_) => Some(FieldKind::F64),
        Value::F64Bits(_) => Some(FieldKind::F64),
        Value::Sequence(_) => Some(FieldKind::Bytes),
        Value::Null => None,
        Value::Mapping(_) => None,
    }
}

/// Override lookup across an optional table.
pub open spec fn spec_lookup(control: Option<&Controls>, key: Seq<char>) -> Option<Control> {
    match control {
        None => None,
        Some(c) => lookup_control(c.entries@, key),
    }
}

/// Text resolution: a matching text override verbatim, else the fixed
/// stored-and-indexed default (also when the override is numeric-tagged).
pub open spec fn spec_resolve_text(found: Option<Control>) -> TextOptions {
    match found {
        Some(Control::ControlTextOptions(o)) => o,
        _ => TextOptions { stored: true, indexed: true },
    }
}

/// Numeric resolution: a matching numeric override verbatim, else the
/// fixed stored-and-indexed default (also when the override is text-tagged).
pub open spec fn spec_resolve_number(found: Option<Control>) -> IntOptions {
    match found {
        Some(Control::ControlIntOptions(o)) => o,
        _ => IntOptions { stored: true, indexed: true },
    }
}

/// Store and index text by default.
pub fn resolve_text_option(key: &str, control: Option<&Controls>) -> (r: TextOptions)
    ensures
        r == spec_resolve_text(spec_lookup(control, key@)),
{
    let default = TextOptions::text().set_stored();
    match control {
        Some(c) => {
            match c.get(key) {
                None => default,
                Some(Control::ControlTextOptions(opt)) => opt,
                Some(_) => default,
            }
        },
        None => default,
    }
}

/// Store and index numbers by default.
pub fn resolve_number_option(key: &str, control: Option<&Controls>) -> (r: IntOptions)
    ensures
        r == spec_resolve_number(spec_lookup(control, key@)),
{
    let default = IntOptions::default().set_indexed().set_stored();
    match control {
        Some(c) => {
            match c.get(key) {
                None => default,
                Some(Control::ControlIntOptions(opt)) => opt,
                Some(_) => default,
            }
        },
        None => default,
    }
}

/// One inferred field: name, classified kind, and options resolved for
/// that kind. Bytes fields get no option resolution.
pub open spec fn spec_field_for(
    name: Seq<char>,
    kind: FieldKind,
    control: Option<&Controls>,
) -> SpecField {
    match kind {
        FieldKind::Text => {
            let o = spec_resolve_text(spec_lookup(control, name));
            SpecField { name, kind, stored: o.stored, indexed: o.indexed }
        },
        FieldKind::Bytes => SpecField { name, kind, stored: false, indexed: false },
        _ => {
            let o = spec_resolve_number(spec_lookup(control, name));
            SpecField { name, kind, stored: o.stored, indexed: o.indexed }
        },
    }
}

/// A mapping entry that inference accepts: a text key whose value has a
/// field-kind mapping.
pub open spec fn entry_ok(e: (SpecValue, SpecValue)) -> bool {
    e.0 is Text && classify(e.1) is Some
}

/// The failure inference reports for a rejected entry.
pub open spec fn entry_err(e: (SpecValue, SpecValue)) -> SpecIndexError {
    if !(e.0 is Text) {
        SpecIndexError::NonStringKey
    } else {
        SpecIndexError::UnhandledValueKind
    }
}

/// The field inferred from an accepted entry.
pub open spec fn entry_field(
    e: (SpecValue, SpecValue),
    control: Option<&Controls>,
) -> SpecField {
    spec_field_for(e.0->Text_0, classify(e.1)->Some_0, control)
}

/// Inference over the entries of a mapping: one field per entry in entry
/// order, or the failure of the first rejected entry.
pub open spec fn spec_infer(
    entries: Seq<(SpecValue, SpecValue)>,
    control: Option<&Controls>,
) -> Result<Seq<SpecField>, SpecIndexError>
    decreases entries.len(),
{
    if entries.len() == 0 {
        Ok(Seq::empty())
    } else if !entry_ok(entries[0]) {
        Err(entry_err(entries[0]))
    } else {
        match spec_infer(entries.drop_first(), control) {
            Ok(rest) => Ok(seq![entry_field(entries[0], control)] + rest),
            Err(e) => Err(e),
        }
    }
}

/// When every entry is accepted, inference yields exactly one field per
/// entry, in entry order.
pub proof fn lemma_infer_all_ok(entries: Seq<(SpecValue, SpecValue)>, control: Option<&Controls>)
    requires
        forall|j: int| 0 <= j < entries.len() ==> entry_ok(#[trigger] entries[j]),
    ensures
        spec_infer(entries, control) matches Ok(f) && f.len() == entries.len() && forall|j: int|
            0 <= j < entries.len() ==> f[j] == entry_field(#[trigger] entries[j], control),
    decreases entries.len(),
{
    if entries.len() > 0 {
        let rest = entries.drop_first();
        assert(forall|j: int| 0 <= j < rest.len() ==> entry_ok(#[trigger] rest[j]));
        lemma_infer_all_ok(rest, control);
        let f = spec_infer(entries, control)->Ok_0;
        let fr = spec_infer(rest, control)->Ok_0;
        assert(f == seq![entry_field(entries[0], control)] + fr);
        assert forall|j: int| 0 <= j < entries.len() implies f[j] == entry_field(
            #[trigger] entries[j],
            control,
        ) by {
            if j > 0 {
                assert(rest[j - 1] == entries[j]);
                assert(f[j] == fr[j - 1]);
            }
        }
    }
}

/// With distinct field names, lookup finds each field at its own place.
pub proof fn lemma_lookup_unique(fields: Seq<SpecField>, j: int)
    requires
        0 <= j < fields.len(),
        forall|a: int, b: int| 0 <= a < b < fields.len() ==> fields[a].name != fields[b].name,
    ensures
        lookup_field(fields, fields[j].name) == Some(fields[j]),
    decreases fields.len(),
{
    if j > 0 {
        let rest = fields.drop_first();
        assert(forall|a: int, b: int|
            0 <= a < b < rest.len() ==> #[trigger] rest[a].name != #[trigger] rest[b].name);
        lemma_lookup_unique(rest, j - 1);
        assert(rest[j - 1] == fields[j]);
    }
}

/// A schema inferred from the record itself declares, for every entry,
/// exactly the kind that classification assigns its value: with the
/// record's keys distinct, this is the round-trip premise.
pub proof fn lemma_inferred_schema_matches(
    entries: Seq<(SpecValue, SpecValue)>,
    control: Option<&Controls>,
)
    requires
        spec_infer(entries, control) is Ok,
        forall|a: int, b: int| 0 <= a < b < entries.len() ==> entries[a].0 != entries[b].0,
    ensures
        forall|j: int|
            0 <= j < entries.len() ==> (lookup_field(
                spec_infer(entries, control)->Ok_0,
                (#[trigger] entries[j]).0->Text_0,
            ) matches Some(f) && f.kind == classify(entries[j].1)->Some_0),
{
    lemma_infer_ok_entries(entries, control);
    lemma_infer_all_ok(entries, control);
    let fields = spec_infer(entries, control)->Ok_0;
    assert forall|a: int, b: int| 0 <= a < b < fields.len() implies #[trigger] fields[a].name
        != #[trigger] fields[b].name by {
        assert(fields[a] == entry_field(entries[a], control));
        assert(fields[b] == entry_field(entries[b], control));
        assert(fields[a].name == entries[a].0->Text_0);
        assert(fields[b].name == entries[b].0->Text_0);
        assert(entries[a].0 is Text && entries[b].0 is Text);
        assert(entries[a].0 != entries[b].0);
    }
    assert forall|j: int| 0 <= j < entries.len() implies (lookup_field(
        fields,
        (#[trigger] entries[j]).0->Text_0,
    ) matches Some(f) && f.kind == classify(entries[j].1)->Some_0) by {
        lemma_lookup_unique(fields, j);
        assert(fields[j] == entry_field(entries[j], control));
        assert(fields[j].name == entries[j].0->Text_0);
    }
}

/// A successful inference accepted every entry of the mapping.
pub proof fn lemma_infer_ok_entries(
    entries: Seq<(SpecValue, SpecValue)>,
    control: Option<&Controls>,
)
    requires
        spec_infer(entries, control) is Ok,
    ensures
        forall|j: int| 0 <= j < entries.len() ==> entry_ok(#[trigger] entries[j]),
    decreases entries.len(),
{
    if entries.len() > 0 {
        lemma_infer_ok_entries(entries.drop_first(), control);
        assert forall|j: int| 0 <= j < entries.len() implies entry_ok(#[trigger] entries[j]) by {
            if j >= 1 {
                assert(entries.drop_first()[j - 1] == entries[j]);
                assert(entry_ok(entries.drop_first()[j - 1]));
            }
        }
    }
}

/// When entry `i` is rejected and every earlier entry is accepted,
/// inference reports exactly that entry's failure.
pub proof fn lemma_infer_first_bad(
    entries: Seq<(SpecValue, SpecValue)>,
    control: Option<&Controls>,
    i: int,
)
    requires
        0 <= i < entries.len(),
        !entry_ok(entries[i]),
        forall|j: int| 0 <= j < i ==> entry_ok(#[trigger] entries[j]),
    ensures
        spec_infer(entries, control) == Err::<Seq<SpecField>, SpecIndexError>(
            entry_err(entries[i]),
        ),
    decreases i,
{
    if i > 0 {
        assert(entries.drop_first()[i - 1] == entries[i]);
        assert(forall|j: int|
            0 <= j < i - 1 ==> #[trigger] entries.drop_first()[j] == entries[j + 1]);
        lemma_infer_first_bad(entries.drop_first(), control, i - 1);
    }
}

/// Maps a flat mapping-shaped value to a schema builder, one field per
/// key in entry order, or the first failure in entry order.
#[verifier::rlimit(30)]
pub fn as_schema_builder(data: &Value, control: Option<&Controls>) -> (r: Result<
    SchemaBuilder,
    IndexError,
>)
    ensures
        match data@ {
            SpecValue::Mapping(entries) => match spec_infer(entries, control) {
                Ok(flds) => r matches Ok(b) && b@ == flds,
                Err(se) => r matches Err(e) && e@ == se,
            },
            _ => r matches Err(e) && e@ == SpecIndexError::InvalidRepresentation,
        },
{
    match data {
        Value::Mapping(entries) => {
            let ghost sv = data@->Mapping_0;
            proof {
                crate::value::lemma_pairs_of(entries@);
            }
            let mut builder = Schema::builder();
            let n = entries.len();
            let mut i: usize = 0;
            while i < n
                invariant
                    0 <= i <= n,
                    n == entries@.len(),
                    data@ == SpecValue::Mapping(sv),
                    sv.len() == n,
                    forall|j: int| 0 <= j < n ==> sv[j] == (entries@[j].0@, entries@[j].1@),
                    forall|j: int| 0 <= j < i ==> entry_ok(#[trigger] sv[j]),
                    builder@.len() == i,
                    forall|j: int|
                        0 <= j < i ==> builder@[j] == entry_field(#[trigger] sv[j], control),
                decreases n - i,
            {
                match &entries[i].0 {
                    Value::Text(name) => {
                        match classify_value(&entries[i].1) {
                            Some(kind) => {
                                match kind {
                                    FieldKind::Text => {
                                        let options = resolve_text_option(name.as_str(), control);
                                        builder.add_text_field(name.as_str(), options);
                                    },
                                    FieldKind::U64 => {
                                        let options = resolve_number_option(name.as_str(), control);
                                        builder.add_u64_field(name.as_str(), options);
                                    },
                                    FieldKind::I64 => {
                                        let options = resolve_number_option(name.as_str(), control);
                                        builder.add_i64_field(name.as_str(), options);
                                    },
                                    FieldKind::F64 => {
                                        let options = resolve_number_option(name.as_str(), control);
                                        builder.add_f64_field(name.as_str(), options);
                                    },
                                    FieldKind::Bytes => {
                                        builder.add_bytes_field(name.as_str());
                                    },
                                }
                            },
                            None => {
                                proof {
                                    lemma_infer_first_bad(sv, control, i as int);
                                }
                                return Err(IndexError::UnhandledValueKind);
                            },
                        }
                    },
                    _ => {
                        proof {
                            lemma_infer_first_bad(sv, control, i as int);
                        }
                        return Err(IndexError::NonStringKey);
                    },
                }
                i += 1;
            }
            proof {
                lemma_infer_all_ok(sv, control);
                let f = spec_infer(sv, control)->Ok_0;
                assert forall|j: int| 0 <= j < n implies builder@[j] == f[j] by {
                    assert(builder@[j] == entry_field(sv[j], control));
                    assert(f[j] == entry_field(sv[j], control));
                }
                assert(builder@ =~= f);
            }
            Ok(builder)
        },
        _ => Err(IndexError::InvalidRepresentation),
    }
}

/// Convenience wrapper: inference straight to a frozen `Schema`.
pub fn to_schema(data: &Value, control: Option<&Controls>) -> (r: Result<Schema, IndexError>)
    ensures
        match data@ {
            SpecValue::Mapping(entries) => match spec_infer(entries, control) {
                Ok(flds) => r matches Ok(s) && s@ == flds,
                Err(se) => r matches Err(e) && e@ == se,
            },
            _ => r matches Err(e) && e@ == SpecIndexError::InvalidRepresentation,
        },
{
    match as_schema_builder(data, control) {
        Ok(builder) => Ok(builder.build()),
        Err(e) => Err(e),
    }
}

/// The text keys of a mapping, in entry order; non-text keys are skipped.
pub open spec fn spec_field_names(entries: Seq<(SpecValue, SpecValue)>) -> Seq<Seq<char>>
    decreases entries.len(),
{
    if entries.len() == 0 {
        Seq::empty()
    } else {
        let rest = spec_field_names(entries.drop_first());
        match entries[0].0 {
            SpecValue::Text(name) => seq![name] + rest,
            _ => rest,
        }
    }
}

/// All field names of a mapping-shaped value; `None` for any other shape.
pub fn field_names(data: &Value) -> (r: Option<Vec<String>>)
    ensures
        match data@ {
            SpecValue::Mapping(entries) => r matches Some(names) && names.deep_view()
                == spec_field_names(entries),
            _ => r is None,
        },
{
    match data {
        Value::Mapping(entries) => {
            let ghost sv = data@->Mapping_0;
            let mut fields: Vec<String> = Vec::new();
            let n = entries.len();
            let mut i: usize = 0;
            proof {
                crate::value::lemma_pairs_of(entries@);
                assert(sv.skip(0) =~= sv);
                assert(fields.deep_view() =~= Seq::<Seq<char>>::empty());
            }
            while i < n
                invariant
                    0 <= i <= n,
                    n == entries@.len(),
                    data@ == SpecValue::Mapping(sv),
                    sv.len() == n,
                    forall|j: int| 0 <= j < n ==> sv[j] == (entries@[j].0@, entries@[j].1@),
                    spec_field_names(sv) == fields.deep_view() + spec_field_names(
                        sv.skip(i as int),
                    ),
                decreases n - i,
            {
                proof {
                    assert(sv.skip(i as int)[0] == sv[i as int]);
                    assert(sv.skip(i as int).drop_first() =~= sv.skip(i as int + 1));
                }
                let ghost prev = fields.deep_view();
                match &entries[i].0 {
                    Value::Text(name) => {
                        fields.push(name.clone());
                        proof {
                            assert(fields.deep_view() =~= prev.push(name@));
                            assert(prev + spec_field_names(sv.skip(i as int)) =~= fields.deep_view()
                                + spec_field_names(sv.skip(i as int + 1)));
                        }
                    },
                    _ => {},
                }
                i += 1;
            }
            proof {
                assert(spec_field_names(sv.skip(n as int)) =~= Seq::<Seq<char>>::empty());
                assert(fields.deep_view() + Seq::<Seq<char>>::empty() =~= fields.deep_view());
            }
            Some(fields)
        },
        _ => None,
    }
}

/// `prefix` is an initial segment of `s`.
pub open spec fn spec_starts_with(s: Seq<char>, prefix: Seq<char>) -> bool {
    prefix.len() <= s.len() && s.subrange(0, prefix.len() as int) == prefix
}

/// Character-wise prefix test.
pub fn str_starts_with(s: &str, prefix: &str) -> (r: bool)
    ensures
        r == spec_starts_with(s@, prefix@),
{
    let plen = prefix.unicode_len();
    let slen = s.unicode_len();
    if plen > slen {
        return false;
    }
    let mut i: usize = 0;
    while i < plen
        invariant
            0 <= i <= plen,
            plen == prefix@.len(),
            slen == s@.len(),
            plen <= slen,
            forall|j: int| 0 <= j < i ==> s@[j] == prefix@[j],
        decreases plen - i,
    {
        if s.get_char(i) != prefix.get_char(i) {
            proof {
                assert(s@.subrange(0, plen as int)[i as int] == s@[i as int]);
            }
            return false;
        }
        i += 1;
    }
    proof {
        assert(s@.subrange(0, plen as int) =~= prefix@);
    }
    true
}

/// How two path pieces combine: an absolute tail stands alone, an empty
/// head contributes nothing, and otherwise exactly one separator stands
/// between head and tail.
pub open spec fn joined_path(head: Seq<char>, tail: Seq<char>) -> Seq<char> {
    if tail.len() > 0 && tail[0] == '/' {
        tail
    } else if head.len() == 0 {
        tail
    } else if head[head.len() - 1] == '/' {
        head + tail
    } else {
        head + seq!['/'] + tail
    }
}

/// Joins a directory and a name into one path.
pub fn join(head: &str, tail: &str) -> (r: Option<String>)
    ensures
        r matches Some(p) && p@ == joined_path(head@, tail@),
{
    let hlen = head.unicode_len();
    let tlen = tail.unicode_len();
    if tlen > 0 && tail.get_char(0) == '/' {
        Some(tail.to_owned())
    } else if hlen == 0 {
        Some(tail.to_owned())
    } else if head.get_char(hlen - 1) == '/' {
        let mut path = head.to_owned();
        path.append(tail);
        Some(path)
    } else {
        let mut path = head.to_owned();
        path.append("/");
        path.append(tail);
        proof {
            reveal_strlit("/");
            assert("/"@ =~= seq!['/']);
        }
        Some(path)
    }
}

/// Relies on rand's `Alphanumeric` distribution: sampling yields one
/// alphanumeric ASCII byte per draw, so taking `len` draws and mapping
/// each to its character collects a string of exactly `len` characters.
#[verifier::external_body]
fn random_chars(len: usize) -> (r: String)
    ensures
        r@.len() == len,
{
    rand::thread_rng()
        .sample_iter(&rand::distributions::Alphanumeric)
        .take(len)
        .map(char::from)
        .collect::<String>()
}

/// A fresh alphanumeric name of the requested size, ten characters when
/// no size is given.
pub fn random_string(size: Option<usize>) -> (r: String)
    ensures
        r@.len() == (match size {
            Some(n) => n as int,
            None => 10,
        }),
{
    let n: usize = if size.is_none() {
        10
    } else {
        size.unwrap()
    };
    random_chars(n)
}

} // verus!
