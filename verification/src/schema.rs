//! Field kinds, per-field options, the override table, and the ordered
//! field schema of a collection. A schema is built once at registration
//! time and never mutated afterwards.

use vstd::prelude::*;

verus! {

/// The coarse type assigned to a schema field.
#[derive(Debug, Clone, Copy, PartialEq, Eq, Structural)]
pub enum FieldKind {
    Text,
    U64,
    I64,
    F64,
    Bytes,
}

/// Options of a text field: whether its value is retrievable (stored)
/// and whether it is searchable (indexed).
#[derive(Debug, Clone, Copy, PartialEq, Eq, Structural)]
pub struct TextOptions {
    pub stored: bool,
    pub indexed: bool,
}

impl TextOptions {
    /// An indexed, unstored text field: the engine's plain `TEXT` choice.
    pub fn text() -> (r: TextOptions)
        ensures
            r == (TextOptions { stored: false, indexed: true }),
    {
        TextOptions { stored: false, indexed: true }
    }

    pub fn is_stored(&self) -> (r: bool)
        ensures
            r == self.stored,
    {
        self.stored
    }

    pub fn is_indexed(&self) -> (r: bool)
        ensures
            r == self.indexed,
    {
        self.indexed
    }

    pub fn set_stored(self) -> (r: TextOptions)
        ensures
            r == (TextOptions { stored: true, ..self }),
    {
        TextOptions { stored: true, ..self }
    }

    pub fn set_indexed(self) -> (r: TextOptions)
        ensures
            r == (TextOptions { indexed: true, ..self }),
    {
        TextOptions { indexed: true, ..self }
    }
}

impl Default for TextOptions {
    /// Neither stored nor indexed.
    fn default() -> (r: TextOptions)
        ensures
            r == (TextOptions { stored: false, indexed: false }),
    {
        TextOptions { stored: false, indexed: false }
    }
}

/// Options of a numeric field, built up in the same stepwise way as the
/// engine's numeric options.
#[derive(Debug, Clone, Copy, PartialEq, Eq, Structural)]
pub struct IntOptions {
    pub stored: bool,
    pub indexed: bool,
}

impl IntOptions {
    pub fn is_stored(&self) -> (r: bool)
        ensures
            r == self.stored,
    {
        self.stored
    }

    pub fn is_indexed(&self) -> (r: bool)
        ensures
            r == self.indexed,
    {
        self.indexed
    }

    pub fn set_stored(self) -> (r: IntOptions)
        ensures
            r == (IntOptions { stored: true, ..self }),
    {
        IntOptions { stored: true, ..self }
    }

    pub fn set_indexed(self) -> (r: IntOptions)
        ensures
            r == (IntOptions { indexed: true, ..self }),
    {
        IntOptions { indexed: true, ..self }
    }
}

impl Default for IntOptions {
    /// Neither stored nor indexed.
    fn default() -> (r: IntOptions)
        ensures
            r == (IntOptions { stored: false, indexed: false }),
    {
        IntOptions { stored: false, indexed: false }
    }
}

/// A per-field option override, tagged with the kind family it applies to.
#[derive(Debug, Clone, Copy, PartialEq, Eq, Structural)]
pub enum Control {
    ControlTextOptions(TextOptions),
    ControlIntOptions(IntOptions),
}

/// An override table: field name to `Control`, looked up by first match.
#[derive(Debug, Clone, PartialEq)]
pub struct Controls {
    pub entries: Vec<(String, Control)>,
}

/// The `Control` the key resolves to: the latest entry under that key,
/// scanning back to front, as map replacement would leave it.
pub open spec fn lookup_control(entries: Seq<(String, Control)>, key: Seq<char>) -> Option<Control>
    decreases entries.len(),
{
    if entries.len() == 0 {
        None
    } else if entries.last().0@ == key {
        Some(entries.last().1)
    } else {
        lookup_control(entries.drop_last(), key)
    }
}

impl Controls {
    pub fn new() -> (r: Controls)
        ensures
            r.entries@.len() == 0,
    {
        Controls { entries: Vec::new() }
    }

    /// Registers an override; a later entry with the same key shadows
    /// the earlier one, as insertion into a map would.
    pub fn insert(&mut self, key: String, control: Control)
        ensures
            final(self).entries@ == old(self).entries@.push((key, control)),
            lookup_control(final(self).entries@, key@) == Some(control),
    {
        self.entries.push((key, control));
    }

    pub fn get(&self, key: &str) -> (r: Option<Control>)
        ensures
            r == lookup_control(self.entries@, key@),
    {
        let k: String = key.to_owned();
        let n = self.entries.len();
        let mut i: usize = n;
        proof {
            assert(self.entries@.take(n as int) =~= self.entries@);
        }
        while i > 0
            invariant
                0 <= i <= n,
                n == self.entries@.len(),
                k@ == key@,
                lookup_control(self.entries@.take(i as int), key@) == lookup_control(
                    self.entries@,
                    key@,
                ),
            decreases i,
        {
            i -= 1;
            proof {
                assert(self.entries@.take(i as int + 1).last() == self.entries@[i as int]);
                assert(self.entries@.take(i as int + 1).drop_last() =~= self.entries@.take(
                    i as int,
                ));
            }
            if self.entries[i].0 == k {
                return Some(self.entries[i].1);
            }
        }
        None
    }
}

/// One schema field: its name, kind, and resolved flags. For bytes fields
/// the flags are fixed rather than configurable.
#[derive(Debug, Clone, PartialEq)]
pub struct FieldEntry {
    pub name: String,
    pub kind: FieldKind,
    pub stored: bool,
    pub indexed: bool,
}

/// Mathematical image of a `FieldEntry`.
pub struct SpecField {
    pub name: Seq<char>,
    pub kind: FieldKind,
    pub stored: bool,
    pub indexed: bool,
}

impl View for FieldEntry {
    type V = SpecField;

    open spec fn view(&self) -> SpecField {
        SpecField { name: self.name@, kind: self.kind, stored: self.stored, indexed: self.indexed }
    }
}

/// First field whose name equals `name`, scanning front to back.
pub open spec fn lookup_field(fields: Seq<SpecField>, name: Seq<char>) -> Option<SpecField>
    decreases fields.len(),
{
    if fields.len() == 0 {
        None
    } else if fields[0].name == name {
        Some(fields[0])
    } else {
        lookup_field(fields.drop_first(), name)
    }
}

/// The ordered, named set of typed fields defining a collection's
/// document shape.
#[derive(Debug, Clone, PartialEq)]
pub struct Schema {
    pub fields: Vec<FieldEntry>,
}

impl View for Schema {
    type V = Seq<SpecField>;

    open spec fn view(&self) -> Seq<SpecField> {
        Seq::new(
            self.fields@.len(),
            |i: int|
                if 0 <= i < self.fields@.len() {
                    self.fields@[i]@
                } else {
                    SpecField { name: Seq::empty(), kind: FieldKind::Text, stored: false, indexed: false }
                },
        )
    }
}

impl Schema {
    /// Every field name occurs once.
    pub open spec fn wf(&self) -> bool {
        forall|i: int, j: int|
            0 <= i < j < self@.len() ==> self@[i].name != self@[j].name
    }

    pub fn builder() -> (r: SchemaBuilder)
        ensures
            r.fields@.len() == 0,
    {
        SchemaBuilder { fields: Vec::new() }
    }

    pub fn num_fields(&self) -> (r: usize)
        ensures
            r == self@.len(),
    {
        self.fields.len()
    }

    /// Looks a field up by name, front to back.
    pub fn get_field(&self, name: &str) -> (r: Option<&FieldEntry>)
        ensures
            match r {
                Some(f) => lookup_field(self@, name@) == Some(f@),
                None => lookup_field(self@, name@) is None,
            },
    {
        let k: String = name.to_owned();
        let n = self.fields.len();
        let mut i: usize = 0;
        proof {
            assert(self@.skip(0) =~= self@);
        }
        while i < n
            invariant
                0 <= i <= n,
                n == self.fields@.len(),
                n == self@.len(),
                k@ == name@,
                forall|j: int| 0 <= j < n ==> (#[trigger] self@[j]) == self.fields@[j]@,
                lookup_field(self@.skip(i as int), name@) == lookup_field(self@, name@),
            decreases n - i,
        {
            proof {
                assert(self@.skip(i as int).len() == n - i);
                assert(self@.skip(i as int)[0] == self@[i as int]);
            }
            if self.fields[i].name == k {
                return Some(&self.fields[i]);
            }
            proof {
                assert(self@.skip(i as int).drop_first() =~= self@.skip(i as int + 1));
            }
            i += 1;
        }
        proof {
            assert(self@.skip(n as int).len() == 0);
        }
        None
    }
}

/// Accumulates fields in order; `build` freezes them into a `Schema`.
#[derive(Debug, Clone, PartialEq)]
pub struct SchemaBuilder {
    pub fields: Vec<FieldEntry>,
}

impl View for SchemaBuilder {
    type V = Seq<SpecField>;

    open spec fn view(&self) -> Seq<SpecField> {
        Seq::new(
            self.fields@.len(),
            |i: int|
                if 0 <= i < self.fields@.len() {
                    self.fields@[i]@
                } else {
                    SpecField { name: Seq::empty(), kind: FieldKind::Text, stored: false, indexed: false }
                },
        )
    }
}

impl SchemaBuilder {
    pub fn add_text_field(&mut self, name: &str, options: TextOptions)
        ensures
            final(self)@ =~= old(self)@.push(
                SpecField {
                    name: name@,
                    kind: FieldKind::Text,
                    stored: options.stored,
                    indexed: options.indexed,
                },
            ),
    {
        self.fields.push(
            FieldEntry {
                name: name.to_owned(),
                kind: FieldKind::Text,
                stored: options.stored,
                indexed: options.indexed,
            },
        );
    }

    pub fn add_u64_field(&mut self, name: &str, options: IntOptions)
        ensures
            final(self)@ =~= old(self)@.push(
                SpecField {
                    name: name@,
                    kind: FieldKind::U64,
                    stored: options.stored,
                    indexed: options.indexed,
                },
            ),
    {
        self.fields.push(
            FieldEntry {
                name: name.to_owned(),
                kind: FieldKind::U64,
                stored: options.stored,
                indexed: options.indexed,
            },
        );
    }

    pub fn add_i64_field(&mut self, name: &str, options: IntOptions)
        ensures
            final(self)@ =~= old(self)@.push(
                SpecField {
                    name: name@,
                    kind: FieldKind::I64,
                    stored: options.stored,
                    indexed: options.indexed,
                },
            ),
    {
        self.fields.push(
            FieldEntry {
                name: name.to_owned(),
                kind: FieldKind::I64,
                stored: options.stored,
                indexed: options.indexed,
            },
        );
    }

    pub fn add_f64_field(&mut self, name: &str, options: IntOptions)
        ensures
            final(self)@ =~= old(self)@.push(
                SpecField {
                    name: name@,
                    kind: FieldKind::F64,
                    stored: options.stored,
                    indexed: options.indexed,
                },
            ),
    {
        self.fields.push(
            FieldEntry {
                name: name.to_owned(),
                kind: FieldKind::F64,
                stored: options.stored,
                indexed: options.indexed,
            },
        );
    }

    /// Bytes fields carry no configurable options; the flags are unused.
    pub fn add_bytes_field(&mut self, name: &str)
        ensures
            final(self)@ =~= old(self)@.push(
                SpecField { name: name@, kind: FieldKind::Bytes, stored: false, indexed: false },
            ),
    {
        self.fields.push(
            FieldEntry { name: name.to_owned(), kind: FieldKind::Bytes, stored: false, indexed: false },
        );
    }

    pub fn build(self) -> (r: Schema)
        ensures
            r@ == self@,
    {
        Schema { fields: self.fields }
    }
}

} // verus!
