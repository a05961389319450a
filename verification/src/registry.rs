//! The collection registry: a builder collecting one schema per collection
//! name, and the registry itself, which resolves the home directory, tracks
//! each collection's lazily opened write/read handles, prepares inserts by
//! marshalling records, and plans bounded reads. The engine work around
//! these decisions (directories, writers, readers, searches) happens
//! outside this crate; every decision here is verified.

use vstd::prelude::*;

use crate::error::IndexError;
use crate::error::SpecIndexError;
use crate::marshal::Document;
use crate::marshal::SpecFieldValue;
use crate::marshal::spec_marshal;
use crate::schema::Schema;
use crate::schema::SpecField;
use crate::utils::joined_path;
use crate::utils::spec_starts_with;
use crate::utils::str_starts_with;
use crate::utils::join;
use crate::value::SpecValue;
use crate::value::Value;

verus! {

/// Builder for `Surfer`: an optional home override and one schema per
/// collection name, in registration order. Registering a name again
/// shadows the earlier registration, as insertion into a map would.
#[derive(Debug, Clone, PartialEq)]
pub struct SurferBuilder {
    pub schemas: Vec<(String, Schema)>,
    pub home: Option<String>,
}

impl Default for SurferBuilder {
    fn default() -> (r: SurferBuilder)
        ensures
            r.schemas@.len() == 0,
            r.home is None,
    {
        SurferBuilder { schemas: Vec::new(), home: None }
    }
}

impl SurferBuilder {
    /// Set home location - default is indexes.
    pub fn set_home(&mut self, home: &str)
        ensures
            final(self).home matches Some(h) && h@ == home@,
            final(self).schemas == old(self).schemas,
    {
        self.home = Some(home.to_owned());
    }

    /// Add a schema under a collection name.
    pub fn add_schema(&mut self, name: String, schema: Schema)
        ensures
            final(self).schemas@ == old(self).schemas@.push((name, schema)),
            final(self).home == old(self).home,
    {
        self.schemas.push((name, schema));
    }

    /// Add a structured value, inferring its schema without overrides.
    /// The value must be a mapping that inference accepts.
    pub fn add_serde(&mut self, name: String, data: &Value)
        requires
            data@ matches SpecValue::Mapping(entries) && crate::utils::spec_infer(
                entries,
                None,
            ) is Ok,
        ensures
            final(self).schemas@.len() == old(self).schemas@.len() + 1,
            final(self).schemas@.drop_last() == old(self).schemas@,
            final(self).schemas@.last().0 == name,
            final(self).schemas@.last().1@ == crate::utils::spec_infer(
                data@->Mapping_0,
                None,
            )->Ok_0,
            final(self).home == old(self).home,
    {
        match crate::utils::to_schema(data, None) {
            Ok(schema) => {
                self.add_schema(name, schema);
                proof {
                    assert(final(self).schemas@.drop_last() =~= old(self).schemas@);
                }
            },
            Err(_) => {
                proof {
                    assert(false);
                }
            },
        }
    }
}

/// One registered collection: its name, its frozen schema, and whether
/// its write and read handles have been opened yet. The handles start
/// absent, are opened on first use, and stay open afterwards.
#[derive(Debug, Clone, PartialEq)]
pub struct Collection {
    pub name: String,
    pub schema: Schema,
    pub writer_open: bool,
    pub reader_open: bool,
}

/// The registered collection a name resolves to: the latest registration
/// under that name, scanning back to front.
pub open spec fn spec_find(collections: Seq<Collection>, name: Seq<char>) -> Option<int>
    decreases collections.len(),
{
    if collections.len() == 0 {
        None
    } else if collections.last().name@ == name {
        Some(collections.len() - 1)
    } else {
        spec_find(collections.drop_last(), name)
    }
}

/// The state after a read touched `name`: the collection's read handle is
/// open; an unknown name changes nothing.
pub open spec fn spec_after_read(collections: Seq<Collection>, name: Seq<char>) -> Seq<Collection> {
    match spec_find(collections, name) {
        None => collections,
        Some(i) => collections.update(i, Collection { reader_open: true, ..collections[i] }),
    }
}

/// The state after an insert touched `name`: the collection's write
/// handle is open; an unknown name changes nothing.
pub open spec fn spec_after_insert(collections: Seq<Collection>, name: Seq<char>) -> Seq<
    Collection,
> {
    match spec_find(collections, name) {
        None => collections,
        Some(i) => collections.update(i, Collection { writer_open: true, ..collections[i] }),
    }
}

/// Name resolution ignores the handle flags: two states with the same
/// names resolve every name alike.
pub proof fn lemma_find_same_names(s: Seq<Collection>, t: Seq<Collection>, name: Seq<char>)
    requires
        s.len() == t.len(),
        forall|j: int| 0 <= j < s.len() ==> (#[trigger] s[j]).name@ == t[j].name@,
    ensures
        spec_find(s, name) == spec_find(t, name),
    decreases s.len(),
{
    if s.len() > 0 {
        assert(forall|j: int|
            0 <= j < s.drop_last().len() ==> (#[trigger] s.drop_last()[j]).name@
                == t.drop_last()[j].name@);
        lemma_find_same_names(s.drop_last(), t.drop_last(), name);
    }
}

/// IDEMPOTENT READS. Planning the same read twice against an otherwise
/// unchanged registry reaches the same collection, sees the same schema,
/// and leaves the same state as planning it once: the second read is
/// answered from the cached handle and observes nothing new.
pub proof fn lemma_reads_idempotent(collections: Seq<Collection>, name: Seq<char>)
    ensures
        spec_find(spec_after_read(collections, name), name) == spec_find(collections, name),
        spec_after_read(spec_after_read(collections, name), name) == spec_after_read(
            collections,
            name,
        ),
        spec_find(collections, name) matches Some(i) ==> spec_after_read(
            collections,
            name,
        )[i].schema == collections[i].schema,
{
    let s1 = spec_after_read(collections, name);
    match spec_find(collections, name) {
        None => {},
        Some(i) => {
            assert(0 <= i < collections.len()) by {
                lemma_find_in_range(collections, name);
            }
            assert(forall|j: int|
                0 <= j < collections.len() ==> (#[trigger] collections[j]).name@ == s1[j].name@);
            lemma_find_same_names(collections, s1, name);
            assert(spec_after_read(s1, name) =~= s1);
        },
    }
}

/// UNKNOWN-COLLECTION ASYMMETRY. A name never registered touches no
/// state on either path; the write path nevertheless reports success
/// with nothing to write (`insert_struct` and `insert_structs` return
/// `Ok(None)` there), while the read path reports that there is nothing
/// here at all (`prepare_read` returns `None`).
pub proof fn lemma_unknown_collection_asymmetry(collections: Seq<Collection>, name: Seq<char>)
    requires
        spec_find(collections, name) is None,
    ensures
        spec_after_insert(collections, name) == collections,
        spec_after_read(collections, name) == collections,
{
}

/// A resolved index lies inside the collection list.
pub proof fn lemma_find_in_range(collections: Seq<Collection>, name: Seq<char>)
    ensures
        spec_find(collections, name) matches Some(i) ==> 0 <= i < collections.len()
            && collections[i].name@ == name,
    decreases collections.len(),
{
    if collections.len() > 0 && collections.last().name@ != name {
        lemma_find_in_range(collections.drop_last(), name);
    }
}

/// The field names of a schema, in schema order: the default query
/// targets of its collection.
pub open spec fn schema_field_names(fields: Seq<SpecField>) -> Seq<Seq<char>> {
    Seq::new(
        fields.len(),
        |i: int|
            if 0 <= i < fields.len() {
                fields[i].name
            } else {
                Seq::empty()
            },
    )
}

/// What one read needs from the registry once the collection is known:
/// the collection's full field-name list as default query targets, and
/// the resolved top-K bound.
#[derive(Debug, Clone, PartialEq)]
pub struct ReadPlan {
    pub fields: Vec<String>,
    pub limit: usize,
}

/// The top-K bound a read uses: the caller's limit, or ten.
pub fn effective_limit(limit: Option<usize>) -> (r: usize)
    ensures
        r == (match limit {
            Some(l) => l as int,
            None => 10,
        }),
{
    if limit.is_none() {
        10
    } else {
        limit.unwrap()
    }
}

/// Marshalling one structured record against a schema, as a record.
pub open spec fn spec_marshal_record(v: Value, fields: Seq<SpecField>) -> Result<
    Seq<(Seq<char>, SpecFieldValue)>,
    SpecIndexError,
> {
    match v@ {
        SpecValue::Mapping(entries) => spec_marshal(entries, fields),
        _ => Err(SpecIndexError::DocParseNotRecord),
    }
}

/// Marshalling a batch of records: document by document in batch order,
/// stopping at the first rejected record.
pub open spec fn spec_marshal_batch(payload: Seq<Value>, fields: Seq<SpecField>) -> Result<
    Seq<Seq<(Seq<char>, SpecFieldValue)>>,
    SpecIndexError,
>
    decreases payload.len(),
{
    if payload.len() == 0 {
        Ok(Seq::empty())
    } else {
        match spec_marshal_batch(payload.drop_last(), fields) {
            Err(e) => Err(e),
            Ok(docs) => match spec_marshal_record(payload.last(), fields) {
                Err(e) => Err(e),
                Ok(d) => Ok(docs.push(d)),
            },
        }
    }
}

/// Once a prefix of the batch is rejected, the whole batch is rejected
/// with that same failure.
pub proof fn lemma_batch_prefix_err(payload: Seq<Value>, fields: Seq<SpecField>, n: int)
    requires
        0 <= n <= payload.len(),
        spec_marshal_batch(payload.take(n), fields) is Err,
    ensures
        spec_marshal_batch(payload, fields) == spec_marshal_batch(payload.take(n), fields),
    decreases payload.len(),
{
    if n == payload.len() {
        assert(payload.take(n) =~= payload);
    } else {
        assert(payload.drop_last().take(n) =~= payload.take(n));
        lemma_batch_prefix_err(payload.drop_last(), fields, n);
    }
}

/// Image of a batch of marshalled documents.
pub open spec fn docs_view(docs: Seq<Document>) -> Seq<Seq<(Seq<char>, SpecFieldValue)>> {
    Seq::new(
        docs.len(),
        |i: int|
            if 0 <= i < docs.len() {
                docs[i]@
            } else {
                Seq::empty()
            },
    )
}

/// The registry: the resolved home directory and the registered
/// collections with their cached handle states.
#[derive(Debug, Clone, PartialEq)]
pub struct Surfer {
    pub home: String,
    pub collections: Vec<Collection>,
}

impl Surfer {
    /// Builds the registry: the explicit home if one was set, the fixed
    /// default otherwise, and every registered collection with both
    /// handles still absent. Opening the stores on disk happens outside;
    /// an existing store directory keeps its on-disk schema.
    pub fn new(builder: SurferBuilder) -> (s: Surfer)
        ensures
            s.home@ == (match builder.home {
                Some(h) => h@,
                None => "indexes"@,
            }),
            s.collections@.len() == builder.schemas@.len(),
            forall|j: int|
                0 <= j < builder.schemas@.len() ==> {
                    &&& (#[trigger] s.collections@[j]).name == builder.schemas@[j].0
                    &&& s.collections@[j].schema == builder.schemas@[j].1
                    &&& !s.collections@[j].writer_open
                    &&& !s.collections@[j].reader_open
                },
    {
        let SurferBuilder { mut schemas, home } = builder;
        let home: String = match home {
            Some(h) => h,
            None => String::from_str("indexes"),
        };
        let ghost orig = schemas@;
        let mut collections: Vec<Collection> = Vec::new();
        while schemas.len() > 0
            invariant
                collections@.len() + schemas@.len() == orig.len(),
                schemas@ == orig.skip(collections@.len() as int),
                forall|j: int|
                    0 <= j < collections@.len() ==> {
                        &&& (#[trigger] collections@[j]).name == orig[j].0
                        &&& collections@[j].schema == orig[j].1
                        &&& !collections@[j].writer_open
                        &&& !collections@[j].reader_open
                    },
            decreases schemas@.len(),
        {
            let ghost k = collections@.len() as int;
            let (name, schema) = schemas.remove(0);
            proof {
                assert(orig.skip(k)[0] == orig[k]);
                assert(orig.skip(k).drop_first() =~= orig.skip(k + 1));
            }
            collections.push(Collection { name, schema, writer_open: false, reader_open: false });
        }
        Surfer { home, collections }
    }

    /// Location of home.
    pub fn home(&self) -> (r: &String)
        ensures
            r@ == self.home@,
    {
        &self.home
    }

    /// The index the latest registration under `name` resolves to.
    fn find(&self, name: &str) -> (r: Option<usize>)
        ensures
            match r {
                Some(i) => spec_find(self.collections@, name@) == Some(i as int),
                None => spec_find(self.collections@, name@) is None,
            },
    {
        let k: String = name.to_owned();
        let n = self.collections.len();
        let mut i: usize = n;
        proof {
            assert(self.collections@.take(n as int) =~= self.collections@);
        }
        while i > 0
            invariant
                0 <= i <= n,
                n == self.collections@.len(),
                k@ == name@,
                spec_find(self.collections@.take(i as int), name@) == spec_find(
                    self.collections@,
                    name@,
                ),
            decreases i,
        {
            i -= 1;
            proof {
                assert(self.collections@.take(i as int + 1).last() == self.collections@[i as int]);
                assert(self.collections@.take(i as int + 1).drop_last() =~= self.collections@.take(
                    i as int,
                ));
            }
            if self.collections[i].name == k {
                return Some(i);
            }
        }
        None
    }

    /// Location of an index: the name itself when it already carries the
    /// home prefix, else home and name joined; nothing for a name never
    /// registered.
    pub fn which_index(&self, name: &str) -> (r: Option<String>)
        ensures
            match spec_find(self.collections@, name@) {
                None => r is None,
                Some(_) => r matches Some(p) && p@ == (if spec_starts_with(name@, self.home@) {
                    name@
                } else {
                    joined_path(self.home@, name@)
                }),
            },
    {
        if self.find(name).is_none() {
            return None;
        }
        if str_starts_with(name, self.home.as_str()) {
            Some(name.to_owned())
        } else {
            join(self.home.as_str(), name)
        }
    }

    /// Prepares one insert: an unknown collection is a silent no-op; for
    /// a known one the write handle is (now) open and the record is
    /// marshalled against the collection's schema, failing on the first
    /// incompatible entry. The marshalled document goes to the engine's
    /// writer, whose add and synchronous commit happen outside.
    pub fn insert_struct(&mut self, name: &str, data: &Value) -> (r: Result<
        Option<Document>,
        IndexError,
    >)
        ensures
            final(self).home == old(self).home,
            final(self).collections@ == spec_after_insert(old(self).collections@, name@),
            match spec_find(old(self).collections@, name@) {
                None => r == Ok::<Option<Document>, IndexError>(None),
                Some(i) => match spec_marshal_record(*data, old(self).collections@[i].schema@) {
                    Ok(doc) => r matches Ok(d) && d matches Some(d) && d@ == doc,
                    Err(se) => r matches Err(e) && e@ == se,
                },
            },
    {
        proof {
            lemma_find_in_range(self.collections@, name@);
        }
        let found = self.find(name);
        if found.is_none() {
            return Ok(None);
        }
        let i = found.unwrap();
        let slot = &mut self.collections[i];
        slot.writer_open = true;
        proof {
            assert(final(self).collections@ =~= spec_after_insert(old(self).collections@, name@));
        }
        match crate::marshal::marshal_document(&self.collections[i].schema, data) {
            Ok(d) => Ok(Some(d)),
            Err(e) => Err(e),
        }
    }

    /// Prepares a batch insert: an unknown collection is a silent no-op;
    /// for a known one the write handle is (now) open and the records are
    /// marshalled in order, stopping at the first rejected record. All
    /// documents of a successful batch go to the writer before its one
    /// synchronous commit, which happens outside.
    pub fn insert_structs(&mut self, name: &str, payload: &Vec<Value>) -> (r: Result<
        Option<Vec<Document>>,
        IndexError,
    >)
        ensures
            final(self).home == old(self).home,
            final(self).collections@ == spec_after_insert(old(self).collections@, name@),
            match spec_find(old(self).collections@, name@) {
                None => r == Ok::<Option<Vec<Document>>, IndexError>(None),
                Some(i) => match spec_marshal_batch(
                    payload@,
                    old(self).collections@[i].schema@,
                ) {
                    Ok(docs) => r matches Ok(ds) && ds matches Some(ds) && docs_view(ds@) == docs,
                    Err(se) => r matches Err(e) && e@ == se,
                },
            },
    {
        proof {
            lemma_find_in_range(self.collections@, name@);
        }
        let found = self.find(name);
        if found.is_none() {
            return Ok(None);
        }
        let i = found.unwrap();
        let slot = &mut self.collections[i];
        slot.writer_open = true;
        proof {
            assert(final(self).collections@ =~= spec_after_insert(old(self).collections@, name@));
        }
        let ghost fields = old(self).collections@[i as int].schema@;
        proof {
            assert(self.collections@[i as int].schema == old(self).collections@[i as int].schema);
        }
        let mut docs: Vec<Document> = Vec::new();
        proof {
            assert(payload@.take(0) =~= Seq::<Value>::empty());
            assert(docs_view(docs@) =~= Seq::<Seq<(Seq<char>, SpecFieldValue)>>::empty());
        }
        let n = payload.len();
        let mut j: usize = 0;
        while j < n
            invariant
                0 <= j <= n,
                n == payload@.len(),
                i < self.collections@.len(),
                fields == self.collections@[i as int].schema@,
                fields == old(self).collections@[i as int].schema@,
                spec_find(old(self).collections@, name@) == Some(i as int),
                self.home == old(self).home,
                self.collections@ == spec_after_insert(old(self).collections@, name@),
                spec_marshal_batch(payload@.take(j as int), fields) == Ok::<
                    _,
                    SpecIndexError,
                >(docs_view(docs@)),
            decreases n - j,
        {
            proof {
                assert(payload@.take(j as int + 1).drop_last() =~= payload@.take(j as int));
                assert(payload@.take(j as int + 1).last() == payload@[j as int]);
            }
            match crate::marshal::marshal_document(&self.collections[i].schema, &payload[j]) {
                Ok(d) => {
                    let ghost prev = docs@;
                    docs.push(d);
                    proof {
                        assert(docs_view(docs@) =~= docs_view(prev).push(docs@.last()@));
                    }
                },
                Err(e) => {
                    proof {
                        lemma_batch_prefix_err(payload@, fields, j as int + 1);
                    }
                    return Err(e);
                },
            }
            j += 1;
        }
        proof {
            assert(payload@.take(n as int) =~= payload@);
        }
        Ok(Some(docs))
    }

    /// Plans one read: nothing for an unknown collection — the reader
    /// asymmetry to the write path's silent no-op — and otherwise the
    /// read handle is (now) open and the plan carries the collection's
    /// entire field list as default query targets together with the
    /// resolved top-K bound. Query parsing, retrieval and the post-hoc
    /// score cut happen outside against this plan.
    pub fn prepare_read(&mut self, name: &str, limit: Option<usize>) -> (r: Option<ReadPlan>)
        ensures
            final(self).home == old(self).home,
            final(self).collections@ == spec_after_read(old(self).collections@, name@),
            match spec_find(old(self).collections@, name@) {
                None => r is None,
                Some(i) => r matches Some(plan) && plan.fields.deep_view() == schema_field_names(
                    old(self).collections@[i].schema@,
                ) && plan.limit == (match limit {
                    Some(l) => l as int,
                    None => 10,
                }),
            },
    {
        proof {
            lemma_find_in_range(self.collections@, name@);
        }
        let found = self.find(name);
        if found.is_none() {
            return None;
        }
        let i = found.unwrap();
        let slot = &mut self.collections[i];
        slot.reader_open = true;
        proof {
            assert(final(self).collections@ =~= spec_after_read(old(self).collections@, name@));
        }
        let schema = &self.collections[i].schema;
        let mut names: Vec<String> = Vec::new();
        proof {
            assert(names.deep_view() =~= Seq::<Seq<char>>::empty());
        }
        let m = schema.fields.len();
        let mut k: usize = 0;
        while k < m
            invariant
                0 <= k <= m,
                m == schema.fields@.len(),
                schema == &old(self).collections@[spec_find(
                    old(self).collections@,
                    name@,
                )->Some_0].schema,
                names.deep_view().len() == k,
                forall|t: int|
                    0 <= t < k ==> #[trigger] names.deep_view()[t] == schema.fields@[t]@.name,
            decreases m - k,
        {
            let ghost prev = names.deep_view();
            names.push(schema.fields[k].name.clone());
            proof {
                assert(names.deep_view() =~= prev.push(schema.fields@[k as int].name@));
            }
            k += 1;
        }
        let limit = effective_limit(limit);
        proof {
            assert(names.deep_view() =~= schema_field_names(schema@));
        }
        Some(ReadPlan { fields: names, limit })
    }
}

} // verus!
