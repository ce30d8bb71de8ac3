//! The collection registry: which collections exist, with the primary field
//! and index field declarations each was created with, frozen from then on.
use vstd::prelude::*;
use crate::text::{chars_of, same_text, split_chars, string_from_chars, trim, trim_chars, split_on, views};

verus! {

/// The declarations a collection was created with.
#[derive(Debug)]
pub struct CollectionSchema {
    pub primary_field: String,
    pub index_fields: Vec<String>,
}

/// A collection's declarations as plain values.
pub type SchemaView = (Seq<char>, Seq<Seq<char>>);

impl View for CollectionSchema {
    type V = SchemaView;

    open spec fn view(&self) -> SchemaView {
        (self.primary_field@, views(self.index_fields@))
    }
}

/// The field declarations of an `X-Upsert-Field` header: the pieces between
/// commas, each without surrounding white space.
pub open spec fn header_fields(h: Seq<char>) -> Seq<Seq<char>> {
    split_on(h, ',').map_values(|p: Seq<char>| trim(p))
}

/// The declarations a write asks for: from the header when there is one (its
/// first field is the primary, the rest are index fields); else the first key
/// of the first document as primary, with no index fields.
pub open spec fn declared(header: Option<Seq<char>>, first_key: Option<Seq<char>>) -> Option<
    SchemaView,
> {
    match header {
        Some(h) => Some((header_fields(h)[0], header_fields(h).drop_first())),
        None => match first_key {
            Some(k) => Some((k, Seq::empty())),
            None => None,
        },
    }
}

/// The view of an optional string.
pub open spec fn opt_view(o: Option<&str>) -> Option<Seq<char>> {
    match o {
        Some(s) => Some(s@),
        None => None,
    }
}

/// The field declarations of an `X-Upsert-Field` header.
pub fn upsert_fields(header: &str) -> (r: Vec<String>)
    ensures
        views(r@) == header_fields(header@),
        r@.len() >= 1,
{
    let cs = chars_of(header);
    let pieces = split_chars(cs.as_slice(), ',');
    let ghost ps = pieces@.map_values(|p: Vec<char>| p@);
    let mut r: Vec<String> = Vec::new();
    let mut i: usize = 0;
    while i < pieces.len()
        invariant
            ps == pieces@.map_values(|p: Vec<char>| p@),
            ps == split_on(header@, ','),
            i <= pieces@.len(),
            views(r@) == ps.subrange(0, i as int).map_values(|p: Seq<char>| trim(p)),
        decreases pieces@.len() - i,
    {
        let t = trim_chars(pieces[i].as_slice());
        let s = string_from_chars(t.as_slice());
        let ghost before = views(r@);
        r.push(s);
        assert(views(r@) =~= before.push(s@));
        assert(ps[i as int] == pieces@[i as int]@);
        assert(views(r@) =~= ps.subrange(0, i + 1).map_values(|p: Seq<char>| trim(p)));
        i = i + 1;
    }
    assert(ps.subrange(0, ps.len() as int) =~= ps);
    r
}

/// The declarations a write asks for, from its `X-Upsert-Field` header if
/// any, else from the first key of its first document; `None` when neither
/// is there.
pub fn declared_schema(header: Option<&str>, first_key: Option<&str>) -> (r: Option<
    CollectionSchema,
>)
    ensures
        r matches Some(s) ==> declared(opt_view(header), opt_view(first_key)) == Some(s@),
        r is None <==> declared(opt_view(header), opt_view(first_key)) is None,
{
    match header {
        Some(h) => {
            let mut fields = upsert_fields(h);
            let ghost all = views(fields@);
            let primary = fields.remove(0);
            assert(views(fields@) =~= all.drop_first());
            Some(CollectionSchema { primary_field: primary, index_fields: fields })
        },
        None => match first_key {
            Some(k) => {
                let s = CollectionSchema { primary_field: String::from_str(k), index_fields: Vec::new() };
                assert(views(s.index_fields@) =~= Seq::<Seq<char>>::empty());
                Some(s)
            },
            None => None,
        },
    }
}

/// A collection of the registry, with the handle of its search index.
pub struct CollectionInfo<H> {
    pub name: String,
    pub schema: CollectionSchema,
    pub index: H,
}

/// The collections that exist, by name.
pub struct Registry<H> {
    entries: Vec<CollectionInfo<H>>,
}

/// Why a write cannot go to an existing collection.
#[derive(Clone, Copy, Debug, PartialEq, Eq, Structural)]
pub enum WriteError {
    /// The write declares another primary field than the collection has.
    PrimaryMismatch,
}

impl<H> Registry<H> {
    /// The collections, in the order they were registered.
    pub closed spec fn entries(&self) -> Seq<CollectionInfo<H>> {
        self.entries@
    }

    /// No two collections share a name.
    pub open spec fn wf(&self) -> bool {
        forall|i: int, j: int|
            0 <= i < j < self.entries().len() ==> #[trigger] self.entries()[i].name@
                != #[trigger] self.entries()[j].name@
    }

    /// A collection named `name` exists.
    pub open spec fn has(&self, name: Seq<char>) -> bool {
        exists|i: int| 0 <= i < self.entries().len() && #[trigger] self.entries()[i].name@ == name
    }

    /// The declarations of the collection named `name`, if it exists.
    pub open spec fn schema_of(&self, name: Seq<char>) -> Option<SchemaView> {
        if self.has(name) {
            Some(
                self.entries()[choose|i: int|
                    0 <= i < self.entries().len() && #[trigger] self.entries()[i].name@
                        == name].schema@,
            )
        } else {
            None
        }
    }

    /// An empty registry.
    pub fn new() -> (r: Self)
        ensures
            r.wf(),
            r.entries().len() == 0,
    {
        Registry { entries: Vec::new() }
    }

    /// The number of collections.
    pub fn len(&self) -> (r: usize)
        ensures
            r == self.entries().len(),
    {
        self.entries.len()
    }

    /// The collection at position `i`.
    pub fn at(&self, i: usize) -> (r: &CollectionInfo<H>)
        requires
            i < self.entries().len(),
        ensures
            *r == self.entries()[i as int],
    {
        &self.entries[i]
    }

    fn position(&self, name: &str) -> (r: Option<usize>)
        requires
            self.wf(),
        ensures
            r is None <==> !self.has(name@),
            r matches Some(i) ==> i < self.entries().len() && self.entries()[i as int].name@
                == name@,
    {
        let mut i: usize = 0;
        while i < self.entries.len()
            invariant
                i <= self.entries().len(),
                forall|j: int| 0 <= j < i ==> #[trigger] self.entries()[j].name@ != name@,
            decreases self.entries().len() - i,
        {
            if same_text(self.entries[i].name.as_str(), name) {
                return Some(i);
            }
            i = i + 1;
        }
        None
    }

    /// The collection named `name`, if it exists.
    pub fn get(&self, name: &str) -> (r: Option<&CollectionInfo<H>>)
        requires
            self.wf(),
        ensures
            r is None <==> !self.has(name@),
            r matches Some(c) ==> c.name@ == name@ && self.schema_of(name@) == Some(c.schema@)
                && self.entries().contains(*c),
    {
        match self.position(name) {
            Some(i) => {
                proof {
                    self.lemma_unique(name@, i as int);
                }
                assert(self.entries()[i as int] == self.entries@[i as int]);
                Some(&self.entries[i])
            },
            None => None,
        }
    }

    proof fn lemma_unique(&self, name: Seq<char>, i: int)
        requires
            self.wf(),
            0 <= i < self.entries().len(),
            self.entries()[i].name@ == name,
        ensures
            self.schema_of(name) == Some(self.entries()[i].schema@),
    {
        let k = choose|k: int|
            0 <= k < self.entries().len() && #[trigger] self.entries()[k].name@ == name;
        assert(k == i) by {
            if k < i {
                assert(self.entries()[k].name@ != self.entries()[i].name@);
            } else if i < k {
                assert(self.entries()[i].name@ != self.entries()[k].name@);
            }
        }
    }

    /// Where a write that declares `declared` goes in the collection `name`:
    /// `Ok(Some(c))` to the existing collection `c`, `Ok(None)` when the
    /// collection does not exist yet and is to be created with `declared`;
    /// refused when the collection exists with another primary field. The
    /// registry itself is never changed here.
    pub fn resolve_write(&self, name: &str, declared: &CollectionSchema) -> (r: Result<
        Option<&CollectionInfo<H>>,
        WriteError,
    >)
        requires
            self.wf(),
        ensures
            r is Err <==> (self.schema_of(name@) matches Some(s) && s.0 != declared@.0),
            r matches Ok(None) ==> !self.has(name@),
            r matches Ok(Some(c)) ==> c.name@ == name@ && self.schema_of(name@) == Some(c.schema@)
                && c.schema@.0 == declared@.0 && self.entries().contains(*c),
    {
        match self.get(name) {
            Some(c) => {
                if same_text(c.schema.primary_field.as_str(), declared.primary_field.as_str()) {
                    Ok(Some(c))
                } else {
                    Err(WriteError::PrimaryMismatch)
                }
            },
            None => Ok(None),
        }
    }

    /// Adds a collection that does not exist yet.
    pub fn insert(&mut self, c: CollectionInfo<H>)
        requires
            old(self).wf(),
            !old(self).has(c.name@),
        ensures
            final(self).wf(),
            final(self).entries() == old(self).entries().push(c),
    {
        let ghost n = c.name@;
        self.entries.push(c);
        assert forall|i: int, j: int|
            0 <= i < j < self.entries().len() implies #[trigger] self.entries()[i].name@
            != #[trigger] self.entries()[j].name@ by {
            if j == self.entries().len() - 1 {
                assert(self.entries()[i] == old(self).entries()[i]);
            } else {
                assert(self.entries()[i] == old(self).entries()[i]);
                assert(self.entries()[j] == old(self).entries()[j]);
            }
        }
    }

    /// Takes the collection named `name` out of the registry and returns it.
    pub fn remove(&mut self, name: &str) -> (r: Option<CollectionInfo<H>>)
        requires
            old(self).wf(),
        ensures
            final(self).wf(),
            !final(self).has(name@),
            r is None ==> final(self).entries() == old(self).entries(),
            r matches Some(c) ==> c.name@ == name@ && old(self).schema_of(name@) == Some(c.schema@)
                && exists|i: int|
                0 <= i < old(self).entries().len() && final(self).entries() == old(
                    self,
                ).entries().remove(i),
    {
        match self.position(name) {
            Some(i) => {
                proof {
                    self.lemma_unique(name@, i as int);
                }
                let c = self.entries.remove(i);
                let ghost o = old(self).entries();
                assert(self.entries() == o.remove(i as int));
                assert forall|a: int, b: int|
                    0 <= a < b < self.entries().len() implies #[trigger] self.entries()[a].name@
                    != #[trigger] self.entries()[b].name@ by {
                    let a0 = if a < i { a } else { a + 1 };
                    let b0 = if b < i { b } else { b + 1 };
                    assert(self.entries()[a] == o[a0]);
                    assert(self.entries()[b] == o[b0]);
                }
                assert(!self.has(name@)) by {
                    if self.has(name@) {
                        let k = choose|k: int|
                            0 <= k < self.entries().len() && #[trigger] self.entries()[k].name@
                                == name@;
                        let k0 = if k < i { k } else { k + 1 };
                        assert(self.entries()[k] == o[k0]);
                        if k0 < i {
                            assert(o[k0].name@ != o[i as int].name@);
                        } else {
                            assert(o[i as int].name@ != o[k0].name@);
                        }
                    }
                }
                Some(c)
            },
            None => None,
        }
    }

    /// Removes every collection.
    pub fn clear(&mut self)
        ensures
            final(self).wf(),
            final(self).entries().len() == 0,
    {
        self.entries = Vec::new();
    }
}

} // verus!
