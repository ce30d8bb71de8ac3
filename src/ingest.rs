//! What ingest decides for each document: the key under which it is stored,
//! the record added to the search index, and when the index is committed.
use vstd::prelude::*;
use vstd::string::*;
use crate::document::{find_key, lemma_find_key, DocField, Document, Scalar};
use crate::fields::{field_name, strip_type_suffix};
use crate::text::{append_chars, chars_of, string_from_chars, trim, trim_chars, views};

verus! {

/// Documents between two periodic commits of the search index.
pub const COMMIT_EVERY: u64 = 1000;

/// `t` is a non-negative integer written in decimal digits.
pub open spec fn is_digits(t: Seq<char>) -> bool {
    t.len() > 0 && forall|i: int| 0 <= i < t.len() ==> '0' <= #[trigger] t[i] && t[i] <= '9'
}

/// The primary id of a document: the value of its primary field when that is
/// a non-negative integer (its decimal digits) or a non-empty string.
pub open spec fn id_of(fs: Seq<DocField>, primary: Seq<char>) -> Option<Seq<char>> {
    let k = find_key(fs, primary);
    if k < 0 {
        None
    } else {
        match fs[k].value {
            Scalar::Number(t) => if is_digits(t@) {
                Some(t@)
            } else {
                None
            },
            Scalar::Str(s) => if s@.len() > 0 {
                Some(s@)
            } else {
                None
            },
            Scalar::Other => None,
        }
    }
}

fn all_digits(t: &str) -> (r: bool)
    ensures
        r == is_digits(t@),
{
    let cs = chars_of(t);
    if cs.len() == 0 {
        return false;
    }
    let mut i: usize = 0;
    while i < cs.len()
        invariant
            cs@ == t@,
            i <= cs@.len(),
            forall|j: int| 0 <= j < i ==> '0' <= #[trigger] cs@[j] && cs@[j] <= '9',
        decreases cs@.len() - i,
    {
        if !('0' <= cs[i] && cs[i] <= '9') {
            return false;
        }
        i = i + 1;
    }
    true
}

/// The primary id of `item` under `key_field`: a non-negative integer in its
/// decimal digits, or a non-empty string; `None` otherwise.
pub fn get_object_id_from_json(item: &Document, key_field: &str) -> (r: Option<String>)
    ensures
        r is None <==> id_of(item.fields@, key_field@) is None,
        r matches Some(s) ==> id_of(item.fields@, key_field@) == Some(s@),
{
    proof {
        lemma_find_key(item.fields@, key_field@);
    }
    match item.field(key_field) {
        Some(f) => match &f.value {
            Scalar::Number(t) => {
                if all_digits(t.as_str()) {
                    Some(t.clone())
                } else {
                    None
                }
            },
            Scalar::Str(s) => {
                if s.as_str().unicode_len() > 0 {
                    Some(s.clone())
                } else {
                    None
                }
            },
            Scalar::Other => None,
        },
        None => None,
    }
}

/// The per-field texts of the index record: for each index field declaration
/// whose field name (`price` for `price:f64`) is a key of the document, in
/// order, that name and the key's JSON text.
pub open spec fn record_fields(fs: Seq<DocField>, index_fields: Seq<Seq<char>>) -> Seq<
    (Seq<char>, Seq<char>),
>
    decreases index_fields.len(),
{
    if index_fields.len() == 0 {
        Seq::empty()
    } else {
        let r = record_fields(fs, index_fields.drop_last());
        let f = field_name(index_fields.last());
        let k = find_key(fs, f);
        if k >= 0 {
            r.push((f, fs[k].json@))
        } else {
            r
        }
    }
}

/// The JSON texts of the declared fields present in the document (by field
/// name), each followed by a space.
pub open spec fn joined_text(fs: Seq<DocField>, declared: Seq<Seq<char>>) -> Seq<char>
    decreases declared.len(),
{
    if declared.len() == 0 {
        Seq::empty()
    } else {
        let r = joined_text(fs, declared.drop_last());
        let k = find_key(fs, field_name(declared.last()));
        if k >= 0 {
            r + fs[k].json@ + seq![' ']
        } else {
            r
        }
    }
}

/// The record that a document adds to the search index.
#[derive(Debug)]
pub struct IndexRecord {
    /// The primary id, indexed in the primary field.
    pub id: String,
    /// Each index field present, by field name, with the JSON text of its value.
    pub fields: Vec<(String, String)>,
    /// The catch-all full text.
    pub text: String,
}

/// The views of field and text pairs.
pub open spec fn pairs_view(v: Seq<(String, String)>) -> Seq<(Seq<char>, Seq<char>)> {
    v.map_values(|p: (String, String)| (p.0@, p.1@))
}

/// The index record of `doc` under the primary id `id`: the JSON text of
/// each index field present, and as full text the JSON texts of the fields
/// that the write declared, joined by spaces.
pub fn index_record(doc: &Document, id: String, index_fields: &[String], declared: &[String]) -> (r:
    IndexRecord)
    ensures
        r.id@ == id@,
        pairs_view(r.fields@) == record_fields(doc.fields@, views(index_fields@)),
        r.text@ == trim(joined_text(doc.fields@, views(declared@))),
{
    let mut fields: Vec<(String, String)> = Vec::new();
    let mut i: usize = 0;
    while i < index_fields.len()
        invariant
            i <= index_fields@.len(),
            pairs_view(fields@) == record_fields(
                doc.fields@,
                views(index_fields@).subrange(0, i as int),
            ),
        decreases index_fields@.len() - i,
    {
        let ghost sub = views(index_fields@).subrange(0, i + 1);
        assert(sub.drop_last() =~= views(index_fields@).subrange(0, i as int));
        assert(sub.last() == index_fields@[i as int]@);
        let name = strip_type_suffix(index_fields[i].as_str());
        proof {
            lemma_find_key(doc.fields@, name@);
        }
        match doc.field(name) {
            Some(f) => {
                let ghost before = pairs_view(fields@);
                fields.push((String::from_str(name), f.json.clone()));
                assert(pairs_view(fields@) =~= before.push((name@, f.json@)));
            },
            None => {},
        }
        i = i + 1;
    }
    assert(views(index_fields@).subrange(0, index_fields@.len() as int) =~= views(index_fields@));
    let mut text: Vec<char> = Vec::new();
    let mut j: usize = 0;
    while j < declared.len()
        invariant
            j <= declared@.len(),
            text@ == joined_text(doc.fields@, views(declared@).subrange(0, j as int)),
        decreases declared@.len() - j,
    {
        let ghost sub = views(declared@).subrange(0, j + 1);
        assert(sub.drop_last() =~= views(declared@).subrange(0, j as int));
        assert(sub.last() == declared@[j as int]@);
        let name = strip_type_suffix(declared[j].as_str());
        proof {
            lemma_find_key(doc.fields@, name@);
        }
        match doc.field(name) {
            Some(f) => {
                let js = chars_of(f.json.as_str());
                append_chars(&mut text, js.as_slice());
                text.push(' ');
            },
            None => {},
        }
        j = j + 1;
    }
    assert(views(declared@).subrange(0, declared@.len() as int) =~= views(declared@));
    let t = trim_chars(text.as_slice());
    IndexRecord { id, fields, text: string_from_chars(t.as_slice()) }
}

/// What an ingest has done so far: documents added and documents refused.
#[derive(Clone, Copy, Debug, PartialEq, Eq, Structural)]
pub struct IngestTally {
    pub count: u64,
    pub errors: u64,
}

impl IngestTally {
    /// Nothing done yet.
    pub fn new() -> (r: Self)
        ensures
            r.count == 0 && r.errors == 0,
    {
        IngestTally { count: 0, errors: 0 }
    }

    /// Counts one document added to both stores; returns whether the search
    /// index is to be committed now, which is after every thousandth one.
    pub fn added(&mut self) -> (commit: bool)
        requires
            old(self).count < u64::MAX,
        ensures
            final(self).count == old(self).count + 1,
            final(self).errors == old(self).errors,
            commit == (final(self).count % COMMIT_EVERY == 0),
    {
        self.count = self.count + 1;
        self.count % COMMIT_EVERY == 0
    }

    /// Counts one document that could not be added.
    pub fn refused(&mut self)
        requires
            old(self).errors < u64::MAX,
        ensures
            final(self).count == old(self).count,
            final(self).errors == old(self).errors + 1,
    {
        self.errors = self.errors + 1;
    }
}

/// The RAM budget of the first index writer of an ingest: the configured
/// budget, or the body's length when that is larger.
pub fn writer_buffer(upsert_index_buffer: usize, body_len: usize) -> (r: usize)
    ensures
        r == if upsert_index_buffer >= body_len { upsert_index_buffer } else { body_len },
{
    if upsert_index_buffer >= body_len {
        upsert_index_buffer
    } else {
        body_len
    }
}

/// What ingest does with one document: the key and record when it has a
/// primary id; `None` when it is to be counted as an error.
pub struct Prepared {
    pub key: String,
    pub record: IndexRecord,
}

/// The key under which `doc` is stored and the record it adds to the index,
/// for a collection with primary field `primary` and index fields
/// `index_fields`, written with the declarations `declared`; `None` when the
/// document has no primary id.
pub fn prepare_document(
    doc: &Document,
    primary: &str,
    index_fields: &[String],
    declared: &[String],
) -> (r: Option<Prepared>)
    ensures
        r is None <==> id_of(doc.fields@, primary@) is None,
        r matches Some(p) ==> {
            &&& id_of(doc.fields@, primary@) == Some(p.key@)
            &&& p.record.id@ == p.key@
            &&& pairs_view(p.record.fields@) == record_fields(doc.fields@, views(index_fields@))
            &&& p.record.text@ == trim(joined_text(doc.fields@, views(declared@)))
        },
{
    match get_object_id_from_json(doc, primary) {
        Some(id) => {
            let key = id.clone();
            let record = index_record(doc, id, index_fields, declared);
            Some(Prepared { key, record })
        },
        None => None,
    }
}

} // verus!
