//! Documents as the engine reads them: the top-level keys of a JSON object,
//! each with what its value is and the JSON text of that value, and the
//! canonical bytes of the whole document.
use vstd::prelude::*;
use crate::text::same_text;

verus! {

/// What a top-level value of a document is, as far as the engine reads it.
#[derive(Debug)]
pub enum Scalar {
    /// A JSON string, with its characters.
    Str(String),
    /// A JSON number, in its JSON text.
    Number(String),
    /// `null`, a boolean, an array or an object.
    Other,
}

/// One top-level key of a document.
#[derive(Debug)]
pub struct DocField {
    pub key: String,
    pub value: Scalar,
    /// The JSON text of the value.
    pub json: String,
}

/// A document: its top-level keys, in order, and its canonical bytes.
#[derive(Debug)]
pub struct Document {
    pub fields: Vec<DocField>,
    pub bytes: Vec<u8>,
}

/// The position of the first field at or after `i` whose key is `key`, or -1.
pub open spec fn find_from(fs: Seq<DocField>, key: Seq<char>, i: int) -> int
    decreases fs.len() - i,
{
    if i < 0 || i >= fs.len() {
        -1
    } else if fs[i].key@ == key {
        i
    } else {
        find_from(fs, key, i + 1)
    }
}

/// The position of the field `key` in `fs`, or -1.
pub open spec fn find_key(fs: Seq<DocField>, key: Seq<char>) -> int {
    find_from(fs, key, 0)
}

proof fn lemma_find_bounds(fs: Seq<DocField>, key: Seq<char>, i: int)
    requires
        0 <= i,
    ensures
        find_from(fs, key, i) == -1 || (i <= find_from(fs, key, i) < fs.len() && fs[find_from(
            fs,
            key,
            i,
        )].key@ == key),
    decreases fs.len() - i,
{
    if i < fs.len() && fs[i].key@ != key {
        lemma_find_bounds(fs, key, i + 1);
    }
}

impl Document {
    /// The field `key` of the document, if it has one.
    pub fn field(&self, key: &str) -> (r: Option<&DocField>)
        ensures
            r is None <==> find_key(self.fields@, key@) == -1,
            r matches Some(f) ==> 0 <= find_key(self.fields@, key@) < self.fields@.len()
                && *f == self.fields@[find_key(self.fields@, key@)],
    {
        let mut i: usize = 0;
        while i < self.fields.len()
            invariant
                i <= self.fields@.len(),
                find_key(self.fields@, key@) == find_from(self.fields@, key@, i as int),
            decreases self.fields@.len() - i,
        {
            if same_text(self.fields[i].key.as_str(), key) {
                return Some(&self.fields[i]);
            }
            i = i + 1;
        }
        None
    }
}

pub proof fn lemma_find_key(fs: Seq<DocField>, key: Seq<char>)
    ensures
        find_key(fs, key) == -1 || (0 <= find_key(fs, key) < fs.len() && fs[find_key(
            fs,
            key,
        )].key@ == key),
{
    lemma_find_bounds(fs, key, 0);
}

} // verus!
