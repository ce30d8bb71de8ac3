//! Decisions of the maintenance operations: confirmation headers, what a
//! DELETE on a collection means, which record sub-stores a purge drops, and
//! when compaction merges segments.
use vstd::prelude::*;
use crate::registry::opt_view;
use crate::text::same_text;

verus! {

/// A confirmation header says exactly `true`.
pub open spec fn confirmed(h: Option<Seq<char>>) -> bool {
    h == Some("true"@)
}

/// Whether a confirmation header is present and says exactly `true`.
pub fn is_confirmed(header: Option<&str>) -> (r: bool)
    ensures
        r == confirmed(opt_view(header)),
{
    match header {
        Some(h) => same_text(h, "true"),
        None => false,
    }
}

/// What a DELETE on `/data/{key}` does.
#[derive(Clone, Copy, Debug, PartialEq, Eq, Structural)]
pub enum DeleteAction {
    /// Remove the whole collection.
    Collection,
    /// Refuse: removing a collection needs `X-Confirm-Purge: true`.
    Unconfirmed,
    /// Remove the record named by the primary-key parameter.
    ByKey,
}

/// What a DELETE on a collection does: with no query parameter it removes
/// the collection, but only when `X-Confirm-Purge` says `true`, and is
/// refused otherwise; with parameters it removes one record by primary key.
pub fn classify_delete(query_is_empty: bool, confirm_purge: Option<&str>) -> (r: DeleteAction)
    ensures
        query_is_empty && confirmed(opt_view(confirm_purge)) <==> r == DeleteAction::Collection,
        query_is_empty && !confirmed(opt_view(confirm_purge)) <==> r == DeleteAction::Unconfirmed,
        !query_is_empty <==> r == DeleteAction::ByKey,
{
    if !query_is_empty {
        DeleteAction::ByKey
    } else if is_confirmed(confirm_purge) {
        DeleteAction::Collection
    } else {
        DeleteAction::Unconfirmed
    }
}

/// The name of the record store's default sub-store, which a purge keeps.
pub open spec fn reserved_tree() -> Seq<u8> {
    seq![95u8, 95u8, 115u8, 108u8, 101u8, 100u8, 95u8, 95u8, 100u8, 101u8, 102u8, 97u8, 117u8, 108u8, 116u8]
}

/// Whether a sub-store name is the reserved default one.
pub fn is_reserved_tree(name: &[u8]) -> (r: bool)
    ensures
        r == (name@ == reserved_tree()),
{
    let reserved: [u8; 15] = [95, 95, 115, 108, 101, 100, 95, 95, 100, 101, 102, 97, 117, 108, 116];
    if name.len() != 15 {
        return false;
    }
    let mut i: usize = 0;
    while i < 15
        invariant
            name@.len() == 15,
            reserved@ == reserved_tree(),
            i <= 15,
            forall|j: int| 0 <= j < i ==> name@[j] == reserved_tree()[j],
        decreases 15 - i,
    {
        if name[i] != reserved[i] {
            return false;
        }
        i = i + 1;
    }
    assert(name@ =~= reserved_tree());
    true
}

/// The views of byte strings.
pub open spec fn byte_views(v: Seq<Vec<u8>>) -> Seq<Seq<u8>> {
    v.map_values(|b: Vec<u8>| b@)
}

/// The names among `names` other than the reserved one, in order.
pub open spec fn droppable(names: Seq<Seq<u8>>) -> Seq<Seq<u8>>
    decreases names.len(),
{
    if names.len() == 0 {
        Seq::empty()
    } else if names.last() != reserved_tree() {
        droppable(names.drop_last()).push(names.last())
    } else {
        droppable(names.drop_last())
    }
}

/// The sub-stores a purge drops: all but the reserved default one, in order.
pub fn trees_to_drop(names: Vec<Vec<u8>>) -> (r: Vec<Vec<u8>>)
    ensures
        byte_views(r@) == droppable(byte_views(names@)),
{
    let ghost orig = byte_views(names@);
    let n = names.len();
    let mut rest = names;
    let mut out: Vec<Vec<u8>> = Vec::new();
    let mut i: usize = 0;
    assert(orig.subrange(0, 0) =~= Seq::<Seq<u8>>::empty());
    assert(byte_views(rest@) =~= orig.subrange(0, n as int));
    while rest.len() > 0
        invariant
            orig.len() == n,
            i <= n,
            byte_views(rest@) == orig.subrange(i as int, n as int),
            byte_views(out@) == droppable(orig.subrange(0, i as int)),
        decreases rest@.len(),
    {
        let ghost before_rest = rest@;
        assert(byte_views(before_rest).len() == before_rest.len());
        assert(i < n);
        let t = rest.remove(0);
        assert(t == before_rest[0]);
        assert(byte_views(before_rest)[0] == before_rest[0]@);
        assert(byte_views(before_rest)[0] == orig.subrange(i as int, n as int)[0]);
        assert(t@ == orig[i as int]);
        let ghost sub = orig.subrange(0, i + 1);
        assert(sub.drop_last() =~= orig.subrange(0, i as int));
        assert(sub.last() == orig[i as int]);
        let ghost before = byte_views(out@);
        if !is_reserved_tree(t.as_slice()) {
            out.push(t);
            assert(byte_views(out@) =~= before.push(orig[i as int]));
        }
        assert forall|k: int| 0 <= k < rest@.len() implies byte_views(rest@)[k] == orig[i + 1 + k] by {
            assert(rest@[k] == before_rest[k + 1]);
            assert(byte_views(before_rest)[k + 1] == before_rest[k + 1]@);
            assert(orig.subrange(i as int, n as int)[k + 1] == orig[i + 1 + k]);
        }
        assert(byte_views(rest@) =~= orig.subrange(i + 1, n as int));
        i = i + 1;
    }
    assert(orig.subrange(0, n as int) =~= orig);
    out
}

/// What compaction does with a collection's index.
#[derive(Clone, Copy, Debug, PartialEq, Eq, Structural)]
pub enum CompactAction {
    /// Merge all segments into one, then commit.
    Merge,
    /// Nothing to merge.
    NoMerge,
}

/// Compaction merges an index's segments when it has more than one.
pub fn compact_action(segments: usize) -> (r: CompactAction)
    ensures
        r == CompactAction::Merge <==> segments > 1,
{
    if segments > 1 {
        CompactAction::Merge
    } else {
        CompactAction::NoMerge
    }
}

} // verus!
