//! The record store as the engine relies on it: a map from primary id to the
//! canonical bytes of a document, authoritative over the search index.
use vstd::prelude::*;
use crate::document::Document;
use crate::ingest::id_of;
use crate::query::{plan_of, ParamView, PlanView};
use crate::text::views;

verus! {

/// The records of a collection: primary id to canonical document bytes.
pub type Records = Map<Seq<char>, Seq<u8>>;

/// The records after ingest stored `doc` in a collection with primary field
/// `primary`: its bytes under its primary id, overwriting what was there; a
/// document without a primary id changes nothing.
pub open spec fn upserted(st: Records, doc: Document, primary: Seq<char>) -> Records {
    match id_of(doc.fields@, primary) {
        Some(id) => st.insert(id, doc.bytes@),
        None => st,
    }
}

/// The records after the one under `id` is deleted.
pub open spec fn deleted(st: Records, id: Seq<char>) -> Records {
    st.remove(id)
}

/// What a query gets from the records on the direct-lookup path: the bytes
/// stored under the id it names, if any.
pub open spec fn looked_up(
    st: Records,
    params: Seq<ParamView>,
    primary: Seq<char>,
    fields: Seq<Seq<char>>,
) -> Option<Seq<u8>> {
    match plan_of(params, primary, fields) {
        Ok(PlanView::Direct(id)) => if st.contains_key(id) {
            Some(st[id])
        } else {
            None
        },
        _ => None,
    }
}

/// What an index search returns for the ids that its hits carry, stale ones
/// included: each non-empty id the records hold, with its bytes, in order.
pub open spec fn fetched(st: Records, hits: Seq<Seq<char>>) -> Seq<(Seq<char>, Seq<u8>)>
    decreases hits.len(),
{
    if hits.len() == 0 {
        Seq::empty()
    } else {
        let id = hits.last();
        if id.len() > 0 && st.contains_key(id) {
            fetched(st, hits.drop_last()).push((id, st[id]))
        } else {
            fetched(st, hits.drop_last())
        }
    }
}

/// A document upserted under its primary id comes back, byte for byte, from
/// a direct lookup by that id.
pub proof fn lemma_round_trip(st: Records, doc: Document, primary: Seq<char>, fields: Seq<Seq<char>>)
    requires
        id_of(doc.fields@, primary) is Some,
    ensures
        looked_up(
            upserted(st, doc, primary),
            seq![(primary, id_of(doc.fields@, primary)->0)],
            primary,
            fields,
        ) == Some(doc.bytes@),
{
    let id = id_of(doc.fields@, primary)->0;
    let p = seq![(primary, id)];
    assert(crate::query::lookup(p, primary) == Some(id));
}

/// Upserting a second document under the same primary id replaces the
/// record: the records hold the same ids as before, so their number does not
/// grow, and the id now holds the second document.
pub proof fn lemma_overwrite(st: Records, d1: Document, d2: Document, primary: Seq<char>)
    requires
        id_of(d1.fields@, primary) is Some,
        id_of(d2.fields@, primary) == id_of(d1.fields@, primary),
    ensures
        upserted(upserted(st, d1, primary), d2, primary).dom() == upserted(st, d1, primary).dom(),
        st.dom().finite() ==> upserted(upserted(st, d1, primary), d2, primary).dom().len()
            == upserted(st, d1, primary).dom().len(),
        upserted(upserted(st, d1, primary), d2, primary)[id_of(d1.fields@, primary)->0]
            == d2.bytes@,
{
    let id = id_of(d1.fields@, primary)->0;
    assert(upserted(upserted(st, d1, primary), d2, primary).dom() =~= upserted(
        st,
        d1,
        primary,
    ).dom());
}

proof fn lemma_fetched_excludes(st: Records, hits: Seq<Seq<char>>, id: Seq<char>)
    requires
        !st.contains_key(id),
    ensures
        forall|k: int| 0 <= k < fetched(st, hits).len() ==> (#[trigger] fetched(st, hits)[k]).0 != id,
    decreases hits.len(),
{
    if hits.len() > 0 {
        lemma_fetched_excludes(st, hits.drop_last(), id);
        let prev = fetched(st, hits.drop_last());
        let h = hits.last();
        if h.len() > 0 && st.contains_key(h) {
            assert forall|k: int| 0 <= k < fetched(st, hits).len() implies (#[trigger] fetched(
                st,
                hits,
            )[k]).0 != id by {
                if k < prev.len() {
                    assert(fetched(st, hits)[k] == prev[k]);
                }
            }
        }
    }
}

/// After the record under `id` is deleted, a direct lookup by `id` finds
/// nothing, and no index search returns it, whatever ids the index still
/// carries.
pub proof fn lemma_delete_hides(
    st: Records,
    id: Seq<char>,
    primary: Seq<char>,
    fields: Seq<Seq<char>>,
    hits: Seq<Seq<char>>,
)
    ensures
        looked_up(deleted(st, id), seq![(primary, id)], primary, fields) is None,
        forall|k: int|
            0 <= k < fetched(deleted(st, id), hits).len() ==> (#[trigger] fetched(
                deleted(st, id),
                hits,
            )[k]).0 != id,
{
    let p = seq![(primary, id)];
    assert(crate::query::lookup(p, primary) == Some(id));
    lemma_fetched_excludes(deleted(st, id), hits, id);
}

/// The views of what was found for each hit.
pub open spec fn found_view(f: Seq<Option<Vec<u8>>>) -> Seq<Option<Seq<u8>>> {
    f.map_values(|o: Option<Vec<u8>>| match o {
        Some(b) => Some(b@),
        None => None,
    })
}

/// The records that hits resolve to: for each hit with a non-empty id whose
/// lookup found bytes, in order, the id and those bytes.
pub open spec fn resolved(hits: Seq<Seq<char>>, found: Seq<Option<Seq<u8>>>) -> Seq<
    (Seq<char>, Seq<u8>),
>
    decreases hits.len(),
{
    if hits.len() == 0 || found.len() == 0 {
        Seq::empty()
    } else {
        let r = resolved(hits.drop_last(), found.drop_last());
        let id = hits.last();
        if id.len() > 0 && found.last() is Some {
            r.push((id, found.last()->0))
        } else {
            r
        }
    }
}

/// The views of resolved records.
pub open spec fn records_view(v: Seq<(String, Vec<u8>)>) -> Seq<(Seq<char>, Seq<u8>)> {
    v.map_values(|p: (String, Vec<u8>)| (p.0@, p.1@))
}

/// The records that the hits of an index search resolve to, given what the
/// record store returned for each hit's id (see `resolved`).
pub fn collect_hits(hits: Vec<String>, found: Vec<Option<Vec<u8>>>) -> (r: Vec<(String, Vec<u8>)>)
    requires
        hits@.len() == found@.len(),
    ensures
        records_view(r@) == resolved(views(hits@), found_view(found@)),
{
    let ghost hv = views(hits@);
    let ghost fv = found_view(found@);
    let n = hits.len();
    let mut hs = hits;
    let mut fs = found;
    let mut out: Vec<(String, Vec<u8>)> = Vec::new();
    let mut i: usize = 0;
    assert(hv.subrange(0, 0) =~= Seq::<Seq<char>>::empty());
    assert(views(hs@) =~= hv.subrange(0, n as int));
    assert(found_view(fs@) =~= fv.subrange(0, n as int));
    while hs.len() > 0
        invariant
            hv.len() == n,
            fv.len() == n,
            i <= n,
            hs@.len() == fs@.len(),
            views(hs@) == hv.subrange(i as int, n as int),
            found_view(fs@) == fv.subrange(i as int, n as int),
            records_view(out@) == resolved(hv.subrange(0, i as int), fv.subrange(0, i as int)),
        decreases hs@.len(),
    {
        let ghost hb = hs@;
        let ghost fb = fs@;
        assert(views(hb).len() == hb.len());
        let h = hs.remove(0);
        let f = fs.remove(0);
        assert(views(hb)[0] == h@);
        assert(found_view(fb)[0] == found_view(fb)[0]);
        assert(h@ == hv[i as int]);
        let ghost fb0 = found_view(fb)[0];
        assert(fb0 == fv[i as int]);
        let ghost sh = hv.subrange(0, i + 1);
        let ghost sf = fv.subrange(0, i + 1);
        assert(sh.drop_last() =~= hv.subrange(0, i as int));
        assert(sf.drop_last() =~= fv.subrange(0, i as int));
        assert(sh.last() == h@);
        assert(sf.last() == fb0);
        let nonempty = h.as_str().unicode_len() > 0;
        match f {
            Some(b) => {
                if nonempty {
                    let ghost before = records_view(out@);
                    out.push((h, b));
                    assert(records_view(out@) =~= before.push((sh.last(), sf.last()->0)));
                }
            },
            None => {},
        }
        assert forall|k: int| 0 <= k < hs@.len() implies views(hs@)[k] == hv[i + 1 + k] by {
            assert(hs@[k] == hb[k + 1]);
            assert(views(hb)[k + 1] == hb[k + 1]@);
        }
        assert forall|k: int| 0 <= k < fs@.len() implies found_view(fs@)[k] == fv[i + 1 + k] by {
            assert(fs@[k] == fb[k + 1]);
            assert(found_view(fb)[k + 1] == fv.subrange(i as int, n as int)[k + 1]);
            assert(found_view(fs@).len() == fs@.len());
            assert(found_view(fb).len() == fb.len());
        }
        assert(views(hs@) =~= hv.subrange(i + 1, n as int));
        assert(found_view(fs@) =~= fv.subrange(i + 1, n as int));
        i = i + 1;
    }
    assert(hv.subrange(0, n as int) =~= hv);
    assert(fv.subrange(0, n as int) =~= fv);
    out
}

/// When each hit's lookup reflects the records (what they hold under a
/// non-empty id, or nothing), the hits resolve to exactly what an index
/// search returns from the records: stale hits fall away.
pub proof fn lemma_hits_from_records(st: Records, hits: Seq<Seq<char>>, found: Seq<Option<Seq<u8>>>)
    requires
        found.len() == hits.len(),
        forall|i: int|
            0 <= i < hits.len() && hits[i].len() > 0 ==> #[trigger] found[i] == (if st.contains_key(
                hits[i],
            ) {
                Some(st[hits[i]])
            } else {
                None
            }),
    ensures
        resolved(hits, found) == fetched(st, hits),
    decreases hits.len(),
{
    if hits.len() > 0 {
        let h = hits.drop_last();
        let f = found.drop_last();
        assert forall|i: int| 0 <= i < h.len() && h[i].len() > 0 implies #[trigger] f[i] == (
        if st.contains_key(h[i]) {
            Some(st[h[i]])
        } else {
            None
        }) by {
            assert(f[i] == found[i]);
            assert(h[i] == hits[i]);
        }
        lemma_hits_from_records(st, h, f);
        if hits.last().len() > 0 {
            assert(found[hits.len() - 1] == found.last());
        }
    }
}

} // verus!
