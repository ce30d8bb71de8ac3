//! The query planner: which execution path a request's parameters choose,
//! the search query it sends to the index, and the range filters applied to
//! what comes back.
use vstd::prelude::*;
use crate::fields::{declared_names, field_names};
use crate::number::{dec_view, decimal_value, parse_decimal, DecView, Decimal};
use crate::text::{append_chars, chars_of, has_prefix, same_text, starts_with, string_from_chars, views};

verus! {

/// A query parameter, as a key and its value.
pub type ParamView = (Seq<char>, Seq<char>);

/// The views of query parameters.
pub open spec fn params_view(p: Seq<(String, String)>) -> Seq<ParamView> {
    p.map_values(|kv: (String, String)| (kv.0@, kv.1@))
}

/// The value of the first parameter named `key`.
pub open spec fn lookup_from(p: Seq<ParamView>, key: Seq<char>, i: int) -> Option<Seq<char>>
    decreases p.len() - i,
{
    if i < 0 || i >= p.len() {
        None
    } else if p[i].0 == key {
        Some(p[i].1)
    } else {
        lookup_from(p, key, i + 1)
    }
}

/// The value of the parameter named `key`, if any.
pub open spec fn lookup(p: Seq<ParamView>, key: Seq<char>) -> Option<Seq<char>> {
    lookup_from(p, key, 0)
}

/// Parameters that steer paging, sorting and free text rather than filter.
pub open spec fn is_reserved(k: Seq<char>) -> bool {
    k == "limit"@ || k == "offset"@ || k == "sort_by"@ || k == "sort_order"@ || k == "q"@
}

/// A numeric range filter on a field: the bounds given.
pub type RangeView = (Seq<char>, Option<DecView>, Option<DecView>);

/// A numeric range filter on a field.
#[derive(Debug)]
pub struct RangeFilter {
    pub field: String,
    pub min: Option<Decimal>,
    pub max: Option<Decimal>,
}

/// The view of an optional decimal.
pub open spec fn bound_view(d: Option<Decimal>) -> Option<DecView> {
    match d {
        Some(x) => Some(dec_view(x)),
        None => None,
    }
}

/// The views of range filters.
pub open spec fn ranges_view(r: Seq<RangeFilter>) -> Seq<RangeView> {
    r.map_values(|f: RangeFilter| (f.field@, bound_view(f.min), bound_view(f.max)))
}

/// The position of the first filter on `field` at or after `i`, or -1.
pub open spec fn range_pos(r: Seq<RangeView>, field: Seq<char>, i: int) -> int
    decreases r.len() - i,
{
    if i < 0 || i >= r.len() {
        -1
    } else if r[i].0 == field {
        i
    } else {
        range_pos(r, field, i + 1)
    }
}

/// `r` with a lower (`is_min`) or upper bound `v` set on `field`: on its
/// filter if it has one, else on a new filter at the end.
pub open spec fn with_bound(r: Seq<RangeView>, field: Seq<char>, is_min: bool, v: DecView) -> Seq<
    RangeView,
> {
    let k = range_pos(r, field, 0);
    if k >= 0 {
        if is_min {
            r.update(k, (field, Some(v), r[k].2))
        } else {
            r.update(k, (field, r[k].1, Some(v)))
        }
    } else if is_min {
        r.push((field, Some(v), None))
    } else {
        r.push((field, None, Some(v)))
    }
}

/// The clause that matches `v` exactly in the field `k`: `k:"v"`.
pub open spec fn clause(k: Seq<char>, v: Seq<char>) -> Seq<char> {
    k + seq![':', '"'] + v + seq!['"']
}

/// What the filter parameters seen so far ask for: whether there is any, the
/// clauses of the search query, and the range filters.
pub type Scan = (bool, Seq<Seq<char>>, Seq<RangeView>);

/// One parameter taken into account; `Err` with the field name when the
/// parameter filters on a field that is not an index field, that is, on no
/// name that the index field declarations give (`price` for `price:f64`).
pub open spec fn scan_step(st: Scan, kv: ParamView, fields: Seq<Seq<char>>) -> Result<
    Scan,
    Seq<char>,
> {
    let k = kv.0;
    let v = kv.1;
    if is_reserved(k) {
        Ok(st)
    } else if has_prefix(k, "filter_min_"@) || has_prefix(k, "filter_max_"@) {
        let is_min = has_prefix(k, "filter_min_"@);
        let x = k.subrange("filter_min_"@.len() as int, k.len() as int);
        if !field_names(fields).contains(x) {
            Err(x)
        } else {
            Ok(
                (
                    true,
                    st.1,
                    match decimal_value(v) {
                        Some(d) => with_bound(st.2, x, is_min, d),
                        None => st.2,
                    },
                ),
            )
        }
    } else if !field_names(fields).contains(k) {
        Err(k)
    } else {
        Ok((true, st.1.push(clause(k, v)), st.2))
    }
}

/// The parameters taken into account in order, stopping at the first error.
pub open spec fn scan(p: Seq<ParamView>, fields: Seq<Seq<char>>) -> Result<Scan, Seq<char>>
    decreases p.len(),
{
    if p.len() == 0 {
        Ok((false, Seq::empty(), Seq::empty()))
    } else {
        match scan(p.drop_last(), fields) {
            Ok(st) => scan_step(st, p.last(), fields),
            Err(e) => Err(e),
        }
    }
}

/// The clauses joined by ` AND `.
pub open spec fn join_and(parts: Seq<Seq<char>>) -> Seq<char>
    decreases parts.len(),
{
    if parts.len() == 0 {
        Seq::empty()
    } else if parts.len() == 1 {
        parts[0]
    } else {
        join_and(parts.drop_last()) + " AND "@ + parts.last()
    }
}

/// The execution path of a query, as plain values.
pub ghost enum PlanView {
    Direct(Seq<char>),
    Search(Seq<char>, Seq<RangeView>),
    Scan,
}

/// The plan for a query on a collection with primary field `primary` and
/// index field declarations `fields`: a direct lookup when the primary field
/// is a parameter; else an index search when any filter parameter or `q` is
/// there, its query the clauses joined by ` AND ` with `q` last, or `*`; else
/// a full scan. `Err` names the first filter field that is not an index field.
pub open spec fn plan_of(p: Seq<ParamView>, primary: Seq<char>, fields: Seq<Seq<char>>) -> Result<
    PlanView,
    Seq<char>,
> {
    match lookup(p, primary) {
        Some(id) => Ok(PlanView::Direct(id)),
        None => match scan(p, fields) {
            Err(e) => Err(e),
            Ok(st) => {
                let parts = match lookup(p, "q"@) {
                    Some(q) => st.1.push(q),
                    None => st.1,
                };
                let has = st.0 || lookup(p, "q"@) is Some;
                if has {
                    Ok(
                        PlanView::Search(
                            if parts.len() == 0 {
                                "*"@
                            } else {
                                join_and(parts)
                            },
                            st.2,
                        ),
                    )
                } else {
                    Ok(PlanView::Scan)
                }
            },
        },
    }
}

/// The execution path of a query.
#[derive(Debug)]
pub enum QueryPlan {
    /// Fetch the record stored under `id`.
    DirectLookup { id: String },
    /// Search the index with `query`, then keep what the range filters admit.
    IndexSearch { query: String, ranges: Vec<RangeFilter> },
    /// Walk the records in key order.
    FullScan,
}

impl QueryPlan {
    pub open spec fn view(&self) -> PlanView {
        match self {
            QueryPlan::DirectLookup { id } => PlanView::Direct(id@),
            QueryPlan::IndexSearch { query, ranges } => PlanView::Search(query@, ranges_view(ranges@)),
            QueryPlan::FullScan => PlanView::Scan,
        }
    }
}

/// Why a query is refused.
#[derive(Debug)]
pub enum QueryError {
    /// The query filters on this field, which is not an index field.
    NotIndexed(String),
}

/// The view of a planning outcome.
pub open spec fn outcome_view(r: Result<QueryPlan, QueryError>) -> Result<PlanView, Seq<char>> {
    match r {
        Ok(p) => Ok(p.view()),
        Err(QueryError::NotIndexed(f)) => Err(f@),
    }
}

proof fn lemma_scan_err(p: Seq<ParamView>, fields: Seq<Seq<char>>, j: int, e: Seq<char>)
    requires
        0 <= j <= p.len(),
        scan(p.subrange(0, j), fields) == Err::<Scan, Seq<char>>(e),
    ensures
        scan(p, fields) == Err::<Scan, Seq<char>>(e),
    decreases p.len() - j,
{
    if j == p.len() {
        assert(p.subrange(0, j) =~= p);
    } else {
        let sub = p.subrange(0, j + 1);
        assert(sub.drop_last() =~= p.subrange(0, j));
        lemma_scan_err(p, fields, j + 1, e);
    }
}

/// The value of the first parameter named `key`.
pub fn param<'a>(params: &'a [(String, String)], key: &str) -> (r: Option<&'a String>)
    ensures
        r is None <==> lookup(params_view(params@), key@) is None,
        r matches Some(v) ==> lookup(params_view(params@), key@) == Some(v@),
{
    let ghost p = params_view(params@);
    let mut i: usize = 0;
    while i < params.len()
        invariant
            p == params_view(params@),
            i <= params@.len(),
            lookup(p, key@) == lookup_from(p, key@, i as int),
        decreases params@.len() - i,
    {
        if same_text(params[i].0.as_str(), key) {
            return Some(&params[i].1);
        }
        i = i + 1;
    }
    None
}

fn is_reserved_exec(k: &str) -> (r: bool)
    ensures
        r == is_reserved(k@),
{
    same_text(k, "limit") || same_text(k, "offset") || same_text(k, "sort_by") || same_text(
        k,
        "sort_order",
    ) || same_text(k, "q")
}

fn contains_text(fields: &[String], x: &str) -> (r: bool)
    ensures
        r == views(fields@).contains(x@),
{
    let mut i: usize = 0;
    while i < fields.len()
        invariant
            i <= fields@.len(),
            forall|j: int| 0 <= j < i ==> fields@[j]@ != x@,
        decreases fields@.len() - i,
    {
        if same_text(fields[i].as_str(), x) {
            assert(views(fields@)[i as int] == x@);
            return true;
        }
        i = i + 1;
    }
    assert(!views(fields@).contains(x@)) by {
        if views(fields@).contains(x@) {
            let j = choose|j: int| 0 <= j < views(fields@).len() && views(fields@)[j] == x@;
            assert(fields@[j]@ == x@);
        }
    }
    false
}

/// Sets a bound on the filter of `field`, adding the filter when needed.
fn set_bound(ranges: &mut Vec<RangeFilter>, field: &str, is_min: bool, v: Decimal)
    ensures
        ranges_view(final(ranges)@) == with_bound(ranges_view(old(ranges)@), field@, is_min, dec_view(v)),
{
    let ghost r = ranges_view(ranges@);
    let mut i: usize = 0;
    while i < ranges.len()
        invariant
            r == ranges_view(ranges@),
            r == ranges_view(old(ranges)@),
            i <= ranges@.len(),
            range_pos(r, field@, 0) == range_pos(r, field@, i as int),
        decreases ranges@.len() - i,
    {
        if same_text(ranges[i].field.as_str(), field) {
            if is_min {
                ranges[i].min = Some(v);
            } else {
                ranges[i].max = Some(v);
            }
            assert(ranges_view(ranges@) =~= with_bound(r, field@, is_min, dec_view(v)));
            return;
        }
        i = i + 1;
    }
    let f = if is_min {
        RangeFilter { field: String::from_str(field), min: Some(v), max: None }
    } else {
        RangeFilter { field: String::from_str(field), min: None, max: Some(v) }
    };
    ranges.push(f);
    assert(ranges_view(ranges@) =~= with_bound(r, field@, is_min, dec_view(v)));
}

/// The search-query clause `k:"v"`.
fn clause_exec(k: &str, v: &str) -> (r: String)
    ensures
        r@ == clause(k@, v@),
{
    let mut cs = chars_of(k);
    cs.push(':');
    cs.push('"');
    let vc = chars_of(v);
    append_chars(&mut cs, vc.as_slice());
    cs.push('"');
    assert(cs@ =~= clause(k@, v@));
    string_from_chars(cs.as_slice())
}

/// The clauses joined by ` AND `.
fn join_clauses(parts: &[String]) -> (r: String)
    ensures
        r@ == join_and(views(parts@)),
{
    let mut cs: Vec<char> = Vec::new();
    let sep = chars_of(" AND ");
    let mut i: usize = 0;
    while i < parts.len()
        invariant
            i <= parts@.len(),
            sep@ == " AND "@,
            cs@ == join_and(views(parts@).subrange(0, i as int)),
        decreases parts@.len() - i,
    {
        let ghost sub = views(parts@).subrange(0, i + 1);
        assert(sub.drop_last() =~= views(parts@).subrange(0, i as int));
        assert(sub.last() == parts@[i as int]@);
        if i > 0 {
            append_chars(&mut cs, sep.as_slice());
        } else {
            assert(sub.len() == 1);
            assert(views(parts@).subrange(0, 0).len() == 0);
            assert(cs@ =~= Seq::<char>::empty());
        }
        let pc = chars_of(parts[i].as_str());
        append_chars(&mut cs, pc.as_slice());
        if i == 0 {
            assert(cs@ =~= sub[0]);
        }
        i = i + 1;
    }
    assert(views(parts@).subrange(0, parts@.len() as int) =~= views(parts@));
    string_from_chars(cs.as_slice())
}

/// The plan for a query with parameters `params` on a collection whose
/// primary field is `primary` and whose index field declarations are
/// `index_fields` (see `plan_of`).
pub fn plan_query(params: &[(String, String)], primary: &str, index_fields: &[String]) -> (r:
    Result<QueryPlan, QueryError>)
    ensures
        outcome_view(r) == plan_of(params_view(params@), primary@, views(index_fields@)),
{
    let ghost p = params_view(params@);
    let ghost fields = views(index_fields@);
    match param(params, primary) {
        Some(id) => {
            return Ok(QueryPlan::DirectLookup { id: id.clone() });
        },
        None => {},
    }
    let names = declared_names(index_fields);
    let min_prefix = chars_of("filter_min_");
    let max_prefix = chars_of("filter_max_");
    proof {
        reveal_strlit("filter_min_");
        reveal_strlit("filter_max_");
    }
    let mut has = false;
    let mut parts: Vec<String> = Vec::new();
    let mut ranges: Vec<RangeFilter> = Vec::new();
    let mut i: usize = 0;
    assert(views(parts@) =~= Seq::<Seq<char>>::empty());
    assert(ranges_view(ranges@) =~= Seq::<RangeView>::empty());
    assert(p.subrange(0, 0) =~= Seq::<ParamView>::empty());
    while i < params.len()
        invariant
            p == params_view(params@),
            fields == views(index_fields@),
            views(names@) == field_names(fields),
            "filter_min_"@.len() == 11,
            "filter_max_"@.len() == 11,
            lookup(p, primary@) is None,
            min_prefix@ == "filter_min_"@,
            max_prefix@ == "filter_max_"@,
            i <= params@.len(),
            scan(p.subrange(0, i as int), fields) == Ok::<Scan, Seq<char>>(
                (has, views(parts@), ranges_view(ranges@)),
            ),
        decreases params@.len() - i,
    {
        let ghost sub = p.subrange(0, i + 1);
        assert(sub.drop_last() =~= p.subrange(0, i as int));
        assert(sub.last() == p[i as int]);
        let k = &params[i].0;
        let v = &params[i].1;
        assert(p[i as int] == (k@, v@));
        let kc = chars_of(k.as_str());
        if is_reserved_exec(k.as_str()) {
        } else {
            let is_min = starts_with(kc.as_slice(), min_prefix.as_slice());
            let is_max = starts_with(kc.as_slice(), max_prefix.as_slice());
            if is_min || is_max {
                let x = k.as_str().substring_char(11, kc.len());
                if !contains_text(names.as_slice(), x) {
                    proof {
                        lemma_scan_err(p, fields, i + 1, x@);
                    }
                    return Err(QueryError::NotIndexed(String::from_str(x)));
                }
                let vc = chars_of(v.as_str());
                match parse_decimal(vc.as_slice()) {
                    Some(d) => set_bound(&mut ranges, x, is_min, d),
                    None => {},
                }
                has = true;
            } else {
                if !contains_text(names.as_slice(), k.as_str()) {
                    proof {
                        lemma_scan_err(p, fields, i + 1, k@);
                    }
                    return Err(QueryError::NotIndexed(k.clone()));
                }
                let c = clause_exec(k.as_str(), v.as_str());
                let ghost before = views(parts@);
                parts.push(c);
                assert(views(parts@) =~= before.push(c@));
                has = true;
            }
        }
        i = i + 1;
    }
    assert(p.subrange(0, p.len() as int) =~= p);
    match param(params, "q") {
        Some(q) => {
            let ghost before = views(parts@);
            parts.push(q.clone());
            assert(views(parts@) =~= before.push(q@));
            has = true;
        },
        None => {},
    }
    if has {
        let query = if parts.len() == 0 {
            String::from_str("*")
        } else {
            join_clauses(parts.as_slice())
        };
        Ok(QueryPlan::IndexSearch { query, ranges })
    } else {
        Ok(QueryPlan::FullScan)
    }
}

/// The field a filter parameter names: what follows `filter_min_` or
/// `filter_max_`, else the key itself.
pub open spec fn filtered_field(k: Seq<char>) -> Seq<char> {
    if has_prefix(k, "filter_min_"@) || has_prefix(k, "filter_max_"@) {
        k.subrange("filter_min_"@.len() as int, k.len() as int)
    } else {
        k
    }
}

/// A query without the primary field that filters on a field that is not an
/// index field is refused, whatever its other parameters.
pub proof fn lemma_unindexed_refused(
    p: Seq<ParamView>,
    primary: Seq<char>,
    fields: Seq<Seq<char>>,
    j: int,
)
    requires
        0 <= j < p.len(),
        lookup(p, primary) is None,
        !is_reserved(p[j].0),
        !field_names(fields).contains(filtered_field(p[j].0)),
    ensures
        plan_of(p, primary, fields) is Err,
{
    let sub = p.subrange(0, j + 1);
    assert(sub.drop_last() =~= p.subrange(0, j));
    assert(sub.last() == p[j]);
    match scan(p.subrange(0, j), fields) {
        Err(e) => {
            lemma_scan_err(p, fields, j, e);
        },
        Ok(st) => {
            let e = filtered_field(p[j].0);
            assert(scan(sub, fields) == Err::<Scan, Seq<char>>(e));
            lemma_scan_err(p, fields, j + 1, e);
        },
    }
}

} // verus!
