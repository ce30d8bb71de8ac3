//! What the executor does in memory with the documents a plan fetched:
//! paging bounds, numeric range filters and sorting by a field.
use vstd::prelude::*;
use crate::document::{find_key, lemma_find_key, DocField, Document, Scalar};
use crate::number::{
    all_digits, cmp_dec, cmp_decimal, dec_le, decimal_value, digits_value, is_digit,
    lemma_digits_grow, parse_decimal, reversed, DecView, Decimal, Order,
};
use crate::query::{bound_view, ranges_view, RangeFilter, RangeView};
use crate::text::{chars_of, same_text};

verus! {

/// The `usize` that `s` writes as `str::parse` reads one: an optional `+`,
/// then decimal digits, at most `usize::MAX`.
pub open spec fn usize_value(s: Seq<char>) -> Option<int> {
    let b = if s.len() > 0 && s[0] == '+' {
        s.drop_first()
    } else {
        s
    };
    if b.len() >= 1 && all_digits(b) && digits_value(b) <= usize::MAX {
        Some(digits_value(b))
    } else {
        None
    }
}

/// The `usize` that `s` writes, if any (see `usize_value`).
pub fn parse_usize(s: &str) -> (r: Option<usize>)
    ensures
        r is None <==> usize_value(s@) is None,
        r matches Some(n) ==> usize_value(s@) == Some(n as int),
{
    let cs = chars_of(s);
    let st: usize = if cs.len() > 0 && cs[0] == '+' {
        1
    } else {
        0
    };
    let ghost b = cs@.subrange(st as int, cs@.len() as int);
    assert(b =~= if s@.len() > 0 && s@[0] == '+' { s@.drop_first() } else { s@ });
    if cs.len() - st < 1 {
        return None;
    }
    let mut acc: usize = 0;
    let mut i: usize = st;
    while i < cs.len()
        invariant
            cs@ == s@,
            st <= i <= cs@.len(),
            b == cs@.subrange(st as int, cs@.len() as int),
            b == (if s@.len() > 0 && s@[0] == '+' { s@.drop_first() } else { s@ }),
            all_digits(cs@.subrange(st as int, i as int)),
            acc == digits_value(cs@.subrange(st as int, i as int)),
        decreases cs@.len() - i,
    {
        let ghost pre = cs@.subrange(st as int, i as int);
        let ghost next = cs@.subrange(st as int, i + 1);
        assert(next.drop_last() =~= pre);
        assert(next.last() == cs@[i as int]);
        let c = cs[i];
        if !('0' <= c && c <= '9') {
            assert(!is_digit(b[i - st]));
            return None;
        }
        let d = (c as u32 - '0' as u32) as usize;
        assert(digits_value(next) == acc * 10 + d);
        if acc > (usize::MAX - d) / 10 {
            proof {
                assert(acc * 10 + d > usize::MAX) by (nonlinear_arith)
                    requires
                        acc > (usize::MAX - d) / 10,
                        0 <= d <= 9,
                ;
                assert forall|x: int| 0 <= x < next.len() implies is_digit(#[trigger] next[x]) by {
                    if x < pre.len() {
                        assert(next[x] == pre[x]);
                    }
                }
                if all_digits(b) {
                    lemma_digits_grow(b, i + 1 - st);
                    assert(b.subrange(0, i + 1 - st) =~= next);
                }
            }
            return None;
        }
        acc = acc * 10 + d;
        assert forall|x: int| 0 <= x < next.len() implies is_digit(#[trigger] next[x]) by {
            if x < pre.len() {
                assert(next[x] == pre[x]);
            }
        }
        i = i + 1;
    }
    Some(acc)
}

/// The number of items a query returns at most: the `limit` parameter when
/// it reads as a `usize`, else `default_limit`; never above `max_limit`.
pub fn effective_limit(limit: Option<&str>, default_limit: usize, max_limit: usize) -> (r: usize)
    ensures
        ({
            let asked = match limit {
                Some(s) => match usize_value(s@) {
                    Some(n) => n,
                    None => default_limit as int,
                },
                None => default_limit as int,
            };
            r == if asked <= max_limit { asked } else { max_limit as int }
        }),
{
    let asked = match limit {
        Some(s) => match parse_usize(s) {
            Some(n) => n,
            None => default_limit,
        },
        None => default_limit,
    };
    if asked <= max_limit {
        asked
    } else {
        max_limit
    }
}

/// The number of items a full scan skips: the `offset` parameter when it
/// reads as a `usize`, else 0.
pub fn effective_offset(offset: Option<&str>) -> (r: usize)
    ensures
        r == match offset {
            Some(s) => match usize_value(s@) {
                Some(n) => n,
                None => 0,
            },
            None => 0,
        },
{
    match offset {
        Some(s) => match parse_usize(s) {
            Some(n) => n,
            None => 0,
        },
        None => 0,
    }
}

/// The number that a value reads as: a number, or a string that writes one.
pub open spec fn numeric(v: Scalar) -> Option<DecView> {
    match v {
        Scalar::Number(t) => decimal_value(t@),
        Scalar::Str(s) => decimal_value(s@),
        Scalar::Other => None,
    }
}

/// A document passes a range filter when it has the field, the value reads
/// as a number, and the number lies within the bounds given.
pub open spec fn passes_range(fs: Seq<DocField>, r: RangeView) -> bool {
    let k = find_key(fs, r.0);
    k >= 0 && match numeric(fs[k].value) {
        Some(v) => (r.1 matches Some(lo) ==> dec_le(lo, v)) && (r.2 matches Some(hi) ==> dec_le(v, hi)),
        None => false,
    }
}

/// A document passes every range filter.
pub open spec fn passes_all(fs: Seq<DocField>, rs: Seq<RangeView>) -> bool {
    forall|i: int| 0 <= i < rs.len() ==> passes_range(fs, #[trigger] rs[i])
}

/// The documents that pass every range filter, in order.
pub open spec fn kept(docs: Seq<Document>, rs: Seq<RangeView>) -> Seq<Document>
    decreases docs.len(),
{
    if docs.len() == 0 {
        Seq::empty()
    } else if passes_all(docs.last().fields@, rs) {
        kept(docs.drop_last(), rs).push(docs.last())
    } else {
        kept(docs.drop_last(), rs)
    }
}

fn numeric_exec(v: &Scalar) -> (r: Option<Decimal>)
    ensures
        bound_view(r) == numeric(*v),
{
    match v {
        Scalar::Number(t) => {
            let cs = chars_of(t.as_str());
            parse_decimal(cs.as_slice())
        },
        Scalar::Str(s) => {
            let cs = chars_of(s.as_str());
            parse_decimal(cs.as_slice())
        },
        Scalar::Other => None,
    }
}

fn passes_range_exec(d: &Document, r: &RangeFilter) -> (b: bool)
    ensures
        b == passes_range(d.fields@, (r.field@, bound_view(r.min), bound_view(r.max))),
{
    proof {
        lemma_find_key(d.fields@, r.field@);
    }
    match d.field(r.field.as_str()) {
        None => false,
        Some(f) => match numeric_exec(&f.value) {
            None => false,
            Some(v) => {
                let lo_ok = match r.min {
                    Some(lo) => cmp_decimal(lo, v) != Order::Greater,
                    None => true,
                };
                let hi_ok = match r.max {
                    Some(hi) => cmp_decimal(v, hi) != Order::Greater,
                    None => true,
                };
                lo_ok && hi_ok
            },
        },
    }
}

/// Whether `d` passes every range filter.
pub fn passes_ranges(d: &Document, ranges: &[RangeFilter]) -> (b: bool)
    ensures
        b == passes_all(d.fields@, ranges_view(ranges@)),
{
    let ghost rs = ranges_view(ranges@);
    let mut i: usize = 0;
    while i < ranges.len()
        invariant
            rs == ranges_view(ranges@),
            i <= ranges@.len(),
            forall|j: int| 0 <= j < i ==> passes_range(d.fields@, #[trigger] rs[j]),
        decreases ranges@.len() - i,
    {
        if !passes_range_exec(d, &ranges[i]) {
            assert(!passes_range(d.fields@, rs[i as int]));
            return false;
        }
        i = i + 1;
    }
    true
}

/// The documents that pass every range filter, in order.
pub fn apply_ranges(docs: Vec<Document>, ranges: &[RangeFilter]) -> (r: Vec<Document>)
    ensures
        r@ == kept(docs@, ranges_view(ranges@)),
{
    let ghost orig = docs@;
    let ghost rs = ranges_view(ranges@);
    let n = docs.len();
    let mut rest = docs;
    let mut out: Vec<Document> = Vec::new();
    let mut i: usize = 0;
    assert(orig.subrange(0, 0) =~= Seq::<Document>::empty());
    assert(orig.subrange(0, orig.len() as int) =~= orig);
    while rest.len() > 0
        invariant
            i <= orig.len(),
            orig.len() == n,
            rest@ == orig.subrange(i as int, orig.len() as int),
            out@ == kept(orig.subrange(0, i as int), rs),
            rs == ranges_view(ranges@),
        decreases rest@.len(),
    {
        let d = rest.remove(0);
        assert(d == orig[i as int]);
        let ghost sub = orig.subrange(0, i + 1);
        assert(sub.drop_last() =~= orig.subrange(0, i as int));
        assert(sub.last() == d);
        if passes_ranges(&d, ranges) {
            out.push(d);
        }
        assert(rest@ =~= orig.subrange(i + 1, orig.len() as int));
        i = i + 1;
    }
    assert(orig.subrange(0, i as int) =~= orig);
    out
}

/// Compares two strings character by character, a prefix first.
pub open spec fn cmp_text(a: Seq<char>, b: Seq<char>) -> Order
    decreases a.len(),
{
    if a.len() == 0 && b.len() == 0 {
        Order::Equal
    } else if a.len() == 0 {
        Order::Less
    } else if b.len() == 0 {
        Order::Greater
    } else if a[0] < b[0] {
        Order::Less
    } else if a[0] > b[0] {
        Order::Greater
    } else {
        cmp_text(a.drop_first(), b.drop_first())
    }
}

/// The order of two values of the sort field: two numbers by value (one
/// that cannot be read counts as zero); two
/// strings by value when both write numbers, else as text; a value before a
/// missing one; anything else equal.
pub open spec fn cmp_values(a: Option<Scalar>, b: Option<Scalar>) -> Order {
    match (a, b) {
        (Some(Scalar::Number(x)), Some(Scalar::Number(y))) => cmp_dec(
            match decimal_value(x@) {
                Some(v) => v,
                None => (0, 0),
            },
            match decimal_value(y@) {
                Some(v) => v,
                None => (0, 0),
            },
        ),
        (Some(Scalar::Str(x)), Some(Scalar::Str(y))) => match (decimal_value(x@), decimal_value(y@)) {
            (Some(m), Some(n)) => cmp_dec(m, n),
            _ => cmp_text(x@, y@),
        },
        (Some(_), None) => Order::Less,
        (None, Some(_)) => Order::Greater,
        _ => Order::Equal,
    }
}

/// The value of `field` in a document, if it has that field.
pub open spec fn value_at(fs: Seq<DocField>, field: Seq<char>) -> Option<Scalar> {
    let k = find_key(fs, field);
    if k >= 0 {
        Some(fs[k].value)
    } else {
        None
    }
}

/// The order of two documents by `field`, reversed when `desc`.
#[verifier::opaque]
pub open spec fn doc_order(a: Document, b: Document, field: Seq<char>, desc: bool) -> Order {
    let c = cmp_values(value_at(a.fields@, field), value_at(b.fields@, field));
    if !desc {
        c
    } else {
        match c {
            Order::Less => Order::Greater,
            Order::Greater => Order::Less,
            Order::Equal => Order::Equal,
        }
    }
}

/// `x` placed into `s` after the last document that does not come after it.
pub open spec fn insert_sorted(s: Seq<Document>, x: Document, field: Seq<char>, desc: bool) -> Seq<
    Document,
>
    decreases s.len(),
{
    if s.len() == 0 {
        seq![x]
    } else if doc_order(s.last(), x, field, desc) == Order::Greater {
        insert_sorted(s.drop_last(), x, field, desc).push(s.last())
    } else {
        s.push(x)
    }
}

/// The documents stably sorted by `field`: each placed, in turn, after those
/// before it that do not come after it.
pub open spec fn sorted_by(s: Seq<Document>, field: Seq<char>, desc: bool) -> Seq<Document>
    decreases s.len(),
{
    if s.len() == 0 {
        Seq::empty()
    } else {
        insert_sorted(sorted_by(s.drop_last(), field, desc), s.last(), field, desc)
    }
}

fn cmp_text_exec(a: &[char], b: &[char]) -> (r: Order)
    ensures
        r == cmp_text(a@, b@),
{
    let mut i: usize = 0;
    assert(a@.subrange(0, a@.len() as int) =~= a@);
    assert(b@.subrange(0, b@.len() as int) =~= b@);
    while i < a.len() && i < b.len() && a[i] == b[i]
        invariant
            i <= a@.len(),
            i <= b@.len(),
            cmp_text(a@, b@) == cmp_text(
                a@.subrange(i as int, a@.len() as int),
                b@.subrange(i as int, b@.len() as int),
            ),
        decreases a@.len() - i,
    {
        let ghost sa = a@.subrange(i as int, a@.len() as int);
        let ghost sb = b@.subrange(i as int, b@.len() as int);
        assert(sa.drop_first() =~= a@.subrange(i + 1, a@.len() as int));
        assert(sb.drop_first() =~= b@.subrange(i + 1, b@.len() as int));
        assert(sa[0] == a@[i as int] && sb[0] == b@[i as int]);
        i = i + 1;
    }
    let ghost sa = a@.subrange(i as int, a@.len() as int);
    let ghost sb = b@.subrange(i as int, b@.len() as int);
    if i == a.len() && i == b.len() {
        Order::Equal
    } else if i == a.len() {
        Order::Less
    } else if i == b.len() {
        Order::Greater
    } else {
        assert(sa[0] == a@[i as int] && sb[0] == b@[i as int]);
        if a[i] < b[i] {
            Order::Less
        } else {
            Order::Greater
        }
    }
}

fn cmp_values_exec(a: Option<&Scalar>, b: Option<&Scalar>) -> (r: Order)
    ensures
        r == cmp_values(opt_scalar(a), opt_scalar(b)),
{
    match (a, b) {
        (Some(Scalar::Number(x)), Some(Scalar::Number(y))) => {
            let xc = chars_of(x.as_str());
            let yc = chars_of(y.as_str());
            let zero = Decimal { negative: false, mantissa: 0, exponent: 0 };
            let xv = match parse_decimal(xc.as_slice()) {
                Some(v) => v,
                None => zero,
            };
            let yv = match parse_decimal(yc.as_slice()) {
                Some(v) => v,
                None => zero,
            };
            cmp_decimal(xv, yv)
        },
        (Some(Scalar::Str(x)), Some(Scalar::Str(y))) => {
            let xc = chars_of(x.as_str());
            let yc = chars_of(y.as_str());
            match (parse_decimal(xc.as_slice()), parse_decimal(yc.as_slice())) {
                (Some(m), Some(n)) => cmp_decimal(m, n),
                _ => cmp_text_exec(xc.as_slice(), yc.as_slice()),
            }
        },
        (Some(_), None) => Order::Less,
        (None, Some(_)) => Order::Greater,
        _ => Order::Equal,
    }
}

/// The value that an optional reference points to.
pub open spec fn opt_scalar(a: Option<&Scalar>) -> Option<Scalar> {
    match a {
        Some(v) => Some(*v),
        None => None,
    }
}

fn value_exec<'a>(d: &'a Document, field: &str) -> (r: Option<&'a Scalar>)
    ensures
        opt_scalar(r) == value_at(d.fields@, field@),
{
    proof {
        lemma_find_key(d.fields@, field@);
    }
    match d.field(field) {
        Some(f) => Some(&f.value),
        None => None,
    }
}

fn doc_order_exec(a: &Document, b: &Document, field: &str, desc: bool) -> (r: Order)
    ensures
        r == doc_order(*a, *b, field@, desc),
{
    reveal(doc_order);
    let c = cmp_values_exec(value_exec(a, field), value_exec(b, field));
    if !desc {
        c
    } else {
        match c {
            Order::Less => Order::Greater,
            Order::Greater => Order::Less,
            Order::Equal => Order::Equal,
        }
    }
}

proof fn lemma_insert_at(s: Seq<Document>, x: Document, field: Seq<char>, desc: bool, j: int)
    requires
        0 <= j <= s.len(),
        forall|m: int| j <= m < s.len() ==> doc_order(#[trigger] s[m], x, field, desc) == Order::Greater,
        j > 0 ==> doc_order(s[j - 1], x, field, desc) != Order::Greater,
    ensures
        insert_sorted(s, x, field, desc) == s.insert(j, x),
    decreases s.len(),
{
    if s.len() == 0 {
        assert(s.insert(j, x) =~= seq![x]);
    } else if j == s.len() {
        assert(s.insert(j, x) =~= s.push(x));
    } else {
        assert(doc_order(s[s.len() - 1], x, field, desc) == Order::Greater);
        let d = s.drop_last();
        assert forall|m: int| j <= m < d.len() implies doc_order(#[trigger] d[m], x, field, desc)
            == Order::Greater by {
            assert(d[m] == s[m]);
        }
        if j > 0 {
            assert(d[j - 1] == s[j - 1]);
        }
        lemma_insert_at(d, x, field, desc, j);
        assert(d.insert(j, x).push(s.last()) =~= s.insert(j, x));
    }
}

/// The documents stably sorted by `field`, in descending order when `desc`
/// (see `sorted_by`).
pub fn sort_documents(docs: Vec<Document>, field: &str, desc: bool) -> (r: Vec<Document>)
    ensures
        r@ == sorted_by(docs@, field@, desc),
{
    let ghost orig = docs@;
    let n = docs.len();
    let mut rest = docs;
    let mut out: Vec<Document> = Vec::new();
    let mut i: usize = 0;
    assert(orig.subrange(0, 0) =~= Seq::<Document>::empty());
    assert(orig.subrange(0, orig.len() as int) =~= orig);
    while rest.len() > 0
        invariant
            orig.len() == n,
            i <= orig.len(),
            rest@ == orig.subrange(i as int, orig.len() as int),
            out@ == sorted_by(orig.subrange(0, i as int), field@, desc),
        decreases rest@.len(),
    {
        let x = rest.remove(0);
        assert(x == orig[i as int]);
        let ghost sub = orig.subrange(0, i + 1);
        assert(sub.drop_last() =~= orig.subrange(0, i as int));
        assert(sub.last() == x);
        let mut j: usize = out.len();
        while j > 0 && doc_order_exec(&out[j - 1], &x, field, desc) == Order::Greater
            invariant
                j <= out@.len(),
                forall|m: int|
                    j <= m < out@.len() ==> doc_order(#[trigger] out@[m], x, field@, desc)
                        == Order::Greater,
            decreases j,
        {
            j = j - 1;
        }
        proof {
            lemma_insert_at(out@, x, field@, desc, j as int);
        }
        out.insert(j, x);
        assert(rest@ =~= orig.subrange(i + 1, orig.len() as int));
        i = i + 1;
    }
    assert(orig.subrange(0, i as int) =~= orig);
    out
}

/// Whether the `sort_order` parameter asks for descending order: only the
/// value `desc` does; ascending is the default.
pub fn is_descending(sort_order: Option<&str>) -> (r: bool)
    ensures
        r == (crate::registry::opt_view(sort_order) == Some("desc"@)),
{
    match sort_order {
        Some(o) => same_text(o, "desc"),
        None => false,
    }
}

/// What a full scan does with a record.
#[derive(Clone, Copy, Debug, PartialEq, Eq, Structural)]
pub enum ScanStep {
    /// The record comes before the offset.
    Skip,
    /// The record is part of the page.
    Take,
    /// The page is full: no later record is taken.
    Stop,
}

/// What a full scan does with the record at position `index` (from 0) in
/// key order: skip the first `offset`, take the next `limit`, then stop.
pub fn scan_step(index: usize, offset: usize, limit: usize) -> (r: ScanStep)
    ensures
        r == ScanStep::Skip <==> index < offset,
        r == ScanStep::Take <==> offset <= index < offset + limit,
        r == ScanStep::Stop <==> offset + limit <= index,
{
    if index < offset {
        ScanStep::Skip
    } else if index - offset < limit {
        ScanStep::Take
    } else {
        ScanStep::Stop
    }
}

proof fn lemma_cmp_text_antisym(a: Seq<char>, b: Seq<char>)
    ensures
        cmp_text(a, b) == reversed(cmp_text(b, a)),
    decreases a.len(),
{
    if a.len() > 0 && b.len() > 0 && a[0] == b[0] {
        lemma_cmp_text_antisym(a.drop_first(), b.drop_first());
    }
}

proof fn lemma_cmp_dec_antisym(a: DecView, b: DecView)
    ensures
        cmp_dec(a, b) == reversed(cmp_dec(b, a)),
{
}

proof fn lemma_doc_order_antisym(a: Document, b: Document, field: Seq<char>, desc: bool)
    ensures
        doc_order(a, b, field, desc) == reversed(doc_order(b, a, field, desc)),
{
    reveal(doc_order);
    let va = value_at(a.fields@, field);
    let vb = value_at(b.fields@, field);
    match (va, vb) {
        (Some(Scalar::Number(x)), Some(Scalar::Number(y))) => {
            lemma_cmp_dec_antisym(
                match decimal_value(x@) {
                    Some(v) => v,
                    None => (0, 0),
                },
                match decimal_value(y@) {
                    Some(v) => v,
                    None => (0, 0),
                },
            );
        },
        (Some(Scalar::Str(x)), Some(Scalar::Str(y))) => {
            lemma_cmp_text_antisym(x@, y@);
            match (decimal_value(x@), decimal_value(y@)) {
                (Some(m), Some(n)) => lemma_cmp_dec_antisym(m, n),
                _ => {},
            }
        },
        _ => {},
    }
}

/// Every two neighbours are in order: the first does not come after the second.
#[verifier::opaque]
pub open spec fn in_order(s: Seq<Document>, field: Seq<char>, desc: bool) -> bool {
    forall|i: int|
        0 <= i < s.len() - 1 ==> doc_order(#[trigger] s[i], s[i + 1], field, desc)
            != Order::Greater
}

proof fn lemma_drop_last_in_order(s: Seq<Document>, field: Seq<char>, desc: bool)
    requires
        s.len() > 0,
        in_order(s, field, desc),
    ensures
        in_order(s.drop_last(), field, desc),
{
    reveal(in_order);
    let d = s.drop_last();
    assert forall|i: int| 0 <= i < d.len() - 1 implies doc_order(
        #[trigger] d[i],
        d[i + 1],
        field,
        desc,
    ) != Order::Greater by {
        assert(d[i] == s[i] && d[i + 1] == s[i + 1]);
    }
}

proof fn lemma_push_in_order(s: Seq<Document>, x: Document, field: Seq<char>, desc: bool)
    requires
        in_order(s, field, desc),
        s.len() > 0 ==> doc_order(s.last(), x, field, desc) != Order::Greater,
    ensures
        in_order(s.push(x), field, desc),
{
    reveal(in_order);
    let r = s.push(x);
    assert forall|i: int| 0 <= i < r.len() - 1 implies doc_order(
        #[trigger] r[i],
        r[i + 1],
        field,
        desc,
    ) != Order::Greater by {
        if i < s.len() - 1 {
            assert(r[i] == s[i] && r[i + 1] == s[i + 1]);
        } else {
            assert(r[i] == s.last() && r[i + 1] == x);
        }
    }
}

proof fn lemma_in_order_at(s: Seq<Document>, i: int, field: Seq<char>, desc: bool)
    requires
        in_order(s, field, desc),
        0 <= i < s.len() - 1,
    ensures
        doc_order(s[i], s[i + 1], field, desc) != Order::Greater,
{
    reveal(in_order);
}

proof fn lemma_insert_in_order(s: Seq<Document>, x: Document, field: Seq<char>, desc: bool)
    requires
        in_order(s, field, desc),
    ensures
        in_order(insert_sorted(s, x, field, desc), field, desc),
        insert_sorted(s, x, field, desc).len() == s.len() + 1,
        insert_sorted(s, x, field, desc).last() == x || (s.len() > 0 && insert_sorted(
            s,
            x,
            field,
            desc,
        ).last() == s.last()),
    decreases s.len(),
{
    if s.len() == 0 {
        assert(insert_sorted(s, x, field, desc) == seq![x]);
        reveal(in_order);
    } else if doc_order(s.last(), x, field, desc) == Order::Greater {
        let d = s.drop_last();
        lemma_drop_last_in_order(s, field, desc);
        lemma_insert_in_order(d, x, field, desc);
        let r1 = insert_sorted(d, x, field, desc);
        assert(insert_sorted(s, x, field, desc) == r1.push(s.last()));
        lemma_doc_order_antisym(x, s.last(), field, desc);
        if r1.last() != x {
            assert(d.last() == s[s.len() - 2]);
            lemma_in_order_at(s, s.len() - 2, field, desc);
        }
        lemma_push_in_order(r1, s.last(), field, desc);
    } else {
        assert(insert_sorted(s, x, field, desc) == s.push(x));
        lemma_push_in_order(s, x, field, desc);
    }
}

/// Sorting puts every two neighbours in order: by the field's order (or its
/// reverse when `desc`), no document comes after the one that follows it.
pub proof fn lemma_sorted_in_order(s: Seq<Document>, field: Seq<char>, desc: bool)
    ensures
        in_order(sorted_by(s, field, desc), field, desc),
        sorted_by(s, field, desc).len() == s.len(),
    decreases s.len(),
{
    if s.len() == 0 {
        reveal(in_order);
    } else {
        lemma_sorted_in_order(s.drop_last(), field, desc);
        lemma_insert_in_order(sorted_by(s.drop_last(), field, desc), s.last(), field, desc);
    }
}

} // verus!
