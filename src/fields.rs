//! Index field declarations (`name[:type]`) and the layout of a collection's
//! search-index schema derived from them.
use vstd::prelude::*;
use vstd::string::*;
use crate::text::{append_chars, chars_of, string_from_chars, views};

verus! {

/// The type of a field of the search index.
#[derive(Clone, Copy, Debug, PartialEq, Eq, Structural)]
pub enum FieldKind {
    Text,
    U64,
    I64,
    F64,
    Date,
    Bool,
    Bytes,
    Other,
}

/// One field of a search-index schema: its name, its type, and its options.
#[derive(Debug)]
pub struct FieldDef {
    pub name: String,
    pub kind: FieldKind,
    /// The value is stored and comes back with a hit.
    pub stored: bool,
    /// The field is searchable.
    pub indexed: bool,
    /// The field has a column for fast access.
    pub fast: bool,
    /// The index records term positions, so phrases can be searched.
    pub positions: bool,
    /// The tokenizer that splits the text of an indexed text field.
    pub tokenizer: Option<String>,
}

/// What a field of a schema is, as plain values: name, type, stored,
/// indexed, fast, positions, tokenizer.
pub type EntryView = (Seq<char>, FieldKind, bool, bool, bool, bool, Option<Seq<char>>);

/// The view of an optional string.
pub open spec fn opt_string_view(o: Option<String>) -> Option<Seq<char>> {
    match o {
        Some(s) => Some(s@),
        None => None,
    }
}

impl View for FieldDef {
    type V = EntryView;

    open spec fn view(&self) -> EntryView {
        (
            self.name@,
            self.kind,
            self.stored,
            self.indexed,
            self.fast,
            self.positions,
            opt_string_view(self.tokenizer),
        )
    }
}

/// The name of the search index's default tokenizer, which splits text into
/// lower-cased words.
pub open spec fn default_tokenizer() -> Seq<char> {
    "default"@
}

/// A field as the schema of a collection has it: a text field is tokenized
/// with the default tokenizer and indexed with positions, not fast, and
/// stored as asked; a numeric field is indexed and fast, not stored.
pub open spec fn entry_for(name: Seq<char>, kind: FieldKind, stored: bool) -> EntryView {
    if kind == FieldKind::Text {
        (name, FieldKind::Text, stored, true, false, true, Some(default_tokenizer()))
    } else {
        (name, kind, false, true, true, false, None)
    }
}

/// The definition of a field as the schema of a collection has it.
pub fn field_def(name: String, kind: FieldKind, stored: bool) -> (r: FieldDef)
    ensures
        r@ == entry_for(name@, kind, stored),
{
    if kind == FieldKind::Text {
        FieldDef {
            name,
            kind,
            stored,
            indexed: true,
            fast: false,
            positions: true,
            tokenizer: Some(String::from_str("default")),
        }
    } else {
        FieldDef { name, kind, stored: false, indexed: true, fast: true, positions: false, tokenizer: None }
    }
}

/// The views of a sequence of field definitions.
pub open spec fn defs_view(v: Seq<FieldDef>) -> Seq<EntryView> {
    v.map_values(|d: FieldDef| d@)
}

/// The name of the catch-all full-text field.
pub open spec fn text_name() -> Seq<char> {
    seq!['t', 'e', 'x', 't']
}

/// The position of the first `:` in `s` at or after `i`, or `s.len()`.
pub open spec fn colon_from(s: Seq<char>, i: int) -> int
    decreases s.len() - i,
{
    if i >= s.len() {
        s.len() as int
    } else if s[i] == ':' {
        i
    } else {
        colon_from(s, i + 1)
    }
}

/// The position of the first `:` in `s`, or `s.len()` when there is none.
pub open spec fn colon_index(s: Seq<char>) -> int {
    colon_from(s, 0)
}

/// The field name of a declaration: what precedes its first `:`.
pub open spec fn field_name(spec: Seq<char>) -> Seq<char> {
    spec.subrange(0, colon_index(spec))
}

/// The type that a suffix names; any other suffix means text.
pub open spec fn kind_named(t: Seq<char>) -> FieldKind {
    if t == seq!['u', '6', '4'] {
        FieldKind::U64
    } else if t == seq!['i', '6', '4'] {
        FieldKind::I64
    } else if t == seq!['f', '6', '4'] {
        FieldKind::F64
    } else {
        FieldKind::Text
    }
}

/// The field type of a declaration: text unless a `:u64`, `:i64` or `:f64`
/// suffix follows the name.
pub open spec fn field_kind(spec: Seq<char>) -> FieldKind {
    let k = colon_index(spec);
    if k >= spec.len() {
        FieldKind::Text
    } else {
        kind_named(spec.subrange(k + 1, spec.len() as int))
    }
}

/// The suffix under which a field type is declared (none for text).
pub open spec fn kind_suffix(k: FieldKind) -> Seq<char> {
    match k {
        FieldKind::U64 => seq![':', 'u', '6', '4'],
        FieldKind::I64 => seq![':', 'i', '6', '4'],
        FieldKind::F64 => seq![':', 'f', '6', '4'],
        _ => Seq::empty(),
    }
}

/// A declaration is canonical when it reads back as its name and suffix.
pub open spec fn is_canonical(spec: Seq<char>) -> bool {
    field_name(spec) + kind_suffix(field_kind(spec)) == spec
}

/// The schema of a collection: the primary field (text, stored), then each
/// declared index field (text, or numeric for a `:u64`, `:i64` or `:f64`
/// suffix; not stored), then the catch-all `text` field (text, not stored);
/// each with the options `entry_for` gives.
pub open spec fn layout(primary: Seq<char>, specs: Seq<Seq<char>>) -> Seq<EntryView> {
    seq![entry_for(primary, FieldKind::Text, true)] + specs.map_values(
        |f: Seq<char>| entry_for(field_name(f), field_kind(f), false),
    ) + seq![entry_for(text_name(), FieldKind::Text, false)]
}

/// A name that the search index accepts: non-empty, not starting with `-`.
pub open spec fn valid_name(n: Seq<char>) -> bool {
    n.len() > 0 && n[0] != '-'
}

/// Every name is accepted and no two fields share a name.
pub open spec fn layout_valid(l: Seq<EntryView>) -> bool {
    &&& forall|i: int| 0 <= i < l.len() ==> valid_name(#[trigger] l[i].0)
    &&& forall|i: int, j: int| 0 <= i < j < l.len() ==> #[trigger] l[i].0 != #[trigger] l[j].0
}

/// The name of the first stored field, which is the primary field.
pub open spec fn first_stored(l: Seq<EntryView>) -> Option<Seq<char>>
    decreases l.len(),
{
    if l.len() == 0 {
        None
    } else if l[0].2 {
        Some(l[0].0)
    } else {
        first_stored(l.drop_first())
    }
}

/// The declarations of the index fields of a schema: every field but the
/// primary and `text`, written as its name and type suffix.
pub open spec fn index_specs(l: Seq<EntryView>, primary: Seq<char>) -> Seq<Seq<char>>
    decreases l.len(),
{
    if l.len() == 0 {
        Seq::empty()
    } else {
        let rest = index_specs(l.drop_last(), primary);
        let e = l.last();
        if e.0 != primary && e.0 != text_name() {
            rest.push(e.0 + kind_suffix(e.1))
        } else {
            rest
        }
    }
}

proof fn lemma_index_specs_concat(a: Seq<EntryView>, b: Seq<EntryView>, p: Seq<char>)
    ensures
        index_specs(a + b, p) == index_specs(a, p) + index_specs(b, p),
    decreases b.len(),
{
    if b.len() == 0 {
        assert(a + b =~= a);
        assert(index_specs(a, p) + index_specs(b, p) =~= index_specs(a, p));
    } else {
        lemma_index_specs_concat(a, b.drop_last(), p);
        assert((a + b).drop_last() =~= a + b.drop_last());
        assert((a + b).last() == b.last());
        let r = index_specs(a, p) + index_specs(b.drop_last(), p);
        let e = b.last();
        if e.0 != p && e.0 != text_name() {
            assert(r.push(e.0 + kind_suffix(e.1)) =~= index_specs(a, p) + index_specs(
                b.drop_last(),
                p,
            ).push(e.0 + kind_suffix(e.1)));
        }
    }
}

proof fn lemma_index_specs_declared(specs: Seq<Seq<char>>, p: Seq<char>)
    requires
        forall|i: int|
            0 <= i < specs.len() ==> is_canonical(#[trigger] specs[i]) && field_name(specs[i])
                != p && field_name(specs[i]) != text_name(),
    ensures
        index_specs(specs.map_values(|f: Seq<char>| entry_for(field_name(f), field_kind(f), false)), p)
            == specs,
    decreases specs.len(),
{
    let m = specs.map_values(|f: Seq<char>| entry_for(field_name(f), field_kind(f), false));
    if specs.len() == 0 {
        assert(specs =~= Seq::<Seq<char>>::empty());
    } else {
        let d = specs.drop_last();
        lemma_index_specs_declared(d, p);
        assert(m.drop_last() =~= d.map_values(
            |f: Seq<char>| entry_for(field_name(f), field_kind(f), false),
        ));
        assert(is_canonical(specs[specs.len() - 1]));
        assert(specs =~= d.push(specs.last()));
    }
}

/// Reading a collection back from the schema that its declarations produced
/// gives the same collection: the first stored field is the primary field,
/// and the index field declarations come back in order, each written as its
/// name and type suffix.
pub proof fn lemma_layout_round_trip(primary: Seq<char>, specs: Seq<Seq<char>>)
    requires
        layout_valid(layout(primary, specs)),
        forall|i: int| 0 <= i < specs.len() ==> is_canonical(#[trigger] specs[i]),
    ensures
        first_stored(layout(primary, specs)) == Some(primary),
        index_specs(layout(primary, specs), primary) == specs,
{
    let l = layout(primary, specs);
    let a = seq![entry_for(primary, FieldKind::Text, true)];
    let m = specs.map_values(|f: Seq<char>| entry_for(field_name(f), field_kind(f), false));
    let t = seq![entry_for(text_name(), FieldKind::Text, false)];
    assert(l == a + m + t);
    assert forall|i: int| 0 <= i < specs.len() implies is_canonical(#[trigger] specs[i])
        && field_name(specs[i]) != primary && field_name(specs[i]) != text_name() by {
        assert(l[0].0 == primary);
        assert(l[i + 1].0 == field_name(specs[i]));
        assert(l[l.len() - 1].0 == text_name());
        assert(l[0].0 != l[i + 1].0);
        assert(l[i + 1].0 != l[l.len() - 1].0);
    }
    lemma_index_specs_declared(specs, primary);
    lemma_index_specs_concat(a + m, t, primary);
    lemma_index_specs_concat(a, m, primary);
    assert(a.drop_last() =~= Seq::<EntryView>::empty());
    assert(t.drop_last() =~= Seq::<EntryView>::empty());
    assert(index_specs(a.drop_last(), primary) =~= Seq::<Seq<char>>::empty());
    assert(a.last().0 == primary);
    assert(index_specs(a, primary) =~= Seq::<Seq<char>>::empty());
    assert(index_specs(t.drop_last(), primary) =~= Seq::<Seq<char>>::empty());
    assert(t.last().0 == text_name());
    assert(index_specs(t, primary) =~= Seq::<Seq<char>>::empty());
    assert(index_specs(l, primary) =~= specs);
}

/// The position of the first `:` in `s`, or its length.
fn colon_position(s: &[char]) -> (k: usize)
    ensures
        k == colon_index(s@),
{
    let mut i: usize = 0;
    while i < s.len()
        invariant
            i <= s@.len(),
            colon_from(s@, 0) == colon_from(s@, i as int),
        decreases s@.len() - i,
    {
        if s[i] == ':' {
            return i;
        }
        i = i + 1;
    }
    i
}

proof fn lemma_colon_bounds(s: Seq<char>, i: int)
    requires
        0 <= i <= s.len(),
    ensures
        i <= colon_from(s, i) <= s.len(),
    decreases s.len() - i,
{
    if i < s.len() && s[i] != ':' {
        lemma_colon_bounds(s, i + 1);
    }
}

/// The name part of a field declaration: what precedes the first `:`.
pub fn strip_type_suffix(field_spec: &str) -> (r: &str)
    ensures
        r@ == field_name(field_spec@),
{
    let cs = chars_of(field_spec);
    let k = colon_position(cs.as_slice());
    proof {
        lemma_colon_bounds(field_spec@, 0);
    }
    field_spec.substring_char(0, k)
}

/// The type that the characters `t` name as a suffix.
fn kind_of_suffix(t: &[char]) -> (k: FieldKind)
    ensures
        k == kind_named(t@),
{
    if t.len() == 3 && t[1] == '6' && t[2] == '4' {
        if t[0] == 'u' {
            assert(t@ == seq!['u', '6', '4']);
            return FieldKind::U64;
        } else if t[0] == 'i' {
            assert(t@ == seq!['i', '6', '4']);
            return FieldKind::I64;
        } else if t[0] == 'f' {
            assert(t@ == seq!['f', '6', '4']);
            return FieldKind::F64;
        }
    }
    FieldKind::Text
}

/// Splits a declaration `name[:type]` into its name and field type.
pub fn parse_field_spec(field_spec: &str) -> (r: (String, FieldKind))
    ensures
        r.0@ == field_name(field_spec@),
        r.1 == field_kind(field_spec@),
{
    let cs = chars_of(field_spec);
    let k = colon_position(cs.as_slice());
    proof {
        lemma_colon_bounds(field_spec@, 0);
    }
    let name = String::from_str(field_spec.substring_char(0, k));
    if k >= cs.len() {
        return (name, FieldKind::Text);
    }
    let mut rest: Vec<char> = Vec::new();
    let mut i: usize = k + 1;
    while i < cs.len()
        invariant
            cs@ == field_spec@,
            k < cs@.len(),
            k + 1 <= i <= cs@.len(),
            rest@ == cs@.subrange(k + 1, i as int),
        decreases cs@.len() - i,
    {
        rest.push(cs[i]);
        assert(cs@.subrange(k + 1, i + 1) == cs@.subrange(k + 1, i as int).push(cs@[i as int]));
        i = i + 1;
    }
    (name, kind_of_suffix(rest.as_slice()))
}

/// The field names that declarations give, in order.
pub open spec fn field_names(specs: Seq<Seq<char>>) -> Seq<Seq<char>> {
    specs.map_values(|f: Seq<char>| field_name(f))
}

/// The field names of the declarations `specs`, in order.
pub fn declared_names(specs: &[String]) -> (r: Vec<String>)
    ensures
        views(r@) == field_names(views(specs@)),
{
    let mut r: Vec<String> = Vec::new();
    let mut i: usize = 0;
    while i < specs.len()
        invariant
            i <= specs@.len(),
            views(r@) == field_names(views(specs@)).subrange(0, i as int),
        decreases specs@.len() - i,
    {
        let n = String::from_str(strip_type_suffix(specs[i].as_str()));
        let ghost before = views(r@);
        r.push(n);
        assert(views(specs@)[i as int] == specs@[i as int]@);
        assert(views(r@) =~= before.push(n@));
        assert(field_names(views(specs@)).subrange(0, i + 1) =~= before.push(n@));
        i = i + 1;
    }
    assert(field_names(views(specs@)).subrange(0, specs@.len() as int) =~= field_names(views(specs@)));
    r
}

/// The field definitions of the schema of a collection whose primary field is
/// `primary` and whose declared index fields are `specs`, in order.
pub fn schema_layout(primary: &str, specs: &[String]) -> (r: Vec<FieldDef>)
    ensures
        defs_view(r@) == layout(primary@, views(specs@)),
{
    let mut r: Vec<FieldDef> = Vec::new();
    r.push(field_def(String::from_str(primary), FieldKind::Text, true));
    let ghost mid = views(specs@).map_values(
        |f: Seq<char>| entry_for(field_name(f), field_kind(f), false),
    );
    let mut i: usize = 0;
    while i < specs.len()
        invariant
            i <= specs@.len(),
            mid.len() == specs@.len(),
            mid == views(specs@).map_values(
                |f: Seq<char>| entry_for(field_name(f), field_kind(f), false),
            ),
            defs_view(r@) == seq![entry_for(primary@, FieldKind::Text, true)] + mid.subrange(
                0,
                i as int,
            ),
        decreases specs@.len() - i,
    {
        let (name, kind) = parse_field_spec(specs[i].as_str());
        let ghost before = defs_view(r@);
        r.push(field_def(name, kind, false));
        assert(views(specs@)[i as int] == specs@[i as int]@);
        assert(defs_view(r@) =~= before.push(mid[i as int]));
        assert(mid.subrange(0, i + 1) =~= mid.subrange(0, i as int).push(mid[i as int]));
        i = i + 1;
    }
    let text: Vec<char> = vec!['t', 'e', 'x', 't'];
    r.push(field_def(string_from_chars(text.as_slice()), FieldKind::Text, false));
    assert(mid.subrange(0, mid.len() as int) =~= mid);
    assert(defs_view(r@) =~= layout(primary@, views(specs@)));
    r
}

/// Whether the index accepts every name of `defs` and no two share a name.
pub fn layout_is_valid(defs: &[FieldDef]) -> (r: bool)
    ensures
        r == layout_valid(defs_view(defs@)),
{
    let ghost l = defs_view(defs@);
    let mut i: usize = 0;
    while i < defs.len()
        invariant
            l == defs_view(defs@),
            i <= defs@.len(),
            forall|a: int| 0 <= a < i ==> valid_name(#[trigger] l[a].0),
            forall|a: int, b: int| 0 <= a < b < i ==> #[trigger] l[a].0 != #[trigger] l[b].0,
        decreases defs@.len() - i,
    {
        let name = chars_of(defs[i].name.as_str());
        if name.len() == 0 || name[0] == '-' {
            assert(!valid_name(l[i as int].0));
            return false;
        }
        let mut j: usize = 0;
        while j < i
            invariant
                l == defs_view(defs@),
                i < defs@.len(),
                j <= i,
                name@ == l[i as int].0,
                forall|a: int| 0 <= a < j ==> l[a].0 != l[i as int].0,
            decreases i - j,
        {
            if defs[j].name == defs[i].name {
                assert(l[j as int].0 == l[i as int].0);
                return false;
            }
            j = j + 1;
        }
        i = i + 1;
    }
    true
}

/// The characters of a field declaration: the name and the type suffix.
fn render_spec(d: &FieldDef) -> (r: String)
    ensures
        r@ == d.name@ + kind_suffix(d.kind),
{
    let mut cs = chars_of(d.name.as_str());
    let suffix: Vec<char> = match d.kind {
        FieldKind::U64 => vec![':', 'u', '6', '4'],
        FieldKind::I64 => vec![':', 'i', '6', '4'],
        FieldKind::F64 => vec![':', 'f', '6', '4'],
        _ => Vec::new(),
    };
    append_chars(&mut cs, suffix.as_slice());
    string_from_chars(cs.as_slice())
}

/// Whether `n` is the name of the catch-all field.
fn is_text_name(n: &[char]) -> (r: bool)
    ensures
        r == (n@ == text_name()),
{
    let r = n.len() == 4 && n[0] == 't' && n[1] == 'e' && n[2] == 'x' && n[3] == 't';
    if r {
        assert(n@ == text_name());
    }
    r
}

/// The primary field and the index field declarations of a collection, read
/// back from its schema: the primary is the first stored field; `None` when
/// no field is stored.
pub fn recover_collection(defs: &[FieldDef]) -> (r: Option<(String, Vec<String>)>)
    ensures
        r is None <==> first_stored(defs_view(defs@)) is None,
        r matches Some(p) ==> Some(p.0@) == first_stored(defs_view(defs@)) && views(p.1@)
            == index_specs(defs_view(defs@), p.0@),
{
    let ghost l = defs_view(defs@);
    assert(l.subrange(0, l.len() as int) =~= l);
    let mut k: usize = 0;
    while k < defs.len() && !defs[k].stored
        invariant
            l == defs_view(defs@),
            k <= defs@.len(),
            first_stored(l) == first_stored(l.subrange(k as int, l.len() as int)),
        decreases defs@.len() - k,
    {
        assert(l.subrange(k as int, l.len() as int)[0] == l[k as int]);
        assert(l.subrange(k as int, l.len() as int).drop_first() =~= l.subrange(k + 1, l.len() as int));
        k = k + 1;
    }
    if k == defs.len() {
        assert(l.subrange(k as int, l.len() as int).len() == 0);
        return None;
    }
    assert(l.subrange(k as int, l.len() as int)[0] == l[k as int]);
    let primary = defs[k].name.clone();
    let pc = chars_of(primary.as_str());
    let mut out: Vec<String> = Vec::new();
    let mut i: usize = 0;
    while i < defs.len()
        invariant
            l == defs_view(defs@),
            pc@ == primary@,
            i <= defs@.len(),
            views(out@) == index_specs(l.subrange(0, i as int), primary@),
        decreases defs@.len() - i,
    {
        let name = chars_of(defs[i].name.as_str());
        let same = crate::text::same_text(defs[i].name.as_str(), primary.as_str());
        assert(l.subrange(0, i + 1).drop_last() =~= l.subrange(0, i as int));
        assert(l.subrange(0, i + 1).last() == l[i as int]);
        if !same && !is_text_name(name.as_slice()) {
            let s = render_spec(&defs[i]);
            out.push(s);
            assert(views(out@) =~= index_specs(l.subrange(0, i + 1), primary@));
        } else {
            assert(views(out@) == index_specs(l.subrange(0, i + 1), primary@));
        }
        i = i + 1;
    }
    assert(l.subrange(0, l.len() as int) =~= l);
    Some((primary, out))
}

/// The name under which a field type is listed.
pub open spec fn kind_label(k: FieldKind) -> Seq<char> {
    match k {
        FieldKind::Text => "text"@,
        FieldKind::U64 => "u64"@,
        FieldKind::I64 => "i64"@,
        FieldKind::F64 => "f64"@,
        FieldKind::Date => "date"@,
        FieldKind::Bool => "bool"@,
        FieldKind::Bytes => "bytes"@,
        FieldKind::Other => "unknown"@,
    }
}

/// The listing of the fields of a schema: the first stored field as
/// `name(primary, type)`, every other field but `text` as `name(type)`, in
/// order; `found` tells whether the primary was listed already.
pub open spec fn listing(l: Seq<EntryView>, found: bool) -> Seq<Seq<char>>
    decreases l.len(),
{
    if l.len() == 0 {
        Seq::empty()
    } else {
        let e = l[0];
        if e.2 && !found {
            seq![e.0 + "(primary, "@ + kind_label(e.1) + ")"@] + listing(l.drop_first(), true)
        } else if e.0 != text_name() {
            seq![e.0 + "("@ + kind_label(e.1) + ")"@] + listing(l.drop_first(), found)
        } else {
            listing(l.drop_first(), found)
        }
    }
}

fn kind_label_exec(k: FieldKind) -> (r: Vec<char>)
    ensures
        r@ == kind_label(k),
{
    match k {
        FieldKind::Text => chars_of("text"),
        FieldKind::U64 => chars_of("u64"),
        FieldKind::I64 => chars_of("i64"),
        FieldKind::F64 => chars_of("f64"),
        FieldKind::Date => chars_of("date"),
        FieldKind::Bool => chars_of("bool"),
        FieldKind::Bytes => chars_of("bytes"),
        FieldKind::Other => chars_of("unknown"),
    }
}

/// The listing of the fields of a schema (see `listing`).
pub fn describe_fields(defs: &[FieldDef]) -> (r: Vec<String>)
    ensures
        views(r@) == listing(defs_view(defs@), false),
{
    let ghost l = defs_view(defs@);
    let mut out: Vec<String> = Vec::new();
    let mut found = false;
    let mut i: usize = 0;
    let open_primary = chars_of("(primary, ");
    let open = chars_of("(");
    let close = chars_of(")");
    assert(l.subrange(0, l.len() as int) =~= l);
    assert(views(out@) =~= Seq::<Seq<char>>::empty());
    while i < defs.len()
        invariant
            l == defs_view(defs@),
            i <= defs@.len(),
            open_primary@ == "(primary, "@,
            open@ == "("@,
            close@ == ")"@,
            listing(l, false) == views(out@) + listing(l.subrange(i as int, l.len() as int), found),
        decreases defs@.len() - i,
    {
        let ghost rest = l.subrange(i as int, l.len() as int);
        assert(rest[0] == defs@[i as int]@);
        assert(rest.drop_first() =~= l.subrange(i + 1, l.len() as int));
        let d = &defs[i];
        let name = chars_of(d.name.as_str());
        let label = kind_label_exec(d.kind);
        let ghost before = views(out@);
        if d.stored && !found {
            let mut cs = name;
            append_chars(&mut cs, open_primary.as_slice());
            append_chars(&mut cs, label.as_slice());
            append_chars(&mut cs, close.as_slice());
            let s = string_from_chars(cs.as_slice());
            out.push(s);
            found = true;
            assert(views(out@) =~= before.push(s@));
            assert(before.push(s@) + listing(rest.drop_first(), true) =~= before + listing(rest, false));
        } else if !is_text_name(name.as_slice()) {
            let mut cs = name;
            append_chars(&mut cs, open.as_slice());
            append_chars(&mut cs, label.as_slice());
            append_chars(&mut cs, close.as_slice());
            let s = string_from_chars(cs.as_slice());
            out.push(s);
            assert(views(out@) =~= before.push(s@));
            assert(before.push(s@) + listing(rest.drop_first(), found) =~= before + listing(rest, found));
        }
        i = i + 1;
    }
    assert(listing(l.subrange(l.len() as int, l.len() as int), found) =~= Seq::<Seq<char>>::empty());
    assert(views(out@) + Seq::<Seq<char>>::empty() =~= views(out@));
    out
}

} // verus!
