//! The search-index schema of a collection, built with and read back from
//! tantivy.
use vstd::prelude::*;
use tantivy::schema::{FieldType, NumericOptions, Schema, SchemaBuilder, STORED, TEXT};
use crate::fields::{
    defs_view, describe_fields, entry_for, opt_string_view, field_kind, field_name, first_stored, listing, index_specs, layout, layout_is_valid, layout_valid,
    recover_collection, schema_layout, EntryView, FieldDef, FieldKind,
};
use crate::text::views;

verus! {

#[verifier::external_type_specification]
#[verifier::external_body]
pub struct ExSchemaBuilder(SchemaBuilder);

#[verifier::external_type_specification]
#[verifier::external_body]
pub struct ExSchema(Schema);

/// The fields that a schema builder holds, in the order they were added.
pub uninterp spec fn builder_entries(b: SchemaBuilder) -> Seq<EntryView>;

/// The fields of a schema, in order.
pub uninterp spec fn schema_entries(s: Schema) -> Seq<EntryView>;

/// No field of `entries` is named `name`.
pub open spec fn name_is_free(entries: Seq<EntryView>, name: Seq<char>) -> bool {
    forall|j: int| 0 <= j < entries.len() ==> #[trigger] entries[j].0 != name
}

/// Relies on `Schema::builder`: a builder that holds no field yet.
#[verifier::external_body]
fn new_builder() -> (b: SchemaBuilder)
    ensures
        builder_entries(b) == Seq::<EntryView>::empty(),
{
    Schema::builder()
}

/// Relies on `SchemaBuilder::add_text_field` with `TEXT` (the default
/// tokenizer, indexed with frequencies and positions, not fast), with
/// `STORED` added when `stored`: appends such a text field; it panics on a
/// name already present or one that is empty or starts with `-`.
#[verifier::external_body]
fn add_text_field(b: &mut SchemaBuilder, name: &str, stored: bool)
    requires
        name@.len() > 0 && name@[0] != '-',
        name_is_free(builder_entries(*old(b)), name@),
    ensures
        builder_entries(*final(b)) == builder_entries(*old(b)).push(
            (name@, FieldKind::Text, stored, true, false, true, Some("default"@)),
        ),
{
    b.add_text_field(name, if stored { TEXT | STORED } else { TEXT });
}

/// Relies on `SchemaBuilder::add_u64_field`: appends an indexed, fast u64
/// field that is not stored; it panics as `add_text_field` does.
#[verifier::external_body]
fn add_u64_field(b: &mut SchemaBuilder, name: &str)
    requires
        name@.len() > 0 && name@[0] != '-',
        name_is_free(builder_entries(*old(b)), name@),
    ensures
        builder_entries(*final(b)) == builder_entries(*old(b)).push(
            (name@, FieldKind::U64, false, true, true, false, None),
        ),
{
    b.add_u64_field(name, NumericOptions::default().set_indexed().set_fast());
}

/// Relies on `SchemaBuilder::add_i64_field`: appends an indexed, fast i64
/// field that is not stored; it panics as `add_text_field` does.
#[verifier::external_body]
fn add_i64_field(b: &mut SchemaBuilder, name: &str)
    requires
        name@.len() > 0 && name@[0] != '-',
        name_is_free(builder_entries(*old(b)), name@),
    ensures
        builder_entries(*final(b)) == builder_entries(*old(b)).push(
            (name@, FieldKind::I64, false, true, true, false, None),
        ),
{
    b.add_i64_field(name, NumericOptions::default().set_indexed().set_fast());
}

/// Relies on `SchemaBuilder::add_f64_field`: appends an indexed, fast f64
/// field that is not stored; it panics as `add_text_field` does.
#[verifier::external_body]
fn add_f64_field(b: &mut SchemaBuilder, name: &str)
    requires
        name@.len() > 0 && name@[0] != '-',
        name_is_free(builder_entries(*old(b)), name@),
    ensures
        builder_entries(*final(b)) == builder_entries(*old(b)).push(
            (name@, FieldKind::F64, false, true, true, false, None),
        ),
{
    b.add_f64_field(name, NumericOptions::default().set_indexed().set_fast());
}

/// Relies on `SchemaBuilder::build`: the schema holds the builder's fields,
/// in order.
#[verifier::external_body]
fn build_schema(b: SchemaBuilder) -> (s: Schema)
    ensures
        schema_entries(s) == builder_entries(b),
{
    b.build()
}

/// Relies on `Schema::fields`, `FieldEntry::name`, `field_type`, `is_stored`,
/// `is_indexed` and `is_fast`: for each field of the schema, in order, its
/// name, type, and whether it is stored, indexed and fast.
#[verifier::external_body]
fn schema_field_flags(s: &Schema) -> (r: Vec<(String, FieldKind, bool, bool, bool)>)
    ensures
        r@.len() == schema_entries(*s).len(),
        forall|i: int|
            0 <= i < r@.len() ==> ({
                let e = #[trigger] schema_entries(*s)[i];
                (r@[i].0@, r@[i].1, r@[i].2, r@[i].3, r@[i].4) == (e.0, e.1, e.2, e.3, e.4)
            }),
{
    s.fields().map(|(_, e)| {
        let kind = match e.field_type() {
            FieldType::Str(_) => FieldKind::Text, FieldType::U64(_) => FieldKind::U64,
            FieldType::I64(_) => FieldKind::I64, FieldType::F64(_) => FieldKind::F64,
            FieldType::Date(_) => FieldKind::Date, FieldType::Bool(_) => FieldKind::Bool,
            FieldType::Bytes(_) => FieldKind::Bytes, _ => FieldKind::Other,
        };
        (e.name().to_string(), kind, e.is_stored(), e.is_indexed(), e.is_fast())
    }).collect()
}

/// Relies on `Schema::fields`, `FieldType::index_record_option` with
/// `IndexRecordOption::has_positions`, and `TextOptions::get_indexing_options`
/// with `TextFieldIndexing::tokenizer`: for each field of the schema, in
/// order, whether its index records positions, and the name of its tokenizer
/// if it is an indexed text field.
#[verifier::external_body]
fn schema_text_options(s: &Schema) -> (r: Vec<(bool, Option<String>)>)
    ensures
        r@.len() == schema_entries(*s).len(),
        forall|i: int|
            0 <= i < r@.len() ==> ({
                let e = #[trigger] schema_entries(*s)[i];
                (r@[i].0, opt_string_view(r@[i].1)) == (e.5, e.6)
            }),
{
    s.fields().map(|(_, e)| {
        let positions = e.field_type().index_record_option().map_or(false, |o| o.has_positions());
        let tokenizer = match e.field_type() {
            FieldType::Str(o) => o.get_indexing_options().map(|i| i.tokenizer().to_string()),
            _ => None,
        };
        (positions, tokenizer)
    }).collect()
}

/// The fields of a schema, in order, with their options.
pub fn describe_schema(s: &Schema) -> (r: Vec<FieldDef>)
    ensures
        defs_view(r@) == schema_entries(*s),
{
    let mut flags = schema_field_flags(s);
    let mut text = schema_text_options(s);
    let ghost fl = flags@;
    let ghost tx = text@;
    let ghost e = schema_entries(*s);
    let n = flags.len();
    let mut r: Vec<FieldDef> = Vec::new();
    let mut i: usize = 0;
    while i < n
        invariant
            n == fl.len(),
            fl.len() == e.len(),
            tx.len() == e.len(),
            i <= n,
            flags@ == fl.subrange(i as int, n as int),
            text@ == tx.subrange(i as int, n as int),
            forall|k: int|
                0 <= k < n ==> ({
                    let x = #[trigger] e[k];
                    (fl[k].0@, fl[k].1, fl[k].2, fl[k].3, fl[k].4) == (x.0, x.1, x.2, x.3, x.4)
                }),
            forall|k: int|
                0 <= k < n ==> ({
                    let x = #[trigger] e[k];
                    (tx[k].0, opt_string_view(tx[k].1)) == (x.5, x.6)
                }),
            defs_view(r@) == e.subrange(0, i as int),
        decreases n - i,
    {
        let (name, kind, stored, indexed, fast) = flags.remove(0);
        let (positions, tokenizer) = text.remove(0);
        assert(fl[i as int] == (name, kind, stored, indexed, fast));
        assert(tx[i as int] == (positions, tokenizer));
        let d = FieldDef { name, kind, stored, indexed, fast, positions, tokenizer };
        let ghost x = e[i as int];
        assert(d@ == x);
        let ghost before = defs_view(r@);
        r.push(d);
        assert(defs_view(r@) =~= before.push(x));
        assert(e.subrange(0, i + 1) =~= e.subrange(0, i as int).push(x));
        assert(flags@ =~= fl.subrange(i + 1, n as int));
        assert(text@ =~= tx.subrange(i + 1, n as int));
        i = i + 1;
    }
    assert(e.subrange(0, n as int) =~= e);
    r
}

/// Why a schema cannot be built from a field list.
#[derive(Clone, Copy, Debug, PartialEq, Eq, Structural)]
pub enum SchemaError {
    /// A field name is empty or starts with `-`, or two fields share a name
    /// (the primary, the declared fields and the reserved `text` field).
    InvalidFields,
}

/// The schema of a collection whose primary field is `primary` and whose
/// declared index fields are `index_fields`; refused when a name is not
/// accepted or two fields would share one.
pub fn create_tantivy_schema(primary: &str, index_fields: &[String]) -> (r: Result<
    Schema,
    SchemaError,
>)
    ensures
        r is Err <==> !layout_valid(layout(primary@, views(index_fields@))),
        r matches Ok(s) ==> schema_entries(s) == layout(primary@, views(index_fields@)),
{
    let defs = schema_layout(primary, index_fields);
    if !layout_is_valid(defs.as_slice()) {
        return Err(SchemaError::InvalidFields);
    }
    let ghost l = defs_view(defs@);
    let mut b = new_builder();
    let mut i: usize = 0;
    while i < defs.len()
        invariant
            l == defs_view(defs@),
            l == layout(primary@, views(index_fields@)),
            layout_valid(l),
            i <= defs@.len(),
            builder_entries(b) == l.subrange(0, i as int),
        decreases defs@.len() - i,
    {
        let d = &defs[i];
        assert(l[i as int] == d@);
        assert(valid_at(l, i as int));
        assert(name_is_free(builder_entries(b), d.name@)) by {
            assert forall|j: int| 0 <= j < builder_entries(b).len() implies #[trigger] builder_entries(
                b,
            )[j].0 != d.name@ by {
                assert(builder_entries(b)[j] == l[j]);
            }
        }
        assert(d.kind == FieldKind::Text || d.kind == FieldKind::U64 || d.kind == FieldKind::I64
            || d.kind == FieldKind::F64) by {
            lemma_layout_kinds(primary@, views(index_fields@), i as int);
        }
        assert(d.kind != FieldKind::Text ==> !d.stored) by {
            lemma_layout_kinds(primary@, views(index_fields@), i as int);
        }
        assert(d@ == entry_for(d.name@, d.kind, d.stored)) by {
            lemma_layout_kinds(primary@, views(index_fields@), i as int);
        }
        match d.kind {
            FieldKind::U64 => add_u64_field(&mut b, d.name.as_str()),
            FieldKind::I64 => add_i64_field(&mut b, d.name.as_str()),
            FieldKind::F64 => add_f64_field(&mut b, d.name.as_str()),
            _ => add_text_field(&mut b, d.name.as_str(), d.stored),
        }
        assert(l.subrange(0, i + 1) =~= l.subrange(0, i as int).push(l[i as int]));
        i = i + 1;
    }
    assert(l.subrange(0, l.len() as int) =~= l);
    Ok(build_schema(b))
}

/// The entry at `i`, if any, has a name the index accepts.
spec fn valid_at(l: Seq<EntryView>, i: int) -> bool {
    0 <= i < l.len() ==> l[i].0.len() > 0 && l[i].0[0] != '-'
}

proof fn lemma_layout_kinds(primary: Seq<char>, specs: Seq<Seq<char>>, i: int)
    requires
        0 <= i < layout(primary, specs).len(),
    ensures
        ({
            let e = layout(primary, specs)[i];
            &&& e.1 == FieldKind::Text || e.1 == FieldKind::U64 || e.1 == FieldKind::I64 || e.1
                == FieldKind::F64
            &&& e.1 != FieldKind::Text ==> !e.2
            &&& e == entry_for(e.0, e.1, e.2)
        }),
{
    let l = layout(primary, specs);
    if 1 <= i < l.len() - 1 {
        assert(l[i] == entry_for(field_name(specs[i - 1]), field_kind(specs[i - 1]), false));
    }
}

/// The primary field and index field declarations of a collection, read back
/// from the schema of its index; `None` when no field is stored.
pub fn collection_from_schema(s: &Schema) -> (r: Option<(String, Vec<String>)>)
    ensures
        r is None <==> first_stored(schema_entries(*s)) is None,
        r matches Some(p) ==> Some(p.0@) == first_stored(schema_entries(*s)) && views(p.1@)
            == index_specs(schema_entries(*s), p.0@),
{
    let defs = describe_schema(s);
    recover_collection(defs.as_slice())
}

/// The listing of the fields of a schema: the primary as
/// `name(primary, type)`, the others but `text` as `name(type)`.
pub fn field_listing(s: &Schema) -> (r: Vec<String>)
    ensures
        views(r@) == listing(schema_entries(*s), false),
{
    let defs = describe_schema(s);
    describe_fields(defs.as_slice())
}


} // verus!
