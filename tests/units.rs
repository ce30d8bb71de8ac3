use docstore::access::{is_ip_allowed, may_proceed, Method};
use docstore::document::{DocField, Document, Scalar};
use docstore::fields::{parse_field_spec, recover_collection, schema_layout, strip_type_suffix, FieldKind};
use docstore::ingest::{get_object_id_from_json, index_record, writer_buffer, IngestTally};
use docstore::maintenance::{compact_action, is_confirmed, is_reserved_tree, trees_to_drop, CompactAction};
use docstore::number::{cmp_decimal, parse_decimal, Order};
use docstore::query::{plan_query, QueryError, QueryPlan};
use docstore::refine::{effective_limit, effective_offset, parse_usize};
use docstore::registry::{declared_schema, upsert_fields};
use docstore::schema::{collection_from_schema, create_tantivy_schema, describe_schema, field_listing, SchemaError};
use docstore::settings::{apply_update, merge_settings, SettingValue, Settings};
use docstore::refine::{scan_step, sort_documents, ScanStep};
use docstore::store::collect_hits;

fn strings(v: &[&str]) -> Vec<String> {
    v.iter().map(|s| s.to_string()).collect()
}

fn pairs(v: &[(&str, &str)]) -> Vec<(String, String)> {
    v.iter().map(|(k, x)| (k.to_string(), x.to_string())).collect()
}

#[test]
fn ip_exact_and_wildcards() {
    let allowed = strings(&["127.0.0.1", "10.0.*", "*.42"]);
    assert!(is_ip_allowed("127.0.0.1", &allowed));
    assert!(is_ip_allowed("10.0.3.4", &allowed));
    assert!(is_ip_allowed("192.168.1.42", &allowed));
    assert!(!is_ip_allowed("192.168.1.43", &allowed));
    assert!(!is_ip_allowed("127.0.0.2", &allowed));
    assert!(!is_ip_allowed("127.0.0.1", &[]));
    assert!(is_ip_allowed("anything", &strings(&["*"])));
}

#[test]
fn gate_guards_mutations_and_admin_paths() {
    let allowed = strings(&["127.0.0.1"]);
    assert!(may_proceed(Method::Get, "/data/t", "8.8.8.8", &allowed));
    assert!(!may_proceed(Method::Post, "/data/t", "8.8.8.8", &allowed));
    assert!(!may_proceed(Method::Delete, "/purge", "8.8.8.8", &allowed));
    assert!(!may_proceed(Method::Get, "/status", "8.8.8.8", &allowed));
    assert!(!may_proceed(Method::Get, "/trees", "8.8.8.8", &allowed));
    assert!(may_proceed(Method::Put, "/settings", "127.0.0.1", &allowed));
}

#[test]
fn field_specs() {
    assert_eq!(strip_type_suffix("price:f64"), "price");
    assert_eq!(strip_type_suffix("name"), "name");
    assert_eq!(strip_type_suffix("a:b:c"), "a");
    assert_eq!(parse_field_spec("n:u64"), ("n".to_string(), FieldKind::U64));
    assert_eq!(parse_field_spec("n:i64"), ("n".to_string(), FieldKind::I64));
    assert_eq!(parse_field_spec("n:f64"), ("n".to_string(), FieldKind::F64));
    assert_eq!(parse_field_spec("n:date"), ("n".to_string(), FieldKind::Text));
    assert_eq!(parse_field_spec("n"), ("n".to_string(), FieldKind::Text));
}

#[test]
fn schema_layout_and_recovery() {
    let fields = strings(&["name", "price:f64", "qty:u64"]);
    let layout = schema_layout("id", &fields);
    let names: Vec<&str> = layout.iter().map(|d| d.name.as_str()).collect();
    assert_eq!(names, vec!["id", "name", "price", "qty", "text"]);
    assert!(layout[0].stored && !layout[1].stored);
    assert_eq!(layout[2].kind, FieldKind::F64);
    let (p, back) = recover_collection(&layout).unwrap();
    assert_eq!(p, "id");
    assert_eq!(back, fields);
}

#[test]
fn tantivy_schema_round_trip() {
    let fields = strings(&["name", "price:f64", "count:u64", "delta:i64"]);
    let schema = create_tantivy_schema("objectID", &fields).unwrap();
    let (p, back) = collection_from_schema(&schema).unwrap();
    assert_eq!(p, "objectID");
    assert_eq!(back, fields);
    let described = describe_schema(&schema);
    assert_eq!(described.len(), 6);
    assert_eq!(described[5].name, "text");
    assert_eq!(described[2].kind, FieldKind::F64);
}

#[test]
fn tantivy_schema_rejects_clashing_names() {
    assert_eq!(create_tantivy_schema("id", &strings(&["a", "a"])).err(), Some(SchemaError::InvalidFields));
    assert_eq!(create_tantivy_schema("id", &strings(&["text"])).err(), Some(SchemaError::InvalidFields));
    assert_eq!(create_tantivy_schema("id", &strings(&["id"])).err(), Some(SchemaError::InvalidFields));
    assert_eq!(create_tantivy_schema("", &[]).err(), Some(SchemaError::InvalidFields));
    assert_eq!(create_tantivy_schema("-x", &[]).err(), Some(SchemaError::InvalidFields));
    assert!(create_tantivy_schema("id", &[]).is_ok());
}

#[test]
fn upsert_header_is_split_and_trimmed() {
    assert_eq!(upsert_fields(" objectID , name,price:f64 "), strings(&["objectID", "name", "price:f64"]));
    assert_eq!(upsert_fields(""), strings(&[""]));
    assert_eq!(upsert_fields("a,,b"), strings(&["a", "", "b"]));
    let s = declared_schema(Some("id, x"), None).unwrap();
    assert_eq!(s.primary_field, "id");
    assert_eq!(s.index_fields, strings(&["x"]));
    let s = declared_schema(None, Some("first")).unwrap();
    assert_eq!(s.primary_field, "first");
    assert!(s.index_fields.is_empty());
    assert!(declared_schema(None, None).is_none());
}

fn doc(fields: &[(&str, Scalar, &str)]) -> Document {
    let fs = fields
        .iter()
        .map(|(k, v, j)| DocField {
            key: k.to_string(),
            value: match v {
                Scalar::Str(s) => Scalar::Str(s.clone()),
                Scalar::Number(s) => Scalar::Number(s.clone()),
                Scalar::Other => Scalar::Other,
            },
            json: j.to_string(),
        })
        .collect();
    Document { fields: fs, bytes: vec![] }
}

#[test]
fn primary_ids() {
    let d = doc(&[("id", Scalar::Number("42".into()), "42")]);
    assert_eq!(get_object_id_from_json(&d, "id"), Some("42".to_string()));
    let d = doc(&[("id", Scalar::Str("abc".into()), "\"abc\"")]);
    assert_eq!(get_object_id_from_json(&d, "id"), Some("abc".to_string()));
    let d = doc(&[("id", Scalar::Number("-3".into()), "-3")]);
    assert_eq!(get_object_id_from_json(&d, "id"), None);
    let d = doc(&[("id", Scalar::Number("2.5".into()), "2.5")]);
    assert_eq!(get_object_id_from_json(&d, "id"), None);
    let d = doc(&[("id", Scalar::Str("".into()), "\"\"")]);
    assert_eq!(get_object_id_from_json(&d, "id"), None);
    let d = doc(&[("id", Scalar::Other, "true")]);
    assert_eq!(get_object_id_from_json(&d, "other"), None);
    assert_eq!(get_object_id_from_json(&d, "id"), None);
}

#[test]
fn index_record_texts() {
    let d = doc(&[
        ("name", Scalar::Str("Lamp".into()), "\"Lamp\""),
        ("price", Scalar::Number("12.5".into()), "12.5"),
        ("tags", Scalar::Other, "[\"a\"]"),
    ]);
    let r = index_record(&d, "7".to_string(), &strings(&["name", "price:f64", "missing"]), &strings(&["price:f64", "name", "missing"]));
    assert_eq!(r.id, "7");
    assert_eq!(
        r.fields,
        vec![("name".to_string(), "\"Lamp\"".to_string()), ("price".to_string(), "12.5".to_string())]
    );
    assert_eq!(r.text, "12.5 \"Lamp\"");
}

#[test]
fn commit_cadence() {
    let mut t = IngestTally::new();
    let mut commits = 0;
    for _ in 0..2500 {
        if t.added() {
            commits += 1;
        }
    }
    assert_eq!(commits, 2);
    t.refused();
    assert_eq!((t.count, t.errors), (2500, 1));
    assert_eq!(writer_buffer(15_000_000, 20_000_000), 20_000_000);
    assert_eq!(writer_buffer(15_000_000, 10), 15_000_000);
}

#[test]
fn planning() {
    let f = strings(&["name", "description", "category", "price"]);
    let plan = plan_query(&pairs(&[("objectID", "5"), ("color", "x")]), "objectID", &f).unwrap();
    assert!(matches!(plan, QueryPlan::DirectLookup { ref id } if id == "5"));
    let plan = plan_query(&pairs(&[("q", "Gaming")]), "objectID", &f).unwrap();
    assert!(matches!(plan, QueryPlan::IndexSearch { ref query, ref ranges } if query == "Gaming" && ranges.is_empty()));
    let plan = plan_query(&pairs(&[("category", "Electronics"), ("limit", "5"), ("q", "wireless")]), "objectID", &f).unwrap();
    assert!(matches!(plan, QueryPlan::IndexSearch { ref query, .. } if query == "category:\"Electronics\" AND wireless"));
    let plan = plan_query(&pairs(&[("filter_min_price", "10.5"), ("filter_max_price", "x")]), "objectID", &f).unwrap();
    match plan {
        QueryPlan::IndexSearch { query, ranges } => {
            assert_eq!(query, "*");
            assert_eq!(ranges.len(), 1);
            assert_eq!(ranges[0].field, "price");
            let lo = ranges[0].min.unwrap();
            assert_eq!((lo.negative, lo.mantissa, lo.exponent), (false, 105, -1));
            assert!(ranges[0].max.is_none());
        }
        _ => panic!("expected an index search"),
    }
    let plan = plan_query(&pairs(&[("limit", "3"), ("offset", "2"), ("sort_by", "price")]), "objectID", &f).unwrap();
    assert!(matches!(plan, QueryPlan::FullScan));
    match plan_query(&pairs(&[("name", "a"), ("color", "red")]), "objectID", &f) {
        Err(QueryError::NotIndexed(field)) => assert_eq!(field, "color"),
        _ => panic!("expected a refusal"),
    }
}

#[test]
fn decimals() {
    let p = |s: &str| parse_decimal(&s.chars().collect::<Vec<char>>()).map(|d| (d.negative, d.mantissa, d.exponent));
    assert_eq!(p("99.99"), Some((false, 9999, -2)));
    assert_eq!(p("-1"), Some((true, 1, 0)));
    assert_eq!(p("+.5"), Some((false, 5, -1)));
    assert_eq!(p("7."), Some((false, 7, 0)));
    assert_eq!(p("1e3"), Some((false, 1, 3)));
    assert_eq!(p("2.5E-3"), Some((false, 25, -4)));
    assert_eq!(p("1e+21"), Some((false, 1, 21)));
    assert_eq!(p("."), None);
    assert_eq!(p(""), None);
    assert_eq!(p("1e"), None);
    assert_eq!(p("e5"), None);
    assert_eq!(p("1.2.3"), None);
    assert_eq!(p("1e2.5"), None);
    assert_eq!(p("abc"), None);
    assert_eq!(p("18446744073709551615"), Some((false, 18_446_744_073_709_551_615, 0)));
}

#[test]
fn decimal_order() {
    let d = |s: &str| parse_decimal(&s.chars().collect::<Vec<char>>()).unwrap();
    assert_eq!(cmp_decimal(d("1e2"), d("100.0")), Order::Equal);
    assert_eq!(cmp_decimal(d("5"), d("1e2")), Order::Less);
    assert_eq!(cmp_decimal(d("1e21"), d("999999999999999999999")), Order::Greater);
    assert_eq!(cmp_decimal(d("-3"), d("2e-9")), Order::Less);
    assert_eq!(cmp_decimal(d("-3"), d("-2.5")), Order::Less);
    assert_eq!(cmp_decimal(d("0"), d("-0.0")), Order::Equal);
    assert_eq!(cmp_decimal(d("1e300"), d("340282366920938463463374607431768211455")), Order::Greater);
}

#[test]
fn limits_and_offsets() {
    assert_eq!(parse_usize("42"), Some(42));
    assert_eq!(parse_usize("+7"), Some(7));
    assert_eq!(parse_usize("-1"), None);
    assert_eq!(parse_usize(""), None);
    assert_eq!(parse_usize("99999999999999999999999"), None);
    assert_eq!(effective_limit(Some("3"), 100, 1000), 3);
    assert_eq!(effective_limit(Some("5000"), 100, 1000), 1000);
    assert_eq!(effective_limit(Some("x"), 100, 1000), 100);
    assert_eq!(effective_limit(None, 100, 1000), 100);
    assert_eq!(effective_offset(Some("2")), 2);
    assert_eq!(effective_offset(Some("two")), 0);
}

#[test]
fn test_settings_get() {
    let s = Settings::default();
    assert_eq!(s.port, 8080);
    assert_eq!(s.allowed_ips, strings(&["127.0.0.1"]));
    assert_eq!(s.data_path, "./data");
    assert_eq!(s.index_path, "./index");
    assert_eq!(s.upsert_index_buffer, 15_000_000);
    assert_eq!(s.compact_index_buffer, 50_000_000);
    assert_eq!(s.default_scan_limit, 100);
    assert_eq!(s.max_scan_limit, 1000);
    assert_eq!(s.payload_limit, 2_097_152);
}

#[test]
fn test_settings_update() {
    let mut s = Settings::default();
    let m = apply_update(&mut s, "compact_index_buffer", &SettingValue::Unsigned(45000000));
    assert_eq!(m, Some("Updated compact_index_buffer".to_string()));
    assert_eq!(s.compact_index_buffer, 45000000);
    assert_eq!(apply_update(&mut s, "port", &SettingValue::Unsigned(0)), None);
    assert_eq!(apply_update(&mut s, "port", &SettingValue::Unsigned(70000)), None);
    assert_eq!(s.port, 8080);
    assert_eq!(apply_update(&mut s, "port", &SettingValue::Text("1".into())), None);
    let m = apply_update(&mut s, "allowed_ips", &SettingValue::List(vec![Some("10.*".into()), None]));
    assert_eq!(m, Some("Updated allowed_ips".to_string()));
    assert_eq!(s.allowed_ips, strings(&["10.*"]));
    let m = apply_update(&mut s, "allowed_ips", &SettingValue::List(vec![None]));
    assert_eq!(m, Some("Updated allowed_ips".to_string()));
    assert!(s.allowed_ips.is_empty());
    let m = apply_update(&mut s, "index_path", &SettingValue::Text("/tmp/ix".into()));
    assert_eq!(m, Some("Updated index_path".to_string()));
    assert_eq!(s.index_path, "/tmp/ix");
    assert_eq!(apply_update(&mut s, "colour", &SettingValue::Other), Some("Unknown setting: colour".to_string()));
}

#[test]
fn loaded_settings_get_defaults() {
    let entries = vec![
        ("port".to_string(), SettingValue::Unsigned(0)),
        ("rate_limit_per_second".to_string(), SettingValue::Unsigned(5)),
        ("data_path".to_string(), SettingValue::Text(String::new())),
        ("index_path".to_string(), SettingValue::Text("ix".into())),
        ("compact_index_buffer".to_string(), SettingValue::Unsigned(1)),
        ("max_scan_limit".to_string(), SettingValue::Unsigned(7)),
        ("payload_limit".to_string(), SettingValue::Text("big".into())),
        ("allowed_ips".to_string(), SettingValue::List(vec![])),
    ];
    let (r, changed) = merge_settings(&entries);
    assert!(changed);
    assert_eq!(r.port, 8080);
    assert_eq!(r.allowed_ips, strings(&["127.0.0.1"]));
    assert_eq!(r.rate_limit_per_second, 5);
    assert_eq!(r.data_path, "./data");
    assert_eq!(r.index_path, "ix");
    assert_eq!(r.upsert_index_buffer, 15_000_000);
    assert_eq!(r.compact_index_buffer, 1);
    assert_eq!(r.default_scan_limit, 100);
    assert_eq!(r.max_scan_limit, 7);
    assert_eq!(r.payload_limit, 2_097_152);
}

#[test]
fn a_complete_settings_file_is_kept() {
    let entries = vec![
        ("port".to_string(), SettingValue::Unsigned(9000)),
        ("allowed_ips".to_string(), SettingValue::List(vec![Some("10.*".into())])),
        ("rate_limit_per_second".to_string(), SettingValue::Unsigned(3)),
        ("data_path".to_string(), SettingValue::Text("d".into())),
        ("index_path".to_string(), SettingValue::Text("i".into())),
        ("upsert_index_buffer".to_string(), SettingValue::Unsigned(20_000_000)),
        ("compact_index_buffer".to_string(), SettingValue::Unsigned(30_000_000)),
        ("default_scan_limit".to_string(), SettingValue::Unsigned(10)),
        ("max_scan_limit".to_string(), SettingValue::Unsigned(20)),
        ("payload_limit".to_string(), SettingValue::Unsigned(1024)),
    ];
    let (r, changed) = merge_settings(&entries);
    assert!(!changed);
    assert_eq!(r.port, 9000);
    assert_eq!(r.allowed_ips, strings(&["10.*"]));
    assert_eq!(r.data_path, "d");
    assert_eq!(r.payload_limit, 1024);
}

#[test]
fn executor_steps() {
    let steps: Vec<ScanStep> = (0..6).map(|i| scan_step(i, 2, 3)).collect();
    assert_eq!(
        steps,
        vec![ScanStep::Skip, ScanStep::Skip, ScanStep::Take, ScanStep::Take, ScanStep::Take, ScanStep::Stop]
    );
    let got = collect_hits(
        strings(&["a", "", "b", "c"]),
        vec![Some(b"1".to_vec()), Some(b"2".to_vec()), None, Some(b"3".to_vec())],
    );
    assert_eq!(got, vec![("a".to_string(), b"1".to_vec()), ("c".to_string(), b"3".to_vec())]);
}

#[test]
fn maintenance_decisions() {
    assert!(is_confirmed(Some("true")));
    assert!(!is_confirmed(Some("True")));
    assert!(!is_confirmed(None));
    assert!(is_reserved_tree(b"__sled__default"));
    assert!(!is_reserved_tree(b"products"));
    let kept = trees_to_drop(vec![b"a".to_vec(), b"__sled__default".to_vec(), b"b".to_vec()]);
    assert_eq!(kept, vec![b"a".to_vec(), b"b".to_vec()]);
    assert_eq!(compact_action(3), CompactAction::Merge);
    assert_eq!(compact_action(1), CompactAction::NoMerge);
    assert_eq!(compact_action(0), CompactAction::NoMerge);
}

#[test]
fn test_get_trees() {
    let schema = create_tantivy_schema("objectID", &strings(&["name", "category", "price:f64", "qty:u64"])).unwrap();
    assert_eq!(
        field_listing(&schema),
        strings(&["objectID(primary, text)", "name(text)", "category(text)", "price(f64)", "qty(u64)"])
    );
}

#[test]
fn schema_fields_carry_index_options() {
    let schema = create_tantivy_schema("id", &strings(&["name", "price:f64", "qty:u64"])).unwrap();
    let defs = describe_schema(&schema);
    let opts: Vec<(bool, bool, bool, bool, Option<String>)> =
        defs.iter().map(|d| (d.stored, d.indexed, d.fast, d.positions, d.tokenizer.clone())).collect();
    let text = |stored| (stored, true, false, true, Some("default".to_string()));
    assert_eq!(
        opts,
        vec![text(true), text(false), (false, true, true, false, None), (false, true, true, false, None), text(false)]
    );
    let layout = schema_layout("id", &strings(&["name", "price:f64", "qty:u64"]));
    let planned: Vec<(bool, bool, bool, bool, Option<String>)> =
        layout.iter().map(|d| (d.stored, d.indexed, d.fast, d.positions, d.tokenizer.clone())).collect();
    assert_eq!(planned, opts);
}

#[test]
fn settings_survive_save_and_load() {
    let mut s = Settings::default();
    apply_update(&mut s, "allowed_ips", &SettingValue::List(vec![Some("10.*".into()), Some("::1".into())]));
    apply_update(&mut s, "port", &SettingValue::Unsigned(9090));
    apply_update(&mut s, "data_path", &SettingValue::Text("/srv/data".into()));
    let entries = docstore::settings::settings_entries(&s);
    assert_eq!(entries.len(), 10);
    let (back, changed) = merge_settings(&entries);
    assert!(!changed);
    assert_eq!(back.port, 9090);
    assert_eq!(back.allowed_ips, strings(&["10.*", "::1"]));
    assert_eq!(back.data_path, "/srv/data");
    assert_eq!(back.index_path, s.index_path);
    assert_eq!(back.payload_limit, s.payload_limit);
}

#[test]
fn sorting_puts_numbers_before_missing_values() {
    let docs = vec![
        doc(&[("id", Scalar::Str("a".into()), "\"a\"")]),
        doc(&[("id", Scalar::Str("b".into()), "\"b\""), ("p", Scalar::Number("2e1".into()), "20.0")]),
        doc(&[("id", Scalar::Str("c".into()), "\"c\""), ("p", Scalar::Number("3".into()), "3")]),
    ];
    let sorted = sort_documents(docs, "p", false);
    let ids: Vec<String> = sorted
        .iter()
        .map(|d| match &d.fields[0].value {
            Scalar::Str(s) => s.clone(),
            _ => String::new(),
        })
        .collect();
    assert_eq!(ids, strings(&["c", "b", "a"]));
}
