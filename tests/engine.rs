use std::collections::BTreeMap;

use docstore::document::{DocField, Document, Scalar};
use docstore::ingest::{prepare_document, IndexRecord, IngestTally};
use docstore::query::{param, plan_query, QueryPlan};
use docstore::refine::{apply_ranges, effective_limit, effective_offset, scan_step, sort_documents, ScanStep};
use docstore::store::collect_hits;
use docstore::registry::{declared_schema, CollectionInfo, Registry, WriteError};
use docstore::schema::create_tantivy_schema;
use docstore::maintenance::{classify_delete, DeleteAction};

use tantivy::collector::TopDocs;
use tantivy::query::QueryParser;
use tantivy::schema::{Field, FieldType, Schema, Value as _};
use tantivy::{Index, IndexWriter, TantivyDocument};

const PRODUCTS: &str = r#"{"objectID":"1","name":"Wireless Mouse","description":"Ergonomic wireless mouse with adjustable DPI and long battery life.","price":29.99,"category":"Electronics"}
{"objectID":"2","name":"Mechanical Keyboard","description":"RGB backlit mechanical keyboard with cherry switches for gaming and typing.","price":89.99,"category":"Electronics"}
{"objectID":"3","name":"Running Shoes","description":"Lightweight running shoes with cushioning for marathon training.","price":59.99,"category":"Sports"}
{"objectID":"4","name":"Coffee Maker","description":"Automatic coffee maker with programmable timer and 12-cup capacity.","price":49.99,"category":"Home Appliances"}
{"objectID":"5","name":"Bluetooth Speaker","description":"Portable Bluetooth speaker with waterproof design and 10-hour battery.","price":39.99,"category":"Electronics"}
{"objectID":"6","name":"Yoga Mat","description":"Non-slip yoga mat made from eco-friendly materials, 6mm thick.","price":24.99,"category":"Sports"}
{"objectID":"7","name":"Electric Kettle","description":"Fast-boiling electric kettle with auto shut-off and 1.7L capacity.","price":19.99,"category":"Home Appliances"}
{"objectID":"8","name":"Gaming Headset","description":"Over-ear gaming headset with noise cancellation and surround sound.","price":69.99,"category":"Electronics"}
{"objectID":"9","name":"Dumbbell Set","description":"Adjustable dumbbell set from 5 to 50 lbs for home workouts.","price":99.99,"category":"Sports"}
{"objectID":"10","name":"Blender","description":"High-speed blender with multiple settings for smoothies and soups.","price":34.99,"category":"Home Appliances"}"#;

const HEADER: &str = "objectID,name,description,category,price";

fn to_document(v: &serde_json::Value) -> Document {
    let mut fields = Vec::new();
    if let Some(obj) = v.as_object() {
        for (k, val) in obj {
            let value = match val {
                serde_json::Value::String(s) => Scalar::Str(s.clone()),
                serde_json::Value::Number(n) => Scalar::Number(n.to_string()),
                _ => Scalar::Other,
            };
            fields.push(DocField { key: k.clone(), value, json: val.to_string() });
        }
    }
    Document { fields, bytes: serde_json::to_vec(v).unwrap() }
}

fn parse_stream(body: &str) -> Vec<serde_json::Value> {
    serde_json::Deserializer::from_str(body)
        .into_iter::<serde_json::Value>()
        .map(|r| r.unwrap())
        .collect()
}

/// A collection held in memory: records by primary id, and its search index.
struct TestCollection {
    primary: String,
    index_fields: Vec<String>,
    records: BTreeMap<String, Vec<u8>>,
    index: Index,
    schema: Schema,
}

fn add_record(schema: &Schema, writer: &mut IndexWriter, primary: &str, rec: &IndexRecord) {
    let mut doc = TantivyDocument::default();
    doc.add_text(schema.get_field(primary).unwrap(), &rec.id);
    for (f, t) in &rec.fields {
        if let Ok(field) = schema.get_field(f) {
            match schema.get_field_entry(field).field_type() {
                FieldType::F64(_) => {
                    if let Ok(n) = t.parse::<f64>() {
                        doc.add_f64(field, n);
                    }
                }
                FieldType::U64(_) => {
                    if let Ok(n) = t.parse::<u64>() {
                        doc.add_u64(field, n);
                    }
                }
                _ => doc.add_text(field, t),
            }
        }
    }
    doc.add_text(schema.get_field("text").unwrap(), &rec.text);
    writer.add_document(doc).unwrap();
}

fn create_collection(header: &str, body: &str) -> (TestCollection, IngestTally) {
    let declared = declared_schema(Some(header), None).unwrap();
    let schema = create_tantivy_schema(&declared.primary_field, &declared.index_fields).unwrap();
    let index = Index::create_in_ram(schema.clone());
    let mut c = TestCollection {
        primary: declared.primary_field.clone(),
        index_fields: declared.index_fields.clone(),
        records: BTreeMap::new(),
        index,
        schema,
    };
    let tally = ingest(&mut c, &declared.index_fields, body);
    (c, tally)
}

fn ingest(c: &mut TestCollection, declared: &[String], body: &str) -> IngestTally {
    let mut writer: IndexWriter = c.index.writer_with_num_threads(1, 15_000_000).unwrap();
    let mut tally = IngestTally::new();
    for v in parse_stream(body) {
        let doc = to_document(&v);
        match prepare_document(&doc, &c.primary, &c.index_fields, declared) {
            Some(p) => {
                c.records.insert(p.key.clone(), doc.bytes.clone());
                add_record(&c.schema, &mut writer, &c.primary, &p.record);
                if tally.added() {
                    writer.commit().unwrap();
                }
            }
            None => tally.refused(),
        }
    }
    writer.commit().unwrap();
    tally
}

fn delete_by_id(c: &mut TestCollection, id: &str) -> bool {
    if c.records.remove(id).is_none() {
        return false;
    }
    let mut writer: IndexWriter = c.index.writer_with_num_threads(1, 15_000_000).unwrap();
    let field = c.schema.get_field(&c.primary).unwrap();
    writer.delete_term(tantivy::Term::from_field_text(field, id));
    writer.commit().unwrap();
    true
}

fn params(pairs: &[(&str, &str)]) -> Vec<(String, String)> {
    pairs.iter().map(|(k, v)| (k.to_string(), v.to_string())).collect()
}

fn decode(bytes: &[u8]) -> Document {
    to_document(&serde_json::from_slice::<serde_json::Value>(bytes).unwrap())
}

/// Runs a query as the service does; `Err` carries the field refused.
fn run_query(c: &TestCollection, pairs: &[(&str, &str)]) -> Result<Vec<serde_json::Value>, String> {
    let ps = params(pairs);
    let limit = effective_limit(param(&ps, "limit").map(|s| s.as_str()), 100, 1000);
    let offset = effective_offset(param(&ps, "offset").map(|s| s.as_str()));
    let plan = plan_query(&ps, &c.primary, &c.index_fields).map_err(|e| match e {
        docstore::query::QueryError::NotIndexed(f) => f,
    })?;
    let mut docs: Vec<Document> = Vec::new();
    match plan {
        QueryPlan::DirectLookup { id } => {
            if let Some(b) = c.records.get(&id) {
                docs.push(decode(b));
            }
        }
        QueryPlan::IndexSearch { query, ranges } => {
            let reader = c.index.reader().unwrap();
            let searcher = reader.searcher();
            let text_fields: Vec<Field> = c
                .schema
                .fields()
                .filter(|(_, e)| matches!(e.field_type(), FieldType::Str(_)))
                .map(|(f, _)| f)
                .collect();
            let parser = QueryParser::for_index(&c.index, text_fields);
            let q = parser.parse_query(&query).unwrap();
            let pf = c.schema.get_field(&c.primary).unwrap();
            let mut hits = Vec::new();
            let mut found = Vec::new();
            for (_, addr) in searcher.search(&q, &TopDocs::with_limit(limit)).unwrap() {
                let d: TantivyDocument = searcher.doc(addr).unwrap();
                let id = d.get_first(pf).and_then(|v| v.as_str()).unwrap().to_string();
                found.push(c.records.get(&id).cloned());
                hits.push(id);
            }
            for (_, b) in collect_hits(hits, found) {
                docs.push(decode(&b));
            }
            docs = apply_ranges(docs, &ranges);
        }
        QueryPlan::FullScan => {
            for (i, b) in c.records.values().enumerate() {
                match scan_step(i, offset, limit) {
                    ScanStep::Skip => continue,
                    ScanStep::Stop => break,
                    ScanStep::Take => docs.push(decode(b)),
                }
            }
        }
    }
    if let Some(field) = param(&ps, "sort_by") {
        let desc = param(&ps, "sort_order").map(|s| s == "desc").unwrap_or(false);
        docs = sort_documents(docs, field, desc);
    }
    Ok(docs
        .iter()
        .map(|d| serde_json::from_slice::<serde_json::Value>(&d.bytes).unwrap())
        .collect())
}

#[test]
fn test_upsert_data() {
    let (c, tally) = create_collection(HEADER, PRODUCTS);
    assert_eq!(tally.count, 10);
    assert_eq!(tally.errors, 0);
    let items = run_query(&c, &[]).unwrap();
    assert_eq!(items.len(), 10);
}

#[test]
fn test_get_all_items() {
    let (c, _) = create_collection(HEADER, PRODUCTS);
    let items = run_query(&c, &[]).unwrap();
    assert!(!items.is_empty());
    assert_eq!(items.len() as u64, 10);
}

#[test]
fn test_get_with_query() {
    let (c, _) = create_collection(HEADER, PRODUCTS);
    let items = run_query(&c, &[("q", "Gaming")]).unwrap();
    assert!(!items.is_empty());
    for item in &items {
        let name = item["name"].as_str().unwrap().to_lowercase();
        let description = item["description"].as_str().unwrap().to_lowercase();
        assert!(name.contains("gaming") || description.contains("gaming"));
    }
}

#[test]
fn test_get_with_category_filter() {
    let (c, _) = create_collection(HEADER, PRODUCTS);
    let items = run_query(&c, &[("category", "Electronics")]).unwrap();
    let mut ids: Vec<String> = items.iter().map(|i| i["objectID"].as_str().unwrap().to_string()).collect();
    ids.sort();
    assert_eq!(ids, vec!["1", "2", "5", "8"]);
    assert!(items.iter().all(|i| i["category"] == "Electronics"));
}

#[test]
fn test_get_with_price_filter() {
    let (c, _) = create_collection(HEADER, PRODUCTS);
    let items = run_query(&c, &[("price", "99.99")]).unwrap();
    assert_eq!(items.len(), 1);
    assert_eq!(items[0]["objectID"], "9");
}

#[test]
fn test_get_with_pagination() {
    let (c, _) = create_collection(HEADER, PRODUCTS);
    let items = run_query(&c, &[("limit", "3"), ("offset", "2")]).unwrap();
    assert_eq!(items.len(), 3);
    // records are walked in key order: "1", "10", "2", "3", ...
    assert_eq!(items[0]["objectID"], "2");
    assert_eq!(items[2]["objectID"], "4");
}

#[test]
fn test_get_with_sorting() {
    let (c, _) = create_collection(HEADER, PRODUCTS);
    let items = run_query(&c, &[("sort_by", "price"), ("sort_order", "desc")]).unwrap();
    assert_eq!(items.len(), 10);
    assert_eq!(items[0]["price"].as_f64().unwrap(), 99.99);
    assert_eq!(items[9]["price"].as_f64().unwrap(), 19.99);
}

#[test]
fn sorting_ascending_orders_prices() {
    let (c, _) = create_collection(HEADER, PRODUCTS);
    let items = run_query(&c, &[("sort_by", "price")]).unwrap();
    let prices: Vec<f64> = items.iter().map(|i| i["price"].as_f64().unwrap()).collect();
    let mut sorted = prices.clone();
    sorted.sort_by(|a, b| a.partial_cmp(b).unwrap());
    assert_eq!(prices, sorted);
}

#[test]
fn range_filters_keep_prices_within_bounds() {
    let (c, _) = create_collection(HEADER, PRODUCTS);
    let items = run_query(&c, &[("filter_min_price", "30"), ("filter_max_price", "60")]).unwrap();
    let mut ids: Vec<String> = items.iter().map(|i| i["objectID"].as_str().unwrap().to_string()).collect();
    ids.sort();
    assert_eq!(ids, vec!["10", "3", "4", "5"]);
}

#[test]
fn test_delete_by_primary_key() {
    let (mut c, _) = create_collection(HEADER, PRODUCTS);
    let ps = params(&[("objectID", "5")]);
    let id = param(&ps, &c.primary).unwrap().clone();
    assert_eq!(id, "5");
    assert!(delete_by_id(&mut c, &id));
    assert_eq!(run_query(&c, &[]).unwrap().len(), 9);
    assert!(run_query(&c, &[("objectID", "5")]).unwrap().is_empty());
    // the index no longer finds it either
    assert!(run_query(&c, &[("q", "Bluetooth")]).unwrap().is_empty());
    assert!(!delete_by_id(&mut c, "5"));
}

#[test]
fn round_trip_returns_the_document_verbatim() {
    let (c, _) = create_collection(HEADER, PRODUCTS);
    let items = run_query(&c, &[("objectID", "7")]).unwrap();
    let expected = parse_stream(PRODUCTS).into_iter().find(|v| v["objectID"] == "7").unwrap();
    assert_eq!(items, vec![expected]);
}

#[test]
fn overwrite_keeps_total() {
    let (mut c, _) = create_collection(HEADER, PRODUCTS);
    let declared = c.index_fields.clone();
    let tally = ingest(&mut c, &declared, r#"{"objectID":"3","name":"Trail Shoes","price":64.5,"category":"Sports"}"#);
    assert_eq!(tally.count, 1);
    assert_eq!(run_query(&c, &[]).unwrap().len(), 10);
    let items = run_query(&c, &[("objectID", "3")]).unwrap();
    assert_eq!(items[0]["name"], "Trail Shoes");
}

#[test]
fn documents_without_primary_id_are_counted_as_errors() {
    let body = r#"{"objectID":7,"name":"a"}
{"objectID":-1,"name":"b"}
{"objectID":"","name":"c"}
{"objectID":1.5,"name":"d"}
{"name":"e"}"#;
    let (c, tally) = create_collection("objectID,name", body);
    assert_eq!(tally.count, 1);
    assert_eq!(tally.errors, 4);
    assert_eq!(run_query(&c, &[("objectID", "7")]).unwrap().len(), 1);
}

#[test]
fn query_on_unindexed_field_is_refused() {
    let (c, _) = create_collection(HEADER, PRODUCTS);
    assert_eq!(run_query(&c, &[("color", "red")]), Err("color".to_string()));
    assert_eq!(run_query(&c, &[("filter_min_weight", "3")]), Err("weight".to_string()));
}

#[test]
fn schema_mismatch_is_refused() {
    let mut reg: Registry<u32> = Registry::new();
    let first = declared_schema(Some(HEADER), None).unwrap();
    assert!(matches!(reg.resolve_write("t", &first), Ok(None)));
    reg.insert(CollectionInfo { name: "t".to_string(), schema: first, index: 7 });
    let other = declared_schema(Some("sku,name"), None).unwrap();
    assert_eq!(reg.resolve_write("t", &other).err(), Some(WriteError::PrimaryMismatch));
    let same = declared_schema(Some("objectID,name"), None).unwrap();
    let found = reg.resolve_write("t", &same).unwrap().unwrap();
    assert_eq!(found.index, 7);
    assert_eq!(found.schema.index_fields.len(), 4);
    assert_eq!(reg.len(), 1);
}

#[test]
fn test_delete_collection_without_confirm() {
    assert_eq!(classify_delete(true, None), DeleteAction::Unconfirmed);
    assert_eq!(classify_delete(true, Some("yes")), DeleteAction::Unconfirmed);
}

#[test]
fn test_delete_collection_with_confirm() {
    assert_eq!(classify_delete(true, Some("true")), DeleteAction::Collection);
    assert_eq!(classify_delete(false, None), DeleteAction::ByKey);
    let mut reg: Registry<()> = Registry::new();
    let s = declared_schema(Some(HEADER), None).unwrap();
    reg.insert(CollectionInfo { name: "test_del_confirm".to_string(), schema: s, index: () });
    let removed = reg.remove("test_del_confirm").unwrap();
    assert_eq!(removed.name, "test_del_confirm");
    assert!(reg.get("test_del_confirm").is_none());
    assert_eq!(reg.len(), 0);
}

const TYPED_HEADER: &str = "objectID,name,description,category,price:f64";

#[test]
fn typed_fields_are_filtered_by_name() {
    let (c, tally) = create_collection(TYPED_HEADER, PRODUCTS);
    assert_eq!(tally.count, 10);
    let items = run_query(&c, &[("price", "99.99")]).unwrap();
    assert_eq!(items.len(), 1);
    assert_eq!(items[0]["objectID"], "9");
    assert_eq!(run_query(&c, &[("price:f64", "99.99")]), Err("price:f64".to_string()));
    let items = run_query(&c, &[("filter_max_price", "4e1")]).unwrap();
    let mut ids: Vec<String> = items.iter().map(|i| i["objectID"].as_str().unwrap().to_string()).collect();
    ids.sort();
    assert_eq!(ids, vec!["1", "10", "5", "6", "7"]);
}

#[test]
fn exponent_bounds_are_applied() {
    let (c, _) = create_collection(HEADER, PRODUCTS);
    assert!(run_query(&c, &[("filter_min_price", "1e2")]).unwrap().is_empty());
    let items = run_query(&c, &[("filter_min_price", "0.95E2")]).unwrap();
    assert_eq!(items.len(), 1);
    assert_eq!(items[0]["objectID"], "9");
}

#[test]
fn exponent_values_are_compared() {
    let body = r#"{"id":"a","v":1e21}
{"id":"b","v":2.5e-7}
{"id":"c","v":3}"#;
    let (c, _) = create_collection("id,v", body);
    let items = run_query(&c, &[("filter_min_v", "1e20")]).unwrap();
    assert_eq!(items.len(), 1);
    assert_eq!(items[0]["id"], "a");
    let items = run_query(&c, &[("sort_by", "v")]).unwrap();
    let ids: Vec<&str> = items.iter().map(|i| i["id"].as_str().unwrap()).collect();
    assert_eq!(ids, vec!["b", "c", "a"]);
}
