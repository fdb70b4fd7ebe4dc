//! Documents as JSON, collections of documents, and the documents that a broker gives.

use automerge::transaction::Transactable;
use automerge::{Automerge, ObjType};
use peat_mesh::broker::store_adapter::StoreBrokerAdapter;
use peat_mesh::json::{object_insert, Json, Number};
use peat_mesh::storage::automerge_store::AutomergeStore;
use peat_mesh::storage::json_convert::{automerge_to_json, json_to_automerge};
use peat_mesh::storage::typed_collection::TypedCollection;
use serde_json::Value;

fn doubles(bits: u64) -> automerge::ScalarValue {
    automerge::ScalarValue::F64(f64::from_bits(bits))
}

fn from_serde(value: &Value) -> Json {
    match value {
        Value::Null => Json::Null,
        Value::Bool(b) => Json::Bool(*b),
        Value::Number(n) => Json::Number(if let Some(u) = n.as_u64() {
            Number::Unsigned(u)
        } else if let Some(i) = n.as_i64() {
            Number::Negative(i)
        } else {
            Number::Double(n.as_f64().unwrap().to_bits())
        }),
        Value::String(s) => Json::Text(s.clone()),
        Value::Array(items) => Json::Array(items.iter().map(from_serde).collect()),
        Value::Object(map) => {
            let mut entries = Vec::new();
            for (key, item) in map {
                object_insert(&mut entries, key.clone(), from_serde(item));
            }
            Json::Object(entries)
        }
    }
}

fn to_serde(json: &Json) -> Value {
    match json {
        Json::Null => Value::Null,
        Json::Bool(b) => Value::from(*b),
        Json::Number(Number::Unsigned(u)) => Value::from(*u),
        Json::Number(Number::Negative(i)) => Value::from(*i),
        Json::Number(Number::Double(bits)) => Value::from(f64::from_bits(*bits)),
        Json::Text(s) => Value::from(s.as_str()),
        Json::Array(items) => Value::Array(items.iter().map(to_serde).collect()),
        Json::Object(entries) => Value::Object(entries.iter().map(|(k, v)| (k.clone(), to_serde(v))).collect()),
    }
}

fn parse(text: &str) -> Value {
    serde_json::from_str(text).unwrap()
}

fn read(doc: &Automerge) -> Value {
    to_serde(&automerge_to_json(doc))
}

fn write(value: &Value, existing: Option<&Automerge>) -> Result<Automerge, String> {
    json_to_automerge(&from_serde(value), existing, &doubles)
}

fn listed(adapter: &StoreBrokerAdapter, collection: &str) -> Option<Vec<Value>> {
    adapter.list_documents(collection).map(|docs| docs.iter().map(to_serde).collect())
}

#[derive(Debug, Clone, PartialEq)]
struct SensorReading {
    device: String,
    temperature_c: f64,
}

impl SensorReading {
    fn to_json(&self) -> Json {
        let mut entries = Vec::new();
        object_insert(&mut entries, "device".to_string(), Json::Text(self.device.clone()));
        object_insert(
            &mut entries,
            "temperature_c".to_string(),
            Json::Number(Number::Double(self.temperature_c.to_bits())),
        );
        Json::Object(entries)
    }

    fn from_json(json: &Value) -> SensorReading {
        SensorReading {
            device: json["device"].as_str().unwrap().to_string(),
            temperature_c: json["temperature_c"].as_f64().unwrap(),
        }
    }
}

/// A collection of sensor readings.
struct Readings(TypedCollection);

impl Readings {
    fn new(name: &str) -> Self {
        Readings(TypedCollection::new(name))
    }

    fn upsert(&self, store: &mut AutomergeStore, id: &str, reading: &SensorReading) -> Result<(), String> {
        self.0.upsert(store, id, &reading.to_json(), &doubles)
    }

    fn get_json(&self, store: &AutomergeStore, id: &str) -> Result<Option<Value>, String> {
        Ok(self.0.get_json(store, id).map(|json| to_serde(&json)))
    }

    fn get(&self, store: &AutomergeStore, id: &str) -> Result<Option<SensorReading>, String> {
        Ok(self.get_json(store, id)?.map(|json| SensorReading::from_json(&json)))
    }

    fn delete(&self, store: &mut AutomergeStore, id: &str) -> Result<(), String> {
        self.0.delete(store, id);
        Ok(())
    }

    fn scan_json(&self, store: &AutomergeStore) -> Result<Vec<(String, Value)>, String> {
        Ok(self.0.scan_json(store).iter().map(|(id, json)| (id.clone(), to_serde(json))).collect())
    }

    fn scan(&self, store: &AutomergeStore) -> Result<Vec<(String, SensorReading)>, String> {
        Ok(self.scan_json(store)?.iter().map(|(id, json)| (id.clone(), SensorReading::from_json(json))).collect())
    }

    fn count(&self, store: &AutomergeStore) -> Result<usize, String> {
        Ok(self.0.count(store))
    }
}

#[test]
fn test_automerge_to_json_simple() {
    let mut doc = Automerge::new();
    doc.transact::<_, _, automerge::AutomergeError>(|tx| {
        tx.put(automerge::ROOT, "name", "test")?;
        tx.put(automerge::ROOT, "count", 42i64)?;
        tx.put(automerge::ROOT, "active", true)?;
        Ok(())
    })
    .unwrap();

    let json = read(&doc);
    assert_eq!(json["name"], "test");
    assert_eq!(json["count"], 42);
    assert_eq!(json["active"], true);
}

#[test]
fn test_automerge_to_json_nested_map() {
    let mut doc = Automerge::new();
    doc.transact::<_, _, automerge::AutomergeError>(|tx| {
        let pos = tx.put_object(automerge::ROOT, "position", ObjType::Map)?;
        tx.put(&pos, "lat", 37.7749)?;
        tx.put(&pos, "lon", -122.4194)?;
        Ok(())
    })
    .unwrap();

    let json = read(&doc);
    assert_eq!(json["position"]["lat"], 37.7749);
    assert_eq!(json["position"]["lon"], -122.4194);
}

#[test]
fn test_automerge_to_json_list() {
    let mut doc = Automerge::new();
    doc.transact::<_, _, automerge::AutomergeError>(|tx| {
        let tags = tx.put_object(automerge::ROOT, "tags", ObjType::List)?;
        tx.insert(&tags, 0, "alpha")?;
        tx.insert(&tags, 1, "beta")?;
        Ok(())
    })
    .unwrap();

    let json = read(&doc);
    assert_eq!(json["tags"][0], "alpha");
    assert_eq!(json["tags"][1], "beta");
}

#[test]
fn test_json_to_automerge_roundtrip() {
    let json = parse(r#"{ "name": "test", "count": 42, "active": true, "tags": ["a", "b"] }"#);

    let doc = write(&json, None).unwrap();
    let result = read(&doc);

    assert_eq!(result["name"], "test");
    assert_eq!(result["count"], 42);
    assert_eq!(result["active"], true);
    assert_eq!(result["tags"][0], "a");
    assert_eq!(result["tags"][1], "b");
}

#[test]
fn test_json_to_automerge_nested_roundtrip() {
    let json = parse(r#"{ "position": {"lat": 37.7, "lon": -122.4}, "name": "hq" }"#);

    let doc = write(&json, None).unwrap();
    let result = read(&doc);

    assert_eq!(result["position"]["lat"], 37.7);
    assert_eq!(result["position"]["lon"], -122.4);
    assert_eq!(result["name"], "hq");
}

#[test]
fn test_json_to_automerge_preserves_crdt() {
    let json1 = parse(r#"{"name": "v1", "count": 1}"#);
    let doc1 = write(&json1, None).unwrap();

    let json2 = parse(r#"{"name": "v2", "count": 2}"#);
    let doc2 = write(&json2, Some(&doc1)).unwrap();

    let result = read(&doc2);
    assert_eq!(result["name"], "v2");
    assert_eq!(result["count"], 2);
}

#[test]
fn test_json_to_automerge_deletes_stale_keys() {
    let json1 = parse(r#"{"name": "test", "old_field": "will be deleted"}"#);
    let doc1 = write(&json1, None).unwrap();

    let json2 = parse(r#"{"name": "test"}"#);
    let doc2 = write(&json2, Some(&doc1)).unwrap();

    let result = read(&doc2);
    assert_eq!(result["name"], "test");
    assert!(result.get("old_field").is_none());
}

#[test]
fn test_empty_document() {
    let doc = Automerge::new();
    let json = read(&doc);
    assert_eq!(json, parse(r#"{}"#));
}

#[test]
fn test_json_to_automerge_rejects_non_object() {
    let json = parse(r#""just a string""#);
    assert!(write(&json, None).is_err());
}

#[test]
fn test_typed_upsert_and_get() {
    let mut store = AutomergeStore::in_memory();
    let sensors = Readings::new("sensors");

    let reading = SensorReading {
        device: "sensor-42".into(),
        temperature_c: 23.5,
    };
    sensors.upsert(&mut store, "r001", &reading).unwrap();

    let result = sensors.get(&store, "r001").unwrap().unwrap();
    assert_eq!(result.device, "sensor-42");
    assert_eq!(result.temperature_c, 23.5);
}

#[test]
fn test_typed_get_missing() {
    let mut store = AutomergeStore::in_memory();
    let sensors = Readings::new("sensors");
    assert!(sensors.get(&store, "nonexistent").unwrap().is_none());
}

#[test]
fn test_typed_scan() {
    let mut store = AutomergeStore::in_memory();
    let sensors = Readings::new("sensors");

    sensors
        .upsert(
            &mut store,
            "r001",
            &SensorReading {
                device: "a".into(),
                temperature_c: 20.0,
            },
        )
        .unwrap();
    sensors
        .upsert(
            &mut store,
            "r002",
            &SensorReading {
                device: "b".into(),
                temperature_c: 30.0,
            },
        )
        .unwrap();

    let results = sensors.scan(&store).unwrap();
    assert_eq!(results.len(), 2);
}

#[test]
fn test_typed_delete() {
    let mut store = AutomergeStore::in_memory();
    let sensors = Readings::new("sensors");

    sensors
        .upsert(
            &mut store,
            "r001",
            &SensorReading {
                device: "a".into(),
                temperature_c: 20.0,
            },
        )
        .unwrap();
    assert!(sensors.get(&store, "r001").unwrap().is_some());

    sensors.delete(&mut store, "r001").unwrap();
    assert!(sensors.get(&store, "r001").unwrap().is_none());
}

#[test]
fn test_typed_count() {
    let mut store = AutomergeStore::in_memory();
    let sensors = Readings::new("sensors");

    assert_eq!(sensors.count(&store).unwrap(), 0);

    sensors
        .upsert(
            &mut store,
            "r001",
            &SensorReading {
                device: "a".into(),
                temperature_c: 20.0,
            },
        )
        .unwrap();
    sensors
        .upsert(
            &mut store,
            "r002",
            &SensorReading {
                device: "b".into(),
                temperature_c: 30.0,
            },
        )
        .unwrap();

    assert_eq!(sensors.count(&store).unwrap(), 2);
}

#[test]
fn test_typed_get_json() {
    let mut store = AutomergeStore::in_memory();
    let sensors = Readings::new("sensors");

    sensors
        .upsert(
            &mut store,
            "r001",
            &SensorReading {
                device: "x".into(),
                temperature_c: 25.0,
            },
        )
        .unwrap();

    let json = sensors.get_json(&store, "r001").unwrap().unwrap();
    assert_eq!(json["device"], "x");
    assert_eq!(json["temperature_c"], 25.0);
}

#[test]
fn test_typed_scan_json() {
    let mut store = AutomergeStore::in_memory();
    let sensors = Readings::new("sensors");

    sensors
        .upsert(
            &mut store,
            "r001",
            &SensorReading {
                device: "a".into(),
                temperature_c: 20.0,
            },
        )
        .unwrap();

    let results = sensors.scan_json(&store).unwrap();
    assert_eq!(results.len(), 1);
    assert_eq!(results[0].0, "r001");
    assert_eq!(results[0].1["device"], "a");
}

#[test]
fn test_typed_upsert_preserves_crdt() {
    let mut store = AutomergeStore::in_memory();
    let sensors = Readings::new("sensors");

    sensors
        .upsert(
            &mut store,
            "r001",
            &SensorReading {
                device: "a".into(),
                temperature_c: 20.0,
            },
        )
        .unwrap();

    // Update same doc — should fork, not create new
    sensors
        .upsert(
            &mut store,
            "r001",
            &SensorReading {
                device: "a".into(),
                temperature_c: 25.0,
            },
        )
        .unwrap();

    let result = sensors.get(&store, "r001").unwrap().unwrap();
    assert_eq!(result.temperature_c, 25.0);
}

#[test]
fn test_collection_isolation() {
    let mut store = AutomergeStore::in_memory();
    let sensors = Readings::new("sensors");
    let other = Readings::new("other");

    sensors
        .upsert(
            &mut store,
            "r001",
            &SensorReading {
                device: "a".into(),
                temperature_c: 20.0,
            },
        )
        .unwrap();

    assert!(other.get(&store, "r001").unwrap().is_none());
    assert_eq!(other.count(&store).unwrap(), 0);
    assert_eq!(sensors.count(&store).unwrap(), 1);
}

#[test]
fn test_list_documents_empty() {
    let mut store = AutomergeStore::in_memory();
    let adapter = StoreBrokerAdapter::new(&store);
    assert!(adapter.list_documents("test").is_none());
}

#[test]
fn test_list_documents() {
    let mut store = AutomergeStore::in_memory();

    let json = parse(r#"{"name": "doc1", "value": 42}"#);
    let am_doc = write(&json, None).unwrap();
    store.put("test:doc1", am_doc);

    let adapter = StoreBrokerAdapter::new(&store);
    let docs = listed(&adapter, "test").unwrap();
    assert_eq!(docs.len(), 1);
    assert_eq!(docs[0]["_id"], "doc1");
    assert_eq!(docs[0]["name"], "doc1");
    assert_eq!(docs[0]["value"], 42);
}

#[test]
fn test_get_document_missing() {
    let mut store = AutomergeStore::in_memory();
    let adapter = StoreBrokerAdapter::new(&store);
    assert!(adapter.get_document("test", "missing").is_none());
}

#[test]
fn test_get_document() {
    let mut store = AutomergeStore::in_memory();

    let json = parse(r#"{"name": "doc1"}"#);
    let am_doc = write(&json, None).unwrap();
    store.put("test:doc1", am_doc);

    let adapter = StoreBrokerAdapter::new(&store);
    let doc = to_serde(&adapter.get_document("test", "doc1").unwrap());
    assert_eq!(doc["_id"], "doc1");
    assert_eq!(doc["name"], "doc1");
}

#[test]
fn test_list_documents_multiple_collections() {
    let mut store = AutomergeStore::in_memory();

    let json_a = parse(r#"{"name": "a"}"#);
    let json_b = parse(r#"{"name": "b"}"#);
    store.put("col1:doc1", write(&json_a, None).unwrap());
    store.put("col2:doc1", write(&json_b, None).unwrap());

    let adapter = StoreBrokerAdapter::new(&store);

    let col1_docs = listed(&adapter, "col1").unwrap();
    assert_eq!(col1_docs.len(), 1);
    assert_eq!(col1_docs[0]["name"], "a");

    let col2_docs = listed(&adapter, "col2").unwrap();
    assert_eq!(col2_docs.len(), 1);
    assert_eq!(col2_docs[0]["name"], "b");
}

#[test]
fn test_every_kind_of_value_comes_back() {
    let json = parse(
        r#"{"a": null, "b": [true, [], {"x": {}, "y": [-5, 1.5, "t"]}], "c": 9223372036854775807, "d": {"e": -0.0}, "": 1}"#,
    );
    let doc = write(&json, None).unwrap();
    assert_eq!(read(&doc), json);
    assert_eq!(read(&write(&json, Some(&doc)).unwrap()), json);
}

#[test]
fn test_large_integers_become_doubles() {
    let doc = write(&parse(r#"{"n": 9223372036854775808, "m": 18446744073709551615}"#), None).unwrap();
    assert_eq!(read(&doc)["n"], 9223372036854775808.0);
    assert_eq!(read(&doc)["m"], 18446744073709551616.0);
}

#[test]
fn test_zero_over_negative_zero() {
    let doc = write(&parse(r#"{"z": -0.0}"#), None).unwrap();
    let over = write(&parse(r#"{"z": 0.0}"#), Some(&doc)).unwrap();
    assert!(read(&over)["z"].as_f64().unwrap().is_sign_negative());
    let fresh = write(&parse(r#"{"z": 0.0}"#), None).unwrap();
    assert!(read(&fresh)["z"].as_f64().unwrap().is_sign_positive());
}

#[test]
fn test_other_values_read_as_null() {
    let mut doc = Automerge::new();
    doc.transact::<_, _, automerge::AutomergeError>(|tx| {
        tx.put(automerge::ROOT, "bytes", vec![1u8, 2])?;
        tx.put(automerge::ROOT, "counter", automerge::ScalarValue::counter(3))?;
        tx.put(automerge::ROOT, "nan", f64::NAN)?;
        tx.put(automerge::ROOT, "inf", f64::INFINITY)?;
        tx.put(automerge::ROOT, "at", automerge::ScalarValue::Timestamp(-7))?;
        tx.put(automerge::ROOT, "u", 5u64)?;
        tx.put_object(automerge::ROOT, "text", ObjType::Text)?;
        Ok(())
    })
    .unwrap();
    let expected = r#"{"bytes": null, "counter": null, "nan": null, "inf": null, "at": -7, "u": 5, "text": null}"#;
    assert_eq!(read(&doc), parse(expected));
}

#[test]
fn test_nested_values_are_replaced() {
    let doc = write(&parse(r#"{"a": {"x": 1, "y": 2}, "b": [1, 2, 3]}"#), None).unwrap();
    let next = parse(r#"{"a": {"y": 3}, "b": [4]}"#);
    assert_eq!(read(&write(&next, Some(&doc)).unwrap()), next);
    // The document that was forked stays as it is.
    assert_eq!(read(&doc), parse(r#"{"a": {"x": 1, "y": 2}, "b": [1, 2, 3]}"#));
}

#[test]
fn test_rejection_text() {
    assert_eq!(write(&parse("[1]"), None).unwrap_err(), "Root value must be a JSON object");
    let mut store = AutomergeStore::in_memory();
    let c = TypedCollection::new("c");
    assert!(c.upsert(&mut store, "id", &Json::Null, &doubles).is_err());
    assert_eq!(c.count(&store), 0);
}

#[test]
fn test_keys_of_a_collection() {
    let c = TypedCollection::new("col");
    assert_eq!(c.key("a:b"), "col:a:b");
    assert_eq!(c.id_of("col:a:b"), Some("a:b".to_string()));
    assert_eq!(c.id_of("column:a"), None);
    assert_eq!(c.id_of("col"), None);
}

#[test]
fn test_injected_id_replaces_the_field() {
    let mut store = AutomergeStore::in_memory();
    store.put("col:d", write(&parse(r#"{"_id": "other", "z": 1}"#), None).unwrap());
    let adapter = StoreBrokerAdapter::new(&store);
    let doc = to_serde(&adapter.get_document("col", "d").unwrap());
    assert_eq!(doc, parse(r#"{"_id": "d", "z": 1}"#));
}

#[test]
fn test_store_scan() {
    let mut store = AutomergeStore::in_memory();
    for key in ["a:1", "a:2", "ab:1", "b"] {
        store.put(key, Automerge::new());
    }
    store.delete("a:2");
    store.delete("missing");
    store.put("a:1", Automerge::new());
    let keys: Vec<&String> = store.scan_prefix("a:").iter().map(|(key, _)| *key).collect();
    assert_eq!(keys, ["a:1"]);
    assert_eq!(store.scan_prefix("").len(), 3);
    assert!(store.get("b").is_some());
    assert!(store.get("a:2").is_none());
}

/// The hashes of the changes that a document was made by.
fn changes(doc: &Automerge) -> Vec<automerge::ChangeHash> {
    doc.get_changes(&[]).iter().map(|change| change.hash()).collect()
}

#[test]
fn test_update_keeps_the_history() {
    let doc1 = write(&parse(r#"{"a": 1}"#), None).unwrap();
    assert_eq!(changes(&doc1).len(), 1);
    let doc2 = write(&parse(r#"{"a": 2}"#), Some(&doc1)).unwrap();
    assert_eq!(changes(&doc2).len(), 2);
    assert!(changes(&doc2).contains(&changes(&doc1)[0]));
    assert_eq!(changes(&write(&parse("{}"), None).unwrap()).len(), 0);
}

#[test]
fn test_upsert_keeps_the_history() {
    let mut store = AutomergeStore::in_memory();
    let sensors = Readings::new("sensors");
    let reading = |t: f64| SensorReading { device: "a".into(), temperature_c: t };
    sensors.upsert(&mut store, "r1", &reading(20.0)).unwrap();
    let first = changes(store.get("sensors:r1").unwrap());
    sensors.upsert(&mut store, "r1", &reading(25.0)).unwrap();
    let second = changes(store.get("sensors:r1").unwrap());
    assert_eq!((first.len(), second.len()), (1, 2));
    assert!(second.contains(&first[0]));
}
