use bunkeys::error::BunkeysError;
use bunkeys::store::{Entry, Section, Store};
use std::collections::BTreeMap;

type Content = BTreeMap<String, BTreeMap<String, String>>;

fn content(store: &Store) -> Content {
    let mut map = Content::new();
    for section in store.list_sections() {
        let mut entries = BTreeMap::new();
        for key in store.list_entries(section) {
            entries.insert(key.clone(), store.get(section, key).unwrap().clone());
        }
        map.insert(section.clone(), entries);
    }
    map
}

fn sample() -> Store {
    let mut store = Store::new();
    store.set("example_section", "key", "value".to_string());
    store.set("section2", "entry_name", "val".to_string());
    store.set("section2", "Nom test", "Secret key".to_string());
    store
}

#[test]
fn set_creates_sections_and_entries_in_order() {
    let store = sample();
    assert_eq!(store.list_sections(), vec!["example_section", "section2"]);
    assert_eq!(store.list_entries("section2"), vec!["entry_name", "Nom test"]);
    assert_eq!(
        store.get(&"section2".to_string(), &"Nom test".to_string()),
        Some(&"Secret key".to_string())
    );
    assert_eq!(store.get(&"section2".to_string(), &"missing".to_string()), None);
    assert_eq!(store.get(&"missing".to_string(), &"key".to_string()), None);
    assert!(store.list_entries("missing").is_empty());
}

#[test]
fn set_replaces_a_value_in_place() {
    let mut store = sample();
    store.set("section2", "entry_name", "new".to_string());
    assert_eq!(store.list_entries("section2"), vec!["entry_name", "Nom test"]);
    assert_eq!(
        store.get(&"section2".to_string(), &"entry_name".to_string()),
        Some(&"new".to_string())
    );
}

#[test]
fn add_section_empties_an_existing_section() {
    let mut store = sample();
    store.add_section("section2".to_string());
    assert_eq!(store.list_sections(), vec!["example_section", "section2"]);
    assert!(store.list_entries("section2").is_empty());
    store.add_section("third".to_string());
    assert_eq!(store.list_sections(), vec!["example_section", "section2", "third"]);
}

#[test]
fn remove_section_and_entry() {
    let mut store = sample();
    store.remove_entry("section2", "entry_name");
    assert_eq!(store.list_entries("section2"), vec!["Nom test"]);
    store.remove_section("example_section");
    assert_eq!(store.list_sections(), vec!["section2"]);
    store.remove_section("absent");
    assert_eq!(store.list_sections(), vec!["section2"]);
    store.remove_entry("other", "x");
    assert_eq!(store.list_sections(), vec!["section2", "other"]);
    assert!(store.list_entries("other").is_empty());
}

#[test]
fn sections_convert_both_ways() {
    let sections = vec![
        Section {
            name: "a".to_string(),
            entries: vec![
                Entry { key: "k".to_string(), value: "1".to_string() },
                Entry { key: "k".to_string(), value: "2".to_string() },
            ],
        },
        Section { name: "b".to_string(), entries: vec![] },
    ];
    let store = Store::from_sections(&sections);
    assert_eq!(store.list_sections(), vec!["a", "b"]);
    assert_eq!(store.list_entries("a"), vec!["k"]);
    assert_eq!(store.get(&"a".to_string(), &"k".to_string()), Some(&"2".to_string()));
    let back = store.to_sections();
    assert_eq!(back.len(), 2);
    assert_eq!(back[0].entries.len(), 1);
    assert_eq!(back[0].entries[0].value, "2");
}

#[test]
fn saved_store_loads_back_with_the_same_key() {
    let store = sample();
    let key = vec![42u8; 32];
    let yaml = serde_yaml::to_string(&content(&store)).unwrap().into_bytes();
    let blob = Store::seal_payload(Some(key.clone()), yaml).unwrap();

    let opened = Store::open_payload(Some(key), blob.clone()).unwrap();
    let parsed: Content = serde_yaml::from_slice(&opened).unwrap();
    let mut loaded = Store::new();
    for (section, entries) in &parsed {
        loaded.add_section(section.clone());
        for (k, v) in entries {
            loaded.set(section, k, v.clone());
        }
    }
    assert_eq!(content(&loaded), content(&store));

    let wrong = vec![43u8; 32];
    assert_eq!(Store::open_payload(Some(wrong), blob), Err(BunkeysError::AuthenticationFailed));
}

#[test]
fn unencrypted_payload_passes_through() {
    let payload = b"section:\n  key: value\n".to_vec();
    let blob = Store::seal_payload(None, payload.clone()).unwrap();
    assert_eq!(blob, payload);
    assert_eq!(Store::open_payload(None, blob), Ok(payload));
}
