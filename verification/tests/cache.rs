use lez_registry::cache::{
    cache_path_from, load_records, search_cache_text, search_records, text_matches, upsert_record, CacheLoadError,
    CacheRecord,
};

fn rec(id: Option<&str>, name: &str, desc: &str, tags: &[&str], payload: u32) -> CacheRecord<u32> {
    CacheRecord {
        program_id: id.map(|s| s.to_string()),
        name: Some(name.to_string()),
        description: Some(desc.to_string()),
        tags: tags.iter().map(|t| t.to_string()).collect(),
        record: payload,
    }
}

fn payloads(v: &[CacheRecord<u32>]) -> Vec<u32> {
    v.iter().map(|r| r.record).collect()
}

#[test]
fn upsert_appends_new_and_replaces_existing() {
    let mut entries = vec![rec(Some("aa"), "one", "", &[], 1), rec(Some("bb"), "two", "", &[], 2)];
    assert!(upsert_record(&mut entries, rec(Some("cc"), "three", "", &[], 3)));
    assert_eq!(payloads(&entries), vec![1, 2, 3]);
    assert!(upsert_record(&mut entries, rec(Some("bb"), "two again", "", &[], 4)));
    assert_eq!(payloads(&entries), vec![1, 4, 3]);
    assert!(!upsert_record(&mut entries, rec(None, "nameless", "", &[], 5)));
    assert_eq!(payloads(&entries), vec![1, 4, 3]);
}

#[test]
fn search_matches_name_description_and_tags_ignoring_case() {
    let entries = vec![
        rec(Some("a"), "Token-Program", "fungible", &[], 1),
        rec(Some("b"), "multisig", "M-of-N TOKEN governance", &[], 2),
        rec(Some("c"), "dex", "exchange", &["Tokens", "amm"], 3),
        rec(Some("d"), "naming", "names", &["dns"], 4),
    ];
    assert_eq!(payloads(&search_records(entries, "token")), vec![1, 2, 3]);
}

#[test]
fn search_with_empty_query_returns_everything() {
    let entries = vec![
        rec(Some("a"), "x", "y", &[], 1),
        CacheRecord { program_id: None, name: None, description: None, tags: vec![], record: 2 },
    ];
    assert_eq!(payloads(&search_records(entries, "")), vec![1, 2]);
}

#[test]
fn search_without_match_is_empty() {
    let entries = vec![rec(Some("a"), "x", "y", &["z"], 1)];
    assert!(search_records(entries, "nothing").is_empty());
}

#[test]
fn substring_search() {
    assert!(text_matches("hello world", "lo w"));
    assert!(text_matches("abc", ""));
    assert!(!text_matches("abc", "abcd"));
    assert!(text_matches("ünïcode", "ïc"));
    assert!(!text_matches("abc", "ac"));
}

#[test]
fn cache_path_resolution() {
    assert_eq!(cache_path_from(Some("/x/cache.json".to_string()), Some("/home/u".to_string())), "/x/cache.json");
    assert_eq!(
        cache_path_from(Some(String::new()), Some("/home/u".to_string())),
        "/home/u/.local/share/spelbook/programs.json"
    );
    assert_eq!(
        cache_path_from(None, Some("/home/u/".to_string())),
        "/home/u/.local/share/spelbook/programs.json"
    );
    assert_eq!(cache_path_from(None, None), "/tmp/.local/share/spelbook/programs.json");
}

#[test]
fn cache_file_text_is_read_element_by_element() {
    let text = r#"[
        {"program_id": "aa", "name": "Token", "description": "fungible", "tags": ["defi", 3, "Swap"]},
        {"program_id": 7, "name": "multisig"},
        "not an object"
    ]"#;
    let records = load_records(text).unwrap();
    assert_eq!(records.len(), 3);
    assert_eq!(records[0].program_id, Some("aa".to_string()));
    assert_eq!(records[0].name, Some("Token".to_string()));
    assert_eq!(records[0].description, Some("fungible".to_string()));
    assert_eq!(records[0].tags, vec!["defi".to_string(), "Swap".to_string()]);
    assert_eq!(records[0].record["tags"][1], serde_json::Value::from(3));
    assert_eq!(records[1].program_id, None);
    assert_eq!(records[1].name, Some("multisig".to_string()));
    assert!(records[1].tags.is_empty());
    assert_eq!(records[2].name, None);

    let found = search_records(records, "swap");
    assert_eq!(found.len(), 1);
    assert_eq!(found[0].record["name"], serde_json::Value::from("Token"));

    assert!(matches!(load_records("{\"program_id\": \"aa\"}"), Err(CacheLoadError::NotArray)));
    assert!(matches!(load_records("[1, "), Err(CacheLoadError::NotJson(_))));
    assert_eq!(load_records("[]").unwrap().len(), 0);
}

#[test]
fn cache_search_returns_the_stored_elements() {
    let text = r#"[{"name": "Token", "description": "fungible", "tags": ["defi"]},
                  {"name": "lez-multisig", "description": "M-of-N", "tags": ["Governance"]}]"#;
    let found = search_cache_text(text, "GOVERN").unwrap();
    let expected: serde_json::Value =
        serde_json::from_str(r#"{"name": "lez-multisig", "description": "M-of-N", "tags": ["Governance"]}"#).unwrap();
    assert_eq!(found, vec![expected]);

    let all = search_cache_text(text, "").unwrap();
    assert_eq!(all.len(), 2);
    assert_eq!(all[0]["name"], serde_json::Value::from("Token"));
    assert!(search_cache_text(text, "nothing").unwrap().is_empty());
    assert!(matches!(search_cache_text("{}", "x"), Err(CacheLoadError::NotArray)));
    assert!(matches!(search_cache_text("not json", ""), Err(CacheLoadError::NotJson(_))));

    let loaded = load_records(text).unwrap();
    assert_eq!(loaded[1].record, all[1]);
}
