use lez_registry::storage::{
    cid_from_response, decode_content, download_url, encode_content, idl_from_bytes, idl_from_content, upload_url,
    IdlError,
};

#[test]
fn urls_drop_trailing_slashes() {
    assert_eq!(upload_url("http://localhost:8080//"), "http://localhost:8080/api/storage/v1/data");
    assert_eq!(upload_url("http://localhost:8080"), "http://localhost:8080/api/storage/v1/data");
    assert_eq!(
        download_url("http://h:1/", "bafyabc"),
        "http://h:1/api/storage/v1/data/bafyabc/network/stream"
    );
}

#[test]
fn cid_from_json_or_plain_body() {
    assert_eq!(cid_from_response("{\"cid\":\"bafyjson\"}"), "bafyjson");
    assert_eq!(cid_from_response(" {\"cid\": \"bafyspaced\", \"size\": 3}\n"), "bafyspaced");
    assert_eq!(cid_from_response("{\"cid\": 5}"), "{\"cid\": 5}");
    assert_eq!(cid_from_response("  \"bafyplain\"\n"), "bafyplain");
    assert_eq!(cid_from_response("bafyraw"), "bafyraw");
    assert_eq!(cid_from_response("\"\"\""), "");
    assert_eq!(cid_from_response("\u{3000}\t\"bafyws\"\u{a0}\u{2028}"), "bafyws");
    assert_eq!(cid_from_response("\u{200b}x\u{85}"), "\u{200b}x");
}

#[test]
fn content_base64_roundtrip() {
    let bytes = b"{\"idl\": true}".to_vec();
    let text = encode_content(&bytes);
    assert_eq!(text, "eyJpZGwiOiB0cnVlfQ==");
    assert_eq!(decode_content(&text), Ok(bytes));
    assert!(decode_content("not base64!").is_err());
    assert!(decode_content("eyJpZGwiOiB0cnVlfQ=").is_err());
}

#[test]
fn idl_documents_from_downloaded_content() {
    let idl = idl_from_content("eyJpZGwiOiB0cnVlfQ==").ok().unwrap();
    assert_eq!(idl["idl"], serde_json::Value::Bool(true));
    assert!(matches!(idl_from_content("not base64!"), Err(IdlError::Base64(_))));
    let not_json = encode_content(b"{\"idl\":");
    match idl_from_content(&not_json) {
        Err(IdlError::NotJson(m)) => assert!(!m.is_empty()),
        _ => panic!("truncated JSON was accepted"),
    }
    assert_eq!(idl_from_bytes(b"[1, 2]").ok(), Some(serde_json::Value::from(vec![1, 2])));
    assert!(idl_from_bytes(b"nope").is_err());
}
