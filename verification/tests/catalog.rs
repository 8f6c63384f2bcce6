use boletins::catalog::{deserialize, serialize};
use boletins::record::Bulletin;

fn rec(id: &str, name: &str, url: &str, size: &str, file_type: &str) -> Bulletin {
    Bulletin {
        id: id.to_string(),
        name: name.to_string(),
        url: url.to_string(),
        size: size.to_string(),
        file_type: file_type.to_string(),
    }
}

#[test]
fn serialize_empty_catalog() {
    let records: Vec<Bulletin> = Vec::new();
    assert_eq!(serialize(&records), "[]");
    assert_eq!(deserialize("[]"), Some(Vec::new()));
}

#[test]
fn serialize_one_record_exactly() {
    let records = vec![rec("1", "n", "/u", "2 MB", "mp4")];
    assert_eq!(
        serialize(&records),
        "[{\"id\":\"1\",\"name\":\"n\",\"url\":\"/u\",\"size\":\"2 MB\",\"file_type\":\"mp4\"}]"
    );
}

#[test]
fn serialize_escapes_quotes_and_backslashes() {
    let records = vec![rec("1", "a\"b\\c", "/u", "1", "t")];
    assert_eq!(
        serialize(&records),
        "[{\"id\":\"1\",\"name\":\"a\\\"b\\\\c\",\"url\":\"/u\",\"size\":\"1\",\"file_type\":\"t\"}]"
    );
}

#[test]
fn catalog_round_trip() {
    let records = vec![
        rec("1101", "Episode One (com legendas)", "/files/101.mp4", "45 MB", "MP4"),
        rec("", "", "/x", "10 MB", ""),
        rec("9", "quo\"te and back\\slash", "http://e/x?a=b&c=d", "1,5 MB", "pdf"),
    ];
    let text = serialize(&records);
    let back = deserialize(&text).expect("own encoding must parse");
    assert_eq!(back, records);
}

#[test]
fn round_trip_of_empty_fields() {
    let records = vec![rec("", "", "", "", "")];
    let back = deserialize(&serialize(&records)).expect("own encoding must parse");
    assert_eq!(back, records);
}

#[test]
fn deserialize_rejects_malformed_text() {
    assert_eq!(deserialize(""), None);
    assert_eq!(deserialize("["), None);
    assert_eq!(deserialize("]"), None);
    assert_eq!(deserialize("nonsense"), None);
    assert_eq!(deserialize("[{]"), None);
    assert_eq!(deserialize("[]trailing"), None);
    assert_eq!(deserialize("[{\"id\":\"1\"}]"), None);
    // The store is strict: it reads back only what it writes itself.
    assert_eq!(deserialize("[ ]"), None);
}

#[test]
fn deserialize_rejects_unterminated_string() {
    assert_eq!(deserialize("[{\"id\":\"1"), None);
    assert_eq!(deserialize("[{\"id\":\"1\\"), None);
}

#[test]
fn encoding_is_plain_json_for_other_readers() {
    let records = vec![
        rec("1101", "Episode (com legendas)", "/files/101.mp4", "45 MB", "MP4"),
        rec("7", "quo\"te", "/q", "1 MB", "pdf"),
    ];
    let text = serialize(&records);
    let value: serde_json::Value = serde_json::from_str(&text).expect("output must be valid JSON");
    let items = value.as_array().expect("a catalog is a JSON array");
    assert_eq!(items.len(), 2);
    assert_eq!(items[0].get("id").and_then(|v| v.as_str()), Some("1101"));
    assert_eq!(items[0].get("size").and_then(|v| v.as_str()), Some("45 MB"));
    assert_eq!(items[1].get("name").and_then(|v| v.as_str()), Some("quo\"te"));
    assert_eq!(items[1].get("file_type").and_then(|v| v.as_str()), Some("pdf"));
}
