use lagotto::Bang;
use lagotto::StorageFile;
use lagotto::decode;
use lagotto::encode;

fn doc(pairs: &[(&str, &str)]) -> StorageFile {
    let mut d = StorageFile::new();
    for (a, u) in pairs {
        d = lagotto::append_to(d, Bang::new((*a).to_string(), (*u).to_string()));
    }
    d
}

#[test]
fn encode_empty_document() {
    let d = StorageFile::new();
    assert_eq!(encode(&d), "{\n  \"records\": []\n}");
}

#[test]
fn encode_one_record() {
    let d = doc(&[("yt", "https://youtube.com/results?search_query=")]);
    let expected = "{\n  \"records\": [\n    {\n      \"alias\": \"yt\",\n      \"url\": \"https://youtube.com/results?search_query=\"\n    }\n  ]\n}";
    assert_eq!(encode(&d), expected);
}

#[test]
fn encode_two_records_are_separated() {
    let d = doc(&[("a", "u1"), ("b", "u2")]);
    let expected = "{\n  \"records\": [\n    {\n      \"alias\": \"a\",\n      \"url\": \"u1\"\n    },\n    {\n      \"alias\": \"b\",\n      \"url\": \"u2\"\n    }\n  ]\n}";
    assert_eq!(encode(&d), expected);
}

#[test]
fn round_trip_plain() {
    let d = doc(&[("yt", "https://youtube.com/results?search_query="), ("ynx", "https://yandex.com/search/?text=")]);
    let back = decode(&encode(&d));
    assert_eq!(back, d);
}

#[test]
fn round_trip_empty() {
    let d = StorageFile::new();
    assert_eq!(decode(&encode(&d)), d);
}

#[test]
fn round_trip_escaped_characters() {
    let d = doc(&[("q\"uote", "back\\slash"), ("tab\there", "line\nbreak\rreturn")]);
    let back = decode(&encode(&d));
    assert_eq!(back, d);
}

#[test]
fn escapes_are_written_out() {
    let d = doc(&[("a\"b", "c\\d\ne")]);
    let text = encode(&d);
    assert!(text.contains("a\\\"b"));
    assert!(text.contains("c\\\\d\\ne"));
}

#[test]
fn decode_corrupt_text_is_empty() {
    let d = decode("not valid json at all");
    assert_eq!(d.records.len(), 0);
}

#[test]
fn decode_fresh_placeholder_is_empty() {
    let d = decode("{\n\n}");
    assert_eq!(d.records.len(), 0);
}

#[test]
fn decode_compact_empty_object_is_empty() {
    let d = decode("{\"records\":[]}");
    assert_eq!(d.records.len(), 0);
}

#[test]
fn decode_empty_text_is_empty() {
    let d = decode("");
    assert_eq!(d.records.len(), 0);
}

#[test]
fn decode_pretty_empty_document() {
    let d = decode("{\n  \"records\": []\n}");
    assert_eq!(d.records.len(), 0);
}

#[test]
fn decode_truncated_document_is_empty() {
    let d = doc(&[("yt", "u")]);
    let text = encode(&d);
    let cut = &text[..text.len() - 2];
    assert_eq!(decode(cut).records.len(), 0);
}

#[test]
fn find_in_returns_first_match() {
    let d = doc(&[("yt", "first"), ("yt", "second"), ("gh", "third")]);
    let found = lagotto::find_in(&d, &"yt".to_string()).unwrap();
    assert_eq!(found.url, "first");
    assert!(lagotto::find_in(&d, &"nope".to_string()).is_none());
}

#[test]
fn remove_from_drops_all_occurrences() {
    let d = doc(&[("yt", "first"), ("gh", "keep"), ("yt", "second")]);
    let d2 = lagotto::remove_from(d, &"yt".to_string());
    assert_eq!(d2.records.len(), 1);
    assert_eq!(d2.records[0].alias, "gh");
}
