use std::io::Write;

use aurme::codec::{decode_index, encode_index};
use aurme::index::build_index;
use aurme::record::Record;
use aurme::store::{parse_into_alphabet_map, plan_load, refresh_from_payload, LoadAction, StoreError};

fn rec(name: &str, version: &str, popularity: u64, depends: Vec<&str>) -> Record {
    Record::new(
        String::from(name),
        Some(format!("about {}", name)),
        Some(String::from(version)),
        Some(popularity),
        Some(format!("/cgit/{}.tar.gz", name)),
        Some(depends.into_iter().map(String::from).collect()),
    )
}

fn gzip(data: &[u8]) -> Vec<u8> {
    let mut enc = flate2::write::GzEncoder::new(Vec::new(), flate2::Compression::default());
    enc.write_all(data).unwrap();
    enc.finish().unwrap()
}

#[test]
fn persisting_and_reloading_matches_direct_partitioning() {
    let records = vec![
        rec("alpha", "1.0", 5, vec!["beta"]),
        rec("amber", "2.0", 1, vec![]),
        rec("beta", "0.3", 9, vec!["alpha", "gamma"]),
        rec("0ad", "4", 7, vec![]),
    ];
    let direct = build_index(&records);
    let blob = encode_index(&direct);
    let reloaded = decode_index(blob.as_str()).expect("own encoding decodes");
    assert_eq!(reloaded.shard_count(), direct.shard_count());
    for k in 0..direct.shard_count() {
        let a = direct.get_shard(k);
        let b = reloaded.get_shard(k);
        assert_eq!(a.len(), b.len());
        for j in 0..a.len() {
            assert_eq!(a[j].name, b[j].name);
            assert_eq!(a[j].version, b[j].version);
            assert_eq!(a[j].description, b[j].description);
            assert_eq!(a[j].popularity, b[j].popularity);
            assert_eq!(a[j].url_path, b[j].url_path);
            assert_eq!(a[j].depends, b[j].depends);
        }
    }
}

#[test]
fn empty_index_has_a_fixed_encoding() {
    let empty: Vec<Record> = Vec::new();
    let idx = build_index(&empty);
    let blob = encode_index(&idx);
    assert_eq!(blob, "0:".repeat(27));
    assert!(decode_index(blob.as_str()).is_some());
}

#[test]
fn unusual_record_text_round_trips() {
    let records = vec![rec("colon", "1:2.3-4", 0, vec![]), {
        let mut r = rec("weird", "1", 2, vec![]);
        r.description = String::from("has : and \n and 99:digits \u{1F600}");
        r
    }];
    let idx = build_index(&records);
    let blob = encode_index(&idx);
    let back = decode_index(blob.as_str()).expect("decodes");
    let shard = back.get_shard(aurme::keys::key_index("weird"));
    assert_eq!(shard[0].description, "has : and \n and 99:digits \u{1F600}");
}

#[test]
fn corrupt_cache_text_is_detected_not_trusted() {
    assert!(decode_index("").is_none());
    assert!(decode_index("garbage").is_none());
    assert!(decode_index("0:0:").is_none());
    let records = vec![rec("alpha", "1.0", 5, vec![])];
    let idx = build_index(&records);
    let blob = encode_index(&idx);
    let mut truncated = blob.clone();
    truncated.pop();
    assert!(decode_index(truncated.as_str()).is_none());
    let mut trailing = blob.clone();
    trailing.push('x');
    assert!(decode_index(trailing.as_str()).is_none());
    let misfiled = blob.replacen("alpha", "1lpha", 1);
    assert!(decode_index(misfiled.as_str()).is_none());
}

#[test]
fn corrupt_cache_falls_back_to_a_rebuild_equal_to_a_forced_refresh() {
    let dump = r#"[{"Name":"alpha","Version":"1.0","Popularity":2.5},
                   {"Name":"beta","Version":"0.1","Popularity":1.0}]"#;
    assert!(decode_index("corrupted cache file").is_none());
    let rebuilt = parse_into_alphabet_map(dump).expect("fresh build works");
    let forced = parse_into_alphabet_map(dump).expect("forced refresh works");
    let a = encode_index(&rebuilt);
    let b = encode_index(&forced);
    assert_eq!(a, b);
    let alpha = aurme::index::query_exact_package("alpha", &rebuilt).unwrap();
    assert_eq!(alpha.version, "1.0");
}

#[test]
fn plan_load_decides_refresh_exactly_when_forced_or_missing() {
    assert_eq!(plan_load(true, true), LoadAction::Refresh);
    assert_eq!(plan_load(true, false), LoadAction::Refresh);
    assert_eq!(plan_load(false, false), LoadAction::Refresh);
    assert_eq!(plan_load(false, true), LoadAction::UseCache);
}

#[test]
fn refresh_from_payload_builds_and_serializes_the_index() {
    let dump = r#"[{"Name":"foo","Version":"1.2","Popularity":0.5},
                   {"Name":"0ad","Version":"3","Popularity":9.25}]"#;
    let payload = gzip(dump.as_bytes());
    let (idx, blob) = refresh_from_payload(&payload).expect("valid payload");
    let foo = aurme::index::query_exact_package("foo", &idx).expect("foo indexed");
    assert_eq!(foo.version, "1.2");
    assert_eq!(foo.popularity, 500_000);
    let reloaded = decode_index(blob.as_str()).expect("blob decodes");
    let again = aurme::index::query_exact_package("0ad", &reloaded).expect("0ad persisted");
    assert_eq!(again.popularity, 9_250_000);
}

#[test]
fn refresh_rejects_malformed_gzip() {
    let r = refresh_from_payload(&vec![1, 2, 3, 4]);
    assert_eq!(r.unwrap_err(), StoreError::DecompressionError);
}

#[test]
fn refresh_rejects_payload_that_is_not_a_record_list() {
    let payload = gzip(b"{\"not\":\"a list\"}");
    match refresh_from_payload(&payload) {
        Err(StoreError::ParseError(_)) => {},
        other => panic!("expected a parse error, got {:?}", other),
    }
}

#[test]
fn refresh_rejects_payload_that_is_not_text() {
    let payload = gzip(&[0xff, 0xfe, 0x80, 0x80]);
    match refresh_from_payload(&payload) {
        Err(StoreError::ParseError(_)) => {},
        other => panic!("expected a parse error, got {:?}", other),
    }
}

#[test]
fn parse_into_alphabet_map_refuses_invalid_text() {
    match parse_into_alphabet_map("[broken") {
        Err(StoreError::ParseError(_)) => {},
        other => panic!("expected a parse error, got {:?}", other),
    }
}

#[test]
fn oversized_length_prefix_is_corrupt() {
    assert!(decode_index("99999999999999999999999999:x").is_none());
    assert!(decode_index("3:ab").is_none());
}
