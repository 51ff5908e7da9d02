use aurme::index::{build_index, query_exact_package};
use aurme::keys::{key_index, name_to_key, NON_ALPHA, SHARD_COUNT};
use aurme::record::Record;

fn rec(name: &str, version: &str, popularity: u64) -> Record {
    Record::new(
        String::from(name),
        Some(format!("{} description", name)),
        Some(String::from(version)),
        Some(popularity),
        Some(format!("/cgit/{}.tar.gz", name)),
        None,
    )
}

#[test]
fn key_is_deterministic() {
    let a = name_to_key("firefox");
    let b = name_to_key("firefox");
    assert_eq!(a, b);
    assert_eq!(key_index("firefox"), key_index("firefox"));
}

#[test]
fn key_of_letter_is_lowercased_first_letter() {
    assert_eq!(name_to_key("firefox"), "f");
    assert_eq!(name_to_key("Firefox"), "f");
    assert_eq!(name_to_key("zsh"), "z");
    assert_eq!(key_index("alpha"), 0);
    assert_eq!(key_index("Zebra"), 25);
}

#[test]
fn key_of_non_letter_is_sentinel() {
    assert_eq!(name_to_key("0ad"), NON_ALPHA);
    assert_eq!(name_to_key("-dash"), "non_alpha");
    assert_eq!(key_index("0ad"), 26);
    assert_eq!(SHARD_COUNT, 27);
}

#[test]
fn build_index_places_records_in_their_shards() {
    let records = vec![rec("alpha", "1", 5), rec("beta", "2", 1), rec("0ad", "3", 2)];
    let idx = build_index(&records);
    assert_eq!(idx.shard_count(), 27);
    assert_eq!(idx.get_shard(0).len(), 1);
    assert_eq!(idx.get_shard(0)[0].name, "alpha");
    assert_eq!(idx.get_shard(1)[0].name, "beta");
    assert_eq!(idx.get_shard(26)[0].name, "0ad");
    assert_eq!(idx.get_shard(2).len(), 0);
}

#[test]
fn exact_returns_the_unique_record() {
    let records = vec![rec("alpha", "1.0", 5), rec("amber", "2.0", 1), rec("beta", "3.0", 2)];
    let idx = build_index(&records);
    let found = query_exact_package("alpha", &idx).expect("alpha is present");
    assert_eq!(found.name, "alpha");
    assert_eq!(found.version, "1.0");
    let found2 = query_exact_package("amber", &idx).expect("amber is present");
    assert_eq!(found2.version, "2.0");
}

#[test]
fn exact_returns_nothing_for_absent_names() {
    let records = vec![rec("alpha", "1.0", 5)];
    let idx = build_index(&records);
    assert!(query_exact_package("beta", &idx).is_none());
    assert!(query_exact_package("alph", &idx).is_none());
    assert!(query_exact_package("alphax", &idx).is_none());
}

#[test]
fn exact_is_case_sensitive() {
    let records = vec![rec("alpha", "1.0", 5)];
    let idx = build_index(&records);
    assert!(query_exact_package("Alpha", &idx).is_none());
}

#[test]
fn exact_returns_first_match_within_a_shard() {
    let mut r1 = rec("twin", "1", 1);
    let r2 = rec("twin", "2", 2);
    r1.description = String::from("first");
    let records = vec![r1, r2];
    let idx = build_index(&records);
    let found = query_exact_package("twin", &idx).expect("twin is present");
    assert_eq!(found.version, "1");
    assert_eq!(found.description, "first");
}
