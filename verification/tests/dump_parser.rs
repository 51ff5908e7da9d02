use aurme::jsonparse::{parse_records, parse_version_response};

#[test]
fn parses_a_flat_record_array() {
    let text = r#"[
        {"Name":"foo","Version":"1.2-1","Description":"A tool","Popularity":1.5,
         "URLPath":"/cgit/foo.tar.gz","Depends":["bar","baz"]},
        {"Name":"bar","Version":"2.0"}
    ]"#;
    let records = parse_records(text).expect("valid dump");
    assert_eq!(records.len(), 2);
    assert_eq!(records[0].name, "foo");
    assert_eq!(records[0].version, "1.2-1");
    assert_eq!(records[0].description, "A tool");
    assert_eq!(records[0].popularity, 1_500_000);
    assert_eq!(records[0].url_path, "/cgit/foo.tar.gz");
    assert_eq!(records[0].depends, vec![String::from("bar"), String::from("baz")]);
    assert_eq!(records[1].name, "bar");
    assert_eq!(records[1].description, "No description provided");
    assert_eq!(records[1].popularity, 0);
    assert_eq!(records[1].url_path, "");
    assert!(records[1].depends.is_empty());
}

#[test]
fn missing_version_defaults_to_one() {
    let records = parse_records(r#"[{"Name":"x"}]"#).expect("valid");
    assert_eq!(records[0].version, "1");
}

#[test]
fn null_description_and_depends_take_defaults() {
    let records =
        parse_records(r#"[{"Name":"x","Description":null,"Depends":null}]"#).expect("valid");
    assert_eq!(records[0].description, "No description provided");
    assert!(records[0].depends.is_empty());
}

#[test]
fn unknown_members_are_skipped() {
    let text = r#"[{"Name":"x","ID":12,"OutOfDate":null,"Keywords":["a","b"],
        "Meta":{"nested":[1,-2.5,true,false,{"y":[]}]},"Maintainer":"who"}]"#;
    let records = parse_records(text).expect("valid");
    assert_eq!(records.len(), 1);
    assert_eq!(records[0].name, "x");
}

#[test]
fn string_escapes_are_decoded() {
    let text = "[{\"Name\":\"x\",\"Description\":\"a\\\"b\\\\c\\u0041\\n\\t\"}]";
    let records = parse_records(text).expect("valid");
    assert_eq!(records[0].description, "a\"b\\cA\n\t");
}

#[test]
fn surrogate_pairs_become_one_character() {
    let text = "[{\"Name\":\"x\",\"Description\":\"\\uD83D\\uDE00\"}]";
    let records = parse_records(text).expect("valid");
    assert_eq!(records[0].description, "\u{1F600}");
}

#[test]
fn lone_surrogate_is_rejected() {
    assert!(parse_records("[{\"Name\":\"x\",\"Description\":\"\\uD83D\"}]").is_none());
}

#[test]
fn popularity_is_fixed_point_in_millionths() {
    let records = parse_records(
        r#"[{"Name":"a","Popularity":0},
            {"Name":"b","Popularity":12.674039},
            {"Name":"c","Popularity":0.000001},
            {"Name":"d","Popularity":3.14159265},
            {"Name":"e","Popularity":-2.5}]"#,
    )
    .expect("valid");
    assert_eq!(records[0].popularity, 0);
    assert_eq!(records[1].popularity, 12_674_039);
    assert_eq!(records[2].popularity, 1);
    assert_eq!(records[3].popularity, 3_141_592);
    assert_eq!(records[4].popularity, 0);
}

#[test]
fn exponent_popularity_is_rejected() {
    assert!(parse_records(r#"[{"Name":"a","Popularity":1e3}]"#).is_none());
}

#[test]
fn empty_array_is_a_valid_empty_dump() {
    let records = parse_records(" [ ] ").expect("valid");
    assert_eq!(records.len(), 0);
}

#[test]
fn rejects_non_arrays_and_broken_text() {
    assert!(parse_records("").is_none());
    assert!(parse_records("{}").is_none());
    assert!(parse_records("not json").is_none());
    assert!(parse_records("[{]").is_none());
    assert!(parse_records(r#"[{"Name":"x"}"#).is_none());
    assert!(parse_records(r#"[{"Name":"x"}] trailing"#).is_none());
}

#[test]
fn rejects_records_without_a_usable_name() {
    assert!(parse_records(r#"[{"Version":"1"}]"#).is_none());
    assert!(parse_records(r#"[{"Name":""}]"#).is_none());
    assert!(parse_records(r#"[{"Name":null}]"#).is_none());
}

#[test]
fn rejects_duplicate_known_members() {
    assert!(parse_records(r#"[{"Name":"x","Name":"y"}]"#).is_none());
    assert!(parse_records(r#"[{"Name":"x","Popularity":1,"Popularity":2}]"#).is_none());
}

#[test]
fn response_yields_the_results_records() {
    let text = r#"{"resultcount":2,"results":[
        {"Name":"foo","Version":"2.0-1"},{"Name":"bar","Version":"0.5"}],
        "type":"multiinfo","version":5}"#;
    let records = parse_version_response(text).expect("valid response");
    assert_eq!(records.len(), 2);
    assert_eq!(records[0].name, "foo");
    assert_eq!(records[0].version, "2.0-1");
}

#[test]
fn response_without_results_member_is_rejected() {
    assert!(parse_version_response(r#"{"resultcount":0,"version":5}"#).is_none());
    assert!(parse_version_response("[]").is_none());
    assert!(parse_version_response("").is_none());
}

#[test]
fn response_with_empty_results_is_valid_and_empty() {
    let records =
        parse_version_response(r#"{"resultcount":0,"results":[],"version":5}"#).expect("valid");
    assert_eq!(records.len(), 0);
}

#[test]
fn oversized_popularity_saturates() {
    let records = parse_records(
        r#"[{"Name":"a","Popularity":99999999999999999999999999.9}]"#,
    )
    .expect("valid");
    assert_eq!(records[0].popularity, u64::MAX);
}

#[test]
fn fraction_beyond_six_digits_is_truncated() {
    let records = parse_records(r#"[{"Name":"a","Popularity":0.1234567899}]"#).expect("valid");
    assert_eq!(records[0].popularity, 123_456);
}
