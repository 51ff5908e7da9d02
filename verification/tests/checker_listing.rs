use aurme::checker::{check_for_updates, evaluate_version_response, UpdateCheck};
use aurme::listing::{check_if_packages_installed, get_installed_packages};
use aurme::record::InstalledPackage;

fn installed(name: &str, version: &str) -> InstalledPackage {
    InstalledPackage::new(String::from(name), String::from(version))
}

fn response(name: &str, version: &str) -> String {
    format!(
        "{{\"resultcount\":1,\"results\":[{{\"Name\":\"{}\",\"Version\":\"{}\"}}],\"version\":5}}",
        name, version
    )
}

#[test]
fn evaluate_flags_a_version_difference() {
    let p = installed("foo", "1.0");
    let c = evaluate_version_response(&p, response("foo", "2.0").as_str()).expect("parsable");
    assert!(c.needs_update);
    assert_eq!(c.latest_version, "2.0");
    assert_eq!(c.package.name, "foo");
}

#[test]
fn evaluate_sees_equal_versions_as_fresh() {
    let p = installed("foo", "2.0");
    let c = evaluate_version_response(&p, response("foo", "2.0").as_str()).expect("parsable");
    assert!(!c.needs_update);
}

#[test]
fn evaluate_drops_broken_responses_and_missing_names() {
    let p = installed("foo", "1.0");
    assert!(evaluate_version_response(&p, "transport error page").is_none());
    assert!(evaluate_version_response(&p, response("bar", "2.0").as_str()).is_none());
}

#[test]
fn batch_keeps_exactly_the_items_needing_an_update() {
    let packages = [
        installed("a", "1"),
        installed("b", "1"),
        installed("c", "1"),
        installed("d", "1"),
        installed("e", "1"),
    ];
    let bodies = [
        response("a", "2"),
        String::from("simulated transport failure"),
        response("c", "1"),
        response("d", "9"),
        response("e", "1"),
    ];
    let mut results: Vec<Option<UpdateCheck>> = Vec::new();
    for (p, body) in packages.iter().zip(bodies.iter()) {
        results.push(evaluate_version_response(p, body.as_str()));
    }
    let updates = check_for_updates(results);
    assert_eq!(updates.len(), 2);
    let mut names: Vec<&str> = updates.iter().map(|u| u.package.name.as_str()).collect();
    names.sort();
    assert_eq!(names, vec!["a", "d"]);
}

#[test]
fn batch_result_ignores_arrival_order() {
    let packages = [installed("a", "1"), installed("d", "1")];
    let bodies = [response("a", "2"), response("d", "9")];
    let forward: Vec<Option<UpdateCheck>> = packages
        .iter()
        .zip(bodies.iter())
        .map(|(p, b)| evaluate_version_response(p, b.as_str()))
        .collect();
    let backward: Vec<Option<UpdateCheck>> = packages
        .iter()
        .zip(bodies.iter())
        .rev()
        .map(|(p, b)| evaluate_version_response(p, b.as_str()))
        .collect();
    let mut f: Vec<String> =
        check_for_updates(forward).iter().map(|u| u.package.name.clone()).collect();
    let mut b: Vec<String> =
        check_for_updates(backward).iter().map(|u| u.package.name.clone()).collect();
    f.sort();
    b.sort();
    assert_eq!(f, b);
}

#[test]
fn listing_parses_name_version_lines() {
    let entries = get_installed_packages("foo 1.0-1\nbar 2:3.4\n");
    assert_eq!(entries.len(), 2);
    assert_eq!(entries[0].name, "foo");
    assert_eq!(entries[0].version, "1.0-1");
    assert_eq!(entries[1].name, "bar");
    assert_eq!(entries[1].version, "2:3.4");
}

#[test]
fn listing_skips_blank_lines_and_pads_missing_versions() {
    let entries = get_installed_packages("\n\nsolo\n  spaced   4.2  \n");
    assert_eq!(entries.len(), 2);
    assert_eq!(entries[0].name, "solo");
    assert_eq!(entries[0].version, "");
    assert_eq!(entries[1].name, "spaced");
    assert_eq!(entries[1].version, "4.2");
}

#[test]
fn listing_of_empty_text_is_empty() {
    assert_eq!(get_installed_packages("").len(), 0);
    assert_eq!(get_installed_packages("\n").len(), 0);
}

#[test]
fn installed_check_finds_all_or_names_the_missing() {
    let entries = get_installed_packages("foo 1.0\nbar 2.0\n");
    let all = vec![String::from("bar"), String::from("foo")];
    let found = check_if_packages_installed(&all, &entries).expect("both installed");
    assert_eq!(found.len(), 2);
    assert_eq!(found[0].name, "bar");
    assert_eq!(found[0].version, "2.0");
    let some = vec![String::from("foo"), String::from("ghost"), String::from("zz")];
    let missing = check_if_packages_installed(&some, &entries).expect_err("two missing");
    assert_eq!(missing, vec![String::from("ghost"), String::from("zz")]);
}
