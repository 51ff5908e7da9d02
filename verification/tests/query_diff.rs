use aurme::diff::{get_outdated_packages, orphaned_packages};
use aurme::index::build_index;
use aurme::query::{check_packages_existance, get_top_packages, handle_info};
use aurme::record::{InstalledPackage, Record};

fn rec(name: &str, description: &str, version: &str, popularity: u64) -> Record {
    Record::new(
        String::from(name),
        Some(String::from(description)),
        Some(String::from(version)),
        Some(popularity),
        None,
        None,
    )
}

fn installed(name: &str, version: &str) -> InstalledPackage {
    InstalledPackage::new(String::from(name), String::from(version))
}

#[test]
fn fuzzy_matches_name_and_description_case_insensitively() {
    let records = vec![
        rec("firefox", "Standalone web browser", "1", 50),
        rec("chromium", "A BROWSER by google", "1", 40),
        rec("vim", "a text editor", "1", 30),
    ];
    let idx = build_index(&records);
    let hits = get_top_packages("Browser", &idx, 10);
    assert_eq!(hits.len(), 2);
    assert_eq!(hits[0].name, "firefox");
    assert_eq!(hits[1].name, "chromium");
}

#[test]
fn fuzzy_mixed_case_names_match_lowercase_terms() {
    let records = vec![rec("MixedCaseTool", "nothing here", "1", 5)];
    let idx = build_index(&records);
    let hits = get_top_packages("mixedcasetool", &idx, 10);
    assert_eq!(hits.len(), 1);
    let hits2 = get_top_packages("MIXEDCASETOOL", &idx, 10);
    assert_eq!(hits2.len(), 1);
}

#[test]
fn fuzzy_never_exceeds_limit_and_sorts_by_popularity() {
    let records = vec![
        rec("editor-a", "an editor", "1", 10),
        rec("editor-b", "an editor", "1", 50),
        rec("editor-c", "an editor", "1", 30),
        rec("editor-d", "an editor", "1", 40),
        rec("editor-e", "an editor", "1", 20),
    ];
    let idx = build_index(&records);
    let hits = get_top_packages("editor", &idx, 3);
    assert_eq!(hits.len(), 3);
    assert_eq!(hits[0].name, "editor-b");
    assert_eq!(hits[1].name, "editor-d");
    assert_eq!(hits[2].name, "editor-c");
    for w in hits.windows(2) {
        assert!(w[0].popularity >= w[1].popularity);
    }
}

#[test]
fn fuzzy_empty_term_matches_everything_but_still_truncates() {
    let mut records = Vec::new();
    for i in 0..15 {
        records.push(rec(&format!("pkg{:02}", i), "x", "1", i as u64));
    }
    let idx = build_index(&records);
    let all = get_top_packages("", &idx, 100);
    assert_eq!(all.len(), 15);
    let top = get_top_packages("", &idx, 10);
    assert_eq!(top.len(), 10);
    assert_eq!(top[0].name, "pkg14");
}

#[test]
fn fuzzy_no_match_returns_empty() {
    let records = vec![rec("alpha", "first", "1", 1)];
    let idx = build_index(&records);
    assert_eq!(get_top_packages("zzz", &idx, 10).len(), 0);
}

#[test]
fn outdated_reports_version_differences_only() {
    let records = vec![rec("alpha", "d", "2.0", 1), rec("beta", "d", "1.0", 1)];
    let idx = build_index(&records);
    let ins = vec![installed("alpha", "1.0"), installed("beta", "1.0")];
    let out = get_outdated_packages(&ins, &idx);
    assert_eq!(out.len(), 1);
    assert_eq!(out[0].installed.name, "alpha");
    assert_eq!(out[0].installed.version, "1.0");
    assert_eq!(out[0].remote.version, "2.0");
}

#[test]
fn outdated_same_version_is_empty() {
    let records = vec![rec("alpha", "d", "1.0", 1)];
    let idx = build_index(&records);
    let ins = vec![installed("alpha", "1.0")];
    assert_eq!(get_outdated_packages(&ins, &idx).len(), 0);
}

#[test]
fn outdated_counts_downgrades_too() {
    let records = vec![rec("alpha", "d", "0.9", 1)];
    let idx = build_index(&records);
    let ins = vec![installed("alpha", "1.0")];
    let out = get_outdated_packages(&ins, &idx);
    assert_eq!(out.len(), 1);
    assert_eq!(out[0].remote.version, "0.9");
}

#[test]
fn orphan_is_skipped_but_reported() {
    let records = vec![rec("alpha", "d", "1.0", 1)];
    let idx = build_index(&records);
    let ins = vec![installed("gone", "1.0"), installed("alpha", "1.0")];
    let out = get_outdated_packages(&ins, &idx);
    assert_eq!(out.len(), 0);
    let orphans = orphaned_packages(&ins, &idx);
    assert_eq!(orphans.len(), 1);
    assert_eq!(orphans[0].name, "gone");
}

#[test]
fn debug_suffixed_orphans_are_silently_ignored() {
    let records = vec![rec("alpha", "d", "1.0", 1)];
    let idx = build_index(&records);
    let ins = vec![installed("alpha-debug", "1.0"), installed("tool-debug", "2.0")];
    let orphans = orphaned_packages(&ins, &idx);
    assert_eq!(orphans.len(), 0);
}

#[test]
fn outdated_follows_installed_order() {
    let records = vec![
        rec("zeta", "d", "9", 1),
        rec("alpha", "d", "9", 1),
        rec("mid", "d", "9", 1),
    ];
    let idx = build_index(&records);
    let ins = vec![installed("zeta", "1"), installed("alpha", "1"), installed("mid", "1")];
    let out = get_outdated_packages(&ins, &idx);
    assert_eq!(out.len(), 3);
    assert_eq!(out[0].installed.name, "zeta");
    assert_eq!(out[1].installed.name, "alpha");
    assert_eq!(out[2].installed.name, "mid");
}

#[test]
fn existence_check_partitions_names() {
    let records = vec![rec("alpha", "d", "1", 1), rec("beta", "d", "1", 1)];
    let idx = build_index(&records);
    let names = vec![String::from("alpha"), String::from("ghost"), String::from("beta")];
    let (missing, found) = check_packages_existance(&names, &idx);
    assert_eq!(missing, vec![String::from("ghost")]);
    assert_eq!(found.len(), 2);
    assert_eq!(found[0].name, "alpha");
    assert_eq!(found[1].name, "beta");
}

#[test]
fn info_returns_found_records_in_query_order() {
    let records = vec![rec("alpha", "d", "1", 1), rec("beta", "d", "2", 1)];
    let idx = build_index(&records);
    let names = vec![String::from("beta"), String::from("alpha"), String::from("nope")];
    let infos = handle_info(&names, &idx);
    assert_eq!(infos.len(), 2);
    assert_eq!(infos[0].name, "beta");
    assert_eq!(infos[1].name, "alpha");
}
