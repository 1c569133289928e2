use grondig::cve::{
    compute_cves, expand_cherry_picks, is_cve_unfixed, lowercase_shas, passes_file_filter,
    release_of_tag, CveRecord, FixCommit,
};
use grondig::function::cves_response;

const BT_FIX: &str = "7ffaa200251871980af12e57649ad57c70bf0f43";

fn s(x: &str) -> String {
    x.to_string()
}

fn strings(xs: &[&str]) -> Vec<String> {
    xs.iter().map(|x| x.to_string()).collect()
}

/// CVE-2024-46869: introduced in 6.10, fixed in mainline 6.12 by `BT_FIX`,
/// in drivers/bluetooth/btintel_pcie.c.
fn bluetooth_cve() -> CveRecord {
    CveRecord {
        cve: s("CVE-2024-46869"),
        vuln_versions: strings(&["6.10"]),
        fixes: vec![FixCommit { sha: s(BT_FIX), version: s("6.12") }],
        has_files: true,
        files: strings(&["drivers/bluetooth/btintel_pcie.c"]),
    }
}

/// CVE-2024-43884: introduced in 4.3, mainline fix in 6.11.
fn older_cve() -> CveRecord {
    CveRecord {
        cve: s("CVE-2024-43884"),
        vuln_versions: strings(&["4.3"]),
        fixes: vec![FixCommit {
            sha: s("538fd3921afac97158d4177139a0ad39f056dbb2"),
            version: s("6.11"),
        }],
        has_files: true,
        files: strings(&["net/bluetooth/mgmt.c"]),
    }
}

/// A CVE introduced in the 6.12.1 stable release and fixed in 6.12.3.
fn stable_fixed_cve() -> CveRecord {
    CveRecord {
        cve: s("CVE-2024-50000"),
        vuln_versions: strings(&["6.12.1"]),
        fixes: vec![FixCommit { sha: s("aaaa"), version: s("6.12.3") }],
        has_files: false,
        files: vec![],
    }
}

/// A CVE with no known vulnerable commit and no fix.
fn unknown_cve() -> CveRecord {
    CveRecord {
        cve: s("CVE-2024-59999"),
        vuln_versions: vec![],
        fixes: vec![],
        has_files: true,
        files: strings(&["scripts/dtc/fdtoverlay.c"]),
    }
}

fn database() -> Vec<CveRecord> {
    vec![older_cve(), bluetooth_cve(), stable_fixed_cve(), unknown_cve()]
}

fn cves_for(stable_tag: &str, cherry_picked: &[&str], compiled_files: &[&str]) -> Vec<String> {
    let lowered = lowercase_shas(&strings(cherry_picked));
    // The database maps each cherry-pick to itself here.
    let picks = expand_cherry_picks(&lowered, &lowered.clone());
    let mut cves = compute_cves(&database(), stable_tag, &picks, &strings(compiled_files));
    cves.sort();
    cves
}

#[test]
fn cve_fixed_in_base_version_not_reported() {
    let cves = cves_for("v6.12", &[], &[]);
    assert!(
        !cves.contains(&"CVE-2024-46869".to_string()),
        "CVE-2024-46869 should be fixed at v6.12"
    );
}

#[test]
fn cve_fixed_before_base_version_not_reported() {
    let cves = cves_for("v6.12", &[], &[]);
    assert!(
        !cves.contains(&"CVE-2024-43884".to_string()),
        "CVE-2024-43884 should be fixed at v6.12"
    );
}

#[test]
fn cve_unfixed_in_earlier_version() {
    let cves = cves_for("v6.11", &[], &[]);
    assert!(
        cves.contains(&"CVE-2024-46869".to_string()),
        "CVE-2024-46869 should be unfixed at v6.11"
    );
}

#[test]
fn reply_contains_cves_key() {
    let cves = cves_for("v6.12", &[], &[]);
    let reply = cves_response("my-sbom", "v6.12", &cves);
    assert!(reply.cves.is_some(), "reply must have a 'cves' array");
}

#[test]
fn cherry_pick_fixes_cve() {
    let fix_sha = "7ffaa200251871980af12e57649ad57c70bf0f43";
    let cves = cves_for("v6.11", &[fix_sha], &[]);
    assert!(
        !cves.contains(&"CVE-2024-46869".to_string()),
        "CVE-2024-46869 should be fixed by cherry-pick at v6.11"
    );
}

#[test]
fn without_cherry_pick_cve_is_vulnerable() {
    let cves = cves_for("v6.11", &[], &[]);
    assert!(
        cves.contains(&"CVE-2024-46869".to_string()),
        "CVE-2024-46869 should be unfixed at v6.11 without cherry-pick"
    );
}

#[test]
fn file_filter_keeps_matching_cve() {
    let cves = cves_for("v6.11", &[], &["drivers/bluetooth/btintel_pcie.c"]);
    assert!(
        cves.contains(&"CVE-2024-46869".to_string()),
        "CVE-2024-46869 should appear when its affected file is in compiled-files"
    );
}

#[test]
fn file_filter_excludes_non_matching_cve() {
    let cves = cves_for("v6.11", &[], &["scripts/dtc/fdtoverlay.c"]);
    assert!(
        !cves.contains(&"CVE-2024-46869".to_string()),
        "CVE-2024-46869 should be excluded when compiled-files don't include its file"
    );
}

#[test]
fn full_sbom_chain_returns_valid_cve_list() {
    let files = strings(&["drivers/bluetooth/btintel_pcie.c", "kernel/fork.c", "mm/memory.c"]);
    assert!(!files.is_empty(), "SBOM must have source files");
    let file_refs: Vec<&str> = files.iter().map(|f| f.as_str()).collect();
    let cherry_picked = vec!["ef9a45f7f148b319f8ed7c4e2ff9f3d7c914cb3f"];
    let cves = cves_for("v6.12.5", &cherry_picked, &file_refs);
    let unfiltered = cves_for("v6.12.5", &[], &[]);
    for cve in &cves {
        assert!(
            unfiltered.contains(cve),
            "{cve} in filtered list but not in unfiltered list"
        );
    }
    let unfiltered_count = unfiltered.len();
    let filtered_count = cves.len();
    assert!(
        filtered_count <= unfiltered_count,
        "filtered ({filtered_count}) must be <= unfiltered ({unfiltered_count})"
    );
}

#[test]
fn multiple_sbom_entries_are_independent() {
    let cves_a = cves_for("v6.11", &[], &[]);
    let cves_b = cves_for("v6.12", &[], &[]);
    assert!(
        cves_a.len() > cves_b.len(),
        "v6.11 ({}) should have more unfixed CVEs than v6.12 ({})",
        cves_a.len(),
        cves_b.len()
    );
}

#[test]
fn exact_lists_per_release() {
    assert_eq!(cves_for("v6.11", &[], &[]), strings(&["CVE-2024-46869", "CVE-2024-59999"]));
    assert_eq!(cves_for("v6.12", &[], &[]), strings(&["CVE-2024-59999"]));
    assert_eq!(cves_for("v6.12.5", &[], &[]), strings(&["CVE-2024-59999"]));
    assert_eq!(cves_for("6.12.2", &[], &[]), strings(&["CVE-2024-50000", "CVE-2024-59999"]));
}

#[test]
fn results_keep_database_order() {
    let picks: Vec<String> = vec![];
    let out = compute_cves(&database(), "v6.10", &picks, &vec![]);
    assert_eq!(out, strings(&["CVE-2024-43884", "CVE-2024-46869", "CVE-2024-59999"]));
}

#[test]
fn cve_with_no_vulnerable_commit_counts_as_affected() {
    let rec = unknown_cve();
    assert!(is_cve_unfixed(&rec, "6.12", &vec![]));
    assert!(is_cve_unfixed(&rec, "2.6.32", &vec![]));
}

#[test]
fn cve_not_yet_introduced_is_not_reported() {
    assert!(!is_cve_unfixed(&bluetooth_cve(), "6.9", &vec![]));
    assert!(!is_cve_unfixed(&stable_fixed_cve(), "6.11.8", &vec![]));
}

#[test]
fn unknown_release_of_a_commit_counts_as_reachable() {
    let mut rec = bluetooth_cve();
    rec.fixes[0].version = s("");
    assert!(!is_cve_unfixed(&rec, "6.11", &vec![]));
    rec.vuln_versions = strings(&["0"]);
    rec.fixes = vec![];
    assert!(is_cve_unfixed(&rec, "3.0", &vec![]));
}

#[test]
fn stable_fix_counts_only_in_its_stable_line() {
    let rec = stable_fixed_cve();
    assert!(!is_cve_unfixed(&rec, "6.12", &vec![]));
    assert!(is_cve_unfixed(&rec, "6.12.2", &vec![]));
    assert!(!is_cve_unfixed(&rec, "6.12.3", &vec![]));
    // A commit of a stable line is not part of the next mainline release.
    assert!(!is_cve_unfixed(&rec, "6.13", &vec![]));
}

#[test]
fn file_filter_rules() {
    let none: Vec<String> = vec![];
    assert!(passes_file_filter(&bluetooth_cve(), &none));
    assert!(passes_file_filter(&stable_fixed_cve(), &strings(&["kernel/fork.c"])));
    assert!(!passes_file_filter(&bluetooth_cve(), &strings(&["kernel/fork.c"])));
    assert!(passes_file_filter(
        &bluetooth_cve(),
        &strings(&["kernel/fork.c", "drivers/bluetooth/btintel_pcie.c"])
    ));
    let mut unnamed = bluetooth_cve();
    unnamed.files = vec![];
    assert!(!passes_file_filter(&unnamed, &strings(&["kernel/fork.c"])));
}

#[test]
fn cherry_picks_are_lowercased() {
    let lowered = lowercase_shas(&strings(&["7FFAA200251871980AF12E57649AD57C70BF0F43", "AbC"]));
    assert_eq!(lowered, strings(&[BT_FIX, "abc"]));
    let cves = cves_for("v6.11", &["7FFAA200251871980AF12E57649AD57C70BF0F43"], &[]);
    assert!(!cves.contains(&"CVE-2024-46869".to_string()));
}

#[test]
fn expansion_adds_mainline_equivalents() {
    let shas = strings(&["abc", "def"]);
    let mainline = strings(&[BT_FIX, "def"]);
    let picks = expand_cherry_picks(&shas, &mainline);
    assert_eq!(picks, strings(&["abc", BT_FIX, "def", "def"]));
    let cves = compute_cves(&database(), "v6.11", &picks, &vec![]);
    assert!(!cves.contains(&"CVE-2024-46869".to_string()));
}

#[test]
fn stable_tag_prefix() {
    assert_eq!(release_of_tag("v6.12"), "6.12");
    assert_eq!(release_of_tag("6.12"), "6.12");
    assert_eq!(release_of_tag("vv6"), "v6");
    assert_eq!(release_of_tag(""), "");
}
