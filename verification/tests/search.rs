use gob::parse_pkg_index::ppkgi;
use gob::search::{install_targets, matching_packages, missing_packages, searchpkg, unmatched_packages};

fn sv(xs: &[&str]) -> Vec<String> {
    xs.iter().map(|x| x.to_string()).collect()
}

const INDEX: &str = "{\nname=firefox\n}\n{\nname=fire\n}\n{\nname=vim\n}\n";

#[test]
fn searchpkg_succeeds_when_all_terms_are_names() {
    let idx = searchpkg(&sv(&["vim", "fire"]), &INDEX.to_string()).ok().unwrap();
    assert_eq!(idx.len(), 3);
}

#[test]
fn searchpkg_reports_missing_terms_in_order() {
    let missing = searchpkg(&sv(&["zsh", "vim", "fir", "emacs"]), &INDEX.to_string()).err().unwrap();
    assert_eq!(missing, sv(&["zsh", "fir", "emacs"]));
}

#[test]
fn searchpkg_with_no_terms_succeeds() {
    assert!(searchpkg(&vec![], &INDEX.to_string()).is_ok());
}

#[test]
fn missing_packages_of_parsed_index() {
    let idx = ppkgi(&INDEX.to_string());
    assert_eq!(missing_packages(&sv(&["vim", "nano"]), &idx), sv(&["nano"]));
}

#[test]
fn matching_is_by_substring_in_index_order() {
    let idx = ppkgi(&INDEX.to_string());
    assert_eq!(matching_packages(&idx, &sv(&["fire"])), sv(&["firefox", "fire"]));
    assert_eq!(matching_packages(&idx, &sv(&["im", "fox"])), sv(&["firefox", "vim"]));
    assert_eq!(matching_packages(&idx, &sv(&["emacs"])), Vec::<String>::new());
}

#[test]
fn empty_term_matches_every_package() {
    let idx = ppkgi(&INDEX.to_string());
    assert_eq!(matching_packages(&idx, &sv(&[""])).len(), 3);
}

#[test]
fn unmatched_terms_are_those_in_no_name() {
    let idx = ppkgi(&INDEX.to_string());
    assert_eq!(unmatched_packages(&idx, &sv(&["fox", "nano", "v", "z"])), sv(&["nano", "z"]));
}

#[test]
fn not_found_iff_not_listed() {
    let idx = ppkgi(&INDEX.to_string());
    let terms = sv(&["ref", "xyz", "vi"]);
    let listed = matching_packages(&idx, &terms);
    let unmatched = unmatched_packages(&idx, &terms);
    for t in &terms {
        let in_listed = listed.iter().any(|n| n.contains(t.as_str()));
        assert_eq!(unmatched.contains(t), !in_listed);
    }
}

#[test]
fn install_targets_are_exact_names() {
    let idx = ppkgi(&INDEX.to_string());
    assert_eq!(install_targets(&idx, &sv(&["fire", "vi"])), sv(&["fire"]));
    assert_eq!(install_targets(&idx, &sv(&["vim", "firefox"])), sv(&["firefox", "vim"]));
}

#[test]
fn every_known_term_is_installed() {
    let terms = sv(&["vim", "fire"]);
    let idx = searchpkg(&terms, &INDEX.to_string()).ok().unwrap();
    let targets = install_targets(&idx, &terms);
    for t in &terms {
        assert!(targets.contains(t));
    }
}
