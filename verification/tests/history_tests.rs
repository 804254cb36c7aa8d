use nixpm::history::{HistoryActions, HistoryPackage, HistoryVersions, UNSET_VERSION};
use nixpm::normalize::normalize_line;

#[test]
fn no_marker_line_is_no_change() {
    let r = HistoryPackage::from_line("just some free text");
    assert!(matches!(r.action, HistoryActions::NoChange));
    assert_eq!(r.previous_version, None);
    assert_eq!(r.current_version, None);
    assert_eq!(r.flake_url, "");
    assert_eq!(r.flake_attribute, "");
}

#[test]
fn unset_current_is_removed() {
    let r = HistoryPackage::from_line("nixpkgs#hello: 2.10 -> \u{2205}");
    assert!(matches!(r.action, HistoryActions::Removed));
    assert_eq!(r.previous_version.as_deref(), Some("2.10"));
    assert_eq!(r.current_version, None);
    assert_eq!(r.flake_url, "nixpkgs");
    assert_eq!(r.flake_attribute, "hello");
}

#[test]
fn unset_current_is_removed_even_from_unset() {
    let r = HistoryPackage::from_line("nixpkgs#hello: \u{2205} -> \u{2205}");
    assert!(matches!(r.action, HistoryActions::Removed));
    assert_eq!(r.previous_version, None);
    assert_eq!(r.current_version, None);
}

#[test]
fn unset_previous_is_added() {
    let r = HistoryPackage::from_line("nixpkgs#hello: \u{2205} -> 2.10");
    assert!(matches!(r.action, HistoryActions::Added));
    assert_eq!(r.previous_version, None);
    assert_eq!(r.current_version.as_deref(), Some("2.10"));
}

#[test]
fn concrete_sides_are_upgraded() {
    let r = HistoryPackage::from_line("nixpkgs#hello: 2.10 -> 2.12");
    assert!(matches!(r.action, HistoryActions::Upgraded));
    assert_eq!(r.previous_version.as_deref(), Some("2.10"));
    assert_eq!(r.current_version.as_deref(), Some("2.12"));
}

#[test]
fn epsilon_becomes_latest() {
    let r = HistoryPackage::from_line("nixpkgs#hello: 2.10 -> \u{3b5}");
    assert!(matches!(r.action, HistoryActions::Upgraded));
    assert_eq!(r.current_version.as_deref(), Some("latest"));
}

#[test]
fn epsilon_as_first_candidate_becomes_latest() {
    let r = HistoryPackage::from_line("nixpkgs#hello: \u{2205} -> \u{3b5},2.12");
    assert!(matches!(r.action, HistoryActions::Added));
    assert_eq!(r.current_version.as_deref(), Some("latest"));
}

#[test]
fn only_first_candidate_is_kept() {
    let r = HistoryPackage::from_line("nixpkgs#hello: 2.10 -> 2.12,2.12.1");
    assert!(matches!(r.action, HistoryActions::Upgraded));
    assert_eq!(r.current_version.as_deref(), Some("2.12"));
}

#[test]
fn empty_source_descriptor_still_parses() {
    let r = HistoryPackage::from_line(": 1.0 -> 2.0");
    assert!(matches!(r.action, HistoryActions::Upgraded));
    assert_eq!(r.flake_url, "");
    assert_eq!(r.flake_attribute, "");
}

#[test]
fn missing_hash_leaves_attribute_empty() {
    let r = HistoryPackage::from_line("nixpkgs: 1.0 -> 2.0");
    assert_eq!(r.flake_url, "nixpkgs");
    assert_eq!(r.flake_attribute, "");
}

#[test]
fn flake_identity_joins_url_and_attribute() {
    let r = HistoryPackage::from_line("nixpkgs#hello: \u{2205} -> 2.10");
    assert_eq!(r.flake(), "nixpkgs#hello");
}

#[test]
fn action_labels() {
    let added = HistoryPackage::from_line("a#b: \u{2205} -> 1");
    assert_eq!(added.label(), "added");
    let removed = HistoryPackage::from_line("a#b: 1 -> \u{2205}");
    assert_eq!(removed.label(), "removed");
    let upgraded = HistoryPackage::from_line("a#b: 1 -> 2");
    assert_eq!(upgraded.label(), "upgraded");
    let none = HistoryPackage::from_line("a b c");
    assert_eq!(none.label(), "_");
}

#[test]
fn end_to_end_reconstruction() {
    let text = "Version 1:\nnixpkgs#hello: \u{2205} -> 2.10\n\nVersion 2:\nnixpkgs#hello: 2.10 -> 2.12,2.12.1\n";
    let versions = nixpm::history::reconstruct(text).unwrap();
    let rows = versions.iter();
    assert_eq!(rows.len(), 3);
    // the initial flush stores an empty generation zero
    assert_eq!(rows[0].0, 0);
    assert!(rows[0].1.is_empty());
    let g1 = versions.get(1).unwrap();
    assert_eq!(g1.len(), 1);
    assert!(matches!(g1[0].action, HistoryActions::Added));
    assert_eq!(g1[0].flake_attribute, "hello");
    assert_eq!(g1[0].current_version.as_deref(), Some("2.10"));
    let g2 = versions.get(2).unwrap();
    assert_eq!(g2.len(), 1);
    assert!(matches!(g2[0].action, HistoryActions::Upgraded));
    assert_eq!(g2[0].previous_version.as_deref(), Some("2.10"));
    assert_eq!(g2[0].current_version.as_deref(), Some("2.12"));
    assert!(versions.get(3).is_none());
}

#[test]
fn reconstruction_excludes_non_change_lines() {
    let text = "Version 4:\nsome note without a marker\nnixpkgs#a: \u{2205} -> 1.0\n";
    let versions = nixpm::history::reconstruct(text).unwrap();
    let g4 = versions.get(4).unwrap();
    assert_eq!(g4.len(), 1);
    assert_eq!(g4[0].flake_attribute, "a");
}

#[test]
fn unparsable_generation_number_is_fatal() {
    let text = "Version x:\nnixpkgs#a: \u{2205} -> 1.0\n";
    let r = nixpm::history::reconstruct(text);
    assert!(r.is_err());
    let e = r.err().unwrap();
    assert_eq!(e.exit_code(), 1);
}

#[test]
fn headers_strip_ansi_and_trailing_colon() {
    let text = "\u{1b}[1mVersion 7:\u{1b}[0m\nnixpkgs#a: 1 -> 2\n";
    let versions = nixpm::history::reconstruct(text).unwrap();
    assert!(versions.get(7).is_some());
}

#[test]
fn round_trip_through_rows() {
    let text = "Version 1:\nnixpkgs#hello: \u{2205} -> 2.10\n\nVersion 2:\nnixpkgs#hello: 2.10 -> 2.12\n";
    let versions = nixpm::history::reconstruct(text).unwrap();
    let rows = versions.iter().clone();
    let rebuilt = HistoryVersions::from_rows(rows);
    let a = versions.iter();
    let b = rebuilt.iter();
    assert_eq!(a.len(), b.len());
    for i in 0..a.len() {
        assert_eq!(a[i].0, b[i].0);
        assert_eq!(a[i].1.len(), b[i].1.len());
        for j in 0..a[i].1.len() {
            let x = &a[i].1[j];
            let y = &b[i].1[j];
            assert_eq!(x.action, y.action);
            assert_eq!(x.previous_version, y.previous_version);
            assert_eq!(x.current_version, y.current_version);
            assert_eq!(x.flake_url, y.flake_url);
            assert_eq!(x.flake_attribute, y.flake_attribute);
        }
    }
}

#[test]
fn normalizer_strips_and_trims() {
    let line = "  \u{1b}[32mnixpkgs#hello: 1 -> 2\u{1b}[0m  ";
    assert_eq!(normalize_line(line), "nixpkgs#hello: 1 -> 2");
}

#[test]
fn normalizer_is_idempotent_on_plain_lines() {
    let once = normalize_line("  plain text  ");
    let twice = normalize_line(&once);
    assert_eq!(once, "plain text");
    assert_eq!(once, twice);
}

#[test]
fn unset_sentinel_constant() {
    assert_eq!(UNSET_VERSION, "\u{2205}");
    assert_eq!(nixpm::history::EPSILON_VERSION, "\u{3b5}");
}
