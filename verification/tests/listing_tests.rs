use nixpm::package::{get_version, select_store_path, Package as InfoPackage};
use nixpm::query::{get_dir_size, verion_default, FsEntry, Package, PackageListing};

fn sample_package(paths: Vec<&str>) -> Package {
    Package {
        active: true,
        attr_path: String::from("legacyPackages.x86_64-linux.hello"),
        original_url: String::from("flake:nixpkgs"),
        outputs: None,
        priority: 5,
        store_paths: paths.into_iter().map(String::from).collect(),
        url: String::from("github:NixOS/nixpkgs"),
        homepage: None,
        installed_size: None,
        version: verion_default(),
    }
}

#[test]
fn version_default_is_latest() {
    assert_eq!(verion_default(), "latest");
}

#[test]
fn infers_version_after_key() {
    assert_eq!(get_version("foo-1.2.3", "foo").as_deref(), Some("1.2.3"));
}

#[test]
fn no_remainder_means_no_version() {
    assert_eq!(get_version("foo", "foo"), None);
}

#[test]
fn missing_key_means_no_version() {
    assert_eq!(get_version("bar-1.0", "foo"), None);
}

#[test]
fn version_comes_from_final_segment() {
    assert_eq!(
        get_version("/nix/store/abcd1234-hello-2.10", "hello").as_deref(),
        Some("2.10")
    );
}

#[test]
fn single_store_path_is_canonical_even_when_documentation() {
    let paths = vec![String::from("/nix/store/x-hello-man")];
    assert_eq!(select_store_path(&paths).map(|s| s.as_str()), Some("/nix/store/x-hello-man"));
}

#[test]
fn documentation_outputs_are_skipped() {
    let p = sample_package(vec!["/nix/store/x-hello-2.10-man", "/nix/store/x-hello-2.10"]);
    assert_eq!(p.store_path().as_deref(), Some("/nix/store/x-hello-2.10"));
}

#[test]
fn all_documentation_and_several_paths_yields_none() {
    let p = sample_package(vec!["/nix/store/a-man", "/nix/store/b-man"]);
    assert_eq!(p.store_path(), None);
}

#[test]
fn directory_sizes_sum_recursively() {
    let tree = vec![
        FsEntry::File { size: 10 },
        FsEntry::File { size: 20 },
        FsEntry::Dir { entries: vec![FsEntry::File { size: 5 }] },
    ];
    assert_eq!(get_dir_size(&tree), Some(35));
}

#[test]
fn other_entries_count_zero() {
    let tree = vec![FsEntry::Other, FsEntry::File { size: 7 }];
    assert_eq!(get_dir_size(&tree), Some(7));
}

#[test]
fn directory_size_overflow_is_none() {
    let tree = vec![FsEntry::File { size: u64::MAX }, FsEntry::File { size: 1 }];
    assert_eq!(get_dir_size(&tree), None);
}

#[test]
fn listing_orders_and_deduplicates_keys() {
    let rows = vec![
        (String::from("zsh"), sample_package(vec!["/nix/store/a-zsh-5.9"])),
        (String::from("hello"), sample_package(vec!["/nix/store/a-hello-2.10"])),
        (String::from("zsh"), sample_package(vec!["/nix/store/b-zsh-6.0"])),
    ];
    let listing = PackageListing::new(rows);
    assert_eq!(listing.keys(), vec![String::from("hello"), String::from("zsh")]);
    let rows = listing.to_vec();
    assert_eq!(rows[1].1.store_paths[0], "/nix/store/b-zsh-6.0");
    assert!(!listing.is_empty());
}

#[test]
fn empty_listing_is_empty() {
    let listing = PackageListing::new(Vec::new());
    assert!(listing.is_empty());
    assert_eq!(listing.keys(), Vec::<String>::new());
}

#[test]
fn infer_versions_enriches_in_place() {
    let rows = vec![
        (String::from("hello"), sample_package(vec!["/nix/store/a-hello-2.10"])),
        (String::from("mystery"), sample_package(vec!["/nix/store/a-unrelated"])),
    ];
    let mut listing = PackageListing::new(rows);
    listing.infer_versions();
    let rows = listing.to_vec();
    assert_eq!(rows[0].1.version, "2.10");
    assert_eq!(rows[1].1.version, "latest");
}

#[test]
fn installed_size_is_recorded_per_key() {
    let rows = vec![(String::from("hello"), sample_package(vec!["/nix/store/a-hello-2.10"]))];
    let mut listing = PackageListing::new(rows);
    assert!(listing.set_installed_size("hello", 4242));
    assert!(!listing.set_installed_size("missing", 1));
    let rows = listing.to_vec();
    assert_eq!(rows[0].1.installed_size, Some(4242));
}

#[test]
fn retain_removes_matching_entries() {
    let rows = vec![
        (String::from("hello"), sample_package(vec!["/a"])),
        (String::from("zsh"), sample_package(vec!["/b"])),
    ];
    let mut listing = PackageListing::new(rows);
    listing.retain(|key: &String, _p: &Package| key.as_str() == "hello");
    assert_eq!(listing.keys(), vec![String::from("zsh")]);
}

#[test]
fn any_finds_a_match() {
    let rows = vec![
        (String::from("hello"), sample_package(vec!["/a"])),
        (String::from("zsh"), sample_package(vec!["/b"])),
    ];
    let listing = PackageListing::new(rows);
    assert!(listing.any(|key: &String, _p: &Package| key.as_str() == "zsh"));
    assert!(!listing.any(|key: &String, _p: &Package| key.as_str() == "fish"));
}

#[test]
fn any_mut_rewrites_first_match_in_place() {
    let rows = vec![
        (String::from("hello"), sample_package(vec!["/a"])),
        (String::from("zsh"), sample_package(vec!["/b"])),
    ];
    let mut listing = PackageListing::new(rows);
    let found = listing.any_mut(
        |key: &String, _p: &Package| key.as_str() == "zsh",
        |_key: &String, p: &Package| {
            let mut q = nixpm::query::clone_package(p);
            q.version = String::from("9.9");
            q
        },
    );
    assert!(found);
    let rows = listing.to_vec();
    assert_eq!(rows[1].1.version, "9.9");
    assert_eq!(rows[0].1.version, "latest");
    let mut listing2 = PackageListing::new(Vec::new());
    let missed = listing2.any_mut(
        |_k: &String, _p: &Package| true,
        |_k: &String, p: &Package| nixpm::query::clone_package(p),
    );
    assert!(!missed);
}

#[test]
fn every_returns_the_non_matching_rows() {
    let rows = vec![
        (String::from("hello"), sample_package(vec!["/a"])),
        (String::from("zsh"), sample_package(vec!["/b"])),
    ];
    let listing = PackageListing::new(rows);
    let kept = listing.every(|key: &String, _p: &Package| key.as_str() == "hello");
    assert_eq!(kept.len(), 1);
    assert_eq!(kept[0].0, "zsh");
}

#[test]
fn for_each_visits_all_rows() {
    let rows = vec![
        (String::from("hello"), sample_package(vec!["/a"])),
        (String::from("zsh"), sample_package(vec!["/b"])),
    ];
    let listing = PackageListing::new(rows);
    listing.for_each(|_key: &String, _p: &Package| {});
}

#[test]
fn info_text_parses_into_package() {
    let text = "Name: hello\nFlake attribute: legacyPackages.hello\nOriginal flake URL: flake:nixpkgs\nStore paths: /nix/store/abc-hello-2.10\n";
    let p = InfoPackage::from(text).unwrap();
    assert_eq!(p.name, "hello");
    assert_eq!(p.flake_attribute, "legacyPackages.hello");
    assert_eq!(p.flake_url, "flake:nixpkgs");
    assert_eq!(p.version, "2.10");
    assert_eq!(p.to_version_string(), "hello 2.10");
    assert_eq!(p.display_string(), text);
}

#[test]
fn info_text_defaults_survive() {
    let p = InfoPackage::from("nothing structured here").unwrap();
    assert_eq!(p.name, "");
    assert_eq!(p.flake_attribute, "default");
    assert_eq!(p.flake_url, "");
    assert_eq!(p.version, "latest");
}

#[test]
fn info_text_skips_documentation_store_path() {
    let text = "Name: hello\nStore paths: /nix/store/a-hello-1.0-man /nix/store/a-hello-1.0\n";
    let p = InfoPackage::from(text).unwrap();
    assert_eq!(p.version, "1.0");
}
