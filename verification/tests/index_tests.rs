use mirror_registry::errors::RegistryError;
use mirror_registry::hashes::md5_hex;
use mirror_registry::hashes::sha256_hex;
use mirror_registry::hashes::to_hex;
use mirror_registry::index::append;
use mirror_registry::index::get_exact;
use mirror_registry::index::set_yank;
use mirror_registry::index::CrateInfo;
use mirror_registry::index::IndexMetadata;
use mirror_registry::paths::crate_file_name;
use mirror_registry::paths::download_url;
use mirror_registry::paths::get_path;
use mirror_registry::paths::storage_rel_path;
use mirror_registry::version::parse_version;
use mirror_registry::version::version_cmp;
use mirror_registry::version::version_lt;
use mirror_registry::version::Cmp;

fn info(name: &str, vers: &str) -> CrateInfo {
    CrateInfo {
        name: String::from(name),
        vers: String::from(vers),
        deps: Vec::new(),
        features: Vec::new(),
        authors: vec![String::from("someone")],
        description: Some(String::from("a package")),
        documentation: None,
        homepage: None,
        readme: None,
        readme_file: None,
        keywords: vec![String::from("mirror")],
        categories: Vec::new(),
        license: Some(String::from("MIT")),
        license_file: None,
        repository: None,
        badges: Vec::new(),
        links: None,
    }
}

fn record(name: &str, vers: &str, cksum: &str, yanked: bool) -> IndexMetadata {
    IndexMetadata {
        name: String::from(name),
        vers: String::from(vers),
        deps: Vec::new(),
        cksum: String::from(cksum),
        features: Vec::new(),
        yanked,
        links: None,
    }
}

#[test]
fn index_path_layout() {
    assert_eq!(get_path("a"), "1/a");
    assert_eq!(get_path("ab"), "2/ab");
    assert_eq!(get_path("abc"), "3/a/abc");
    assert_eq!(get_path("abcdef"), "ab/cd/abcdef");
}

#[test]
fn storage_layout_and_url() {
    assert_eq!(crate_file_name("foo", "0.1.0"), "foo-0.1.0.crate");
    assert_eq!(storage_rel_path("foo", "0.1.0"), "foo/foo-0.1.0.crate");
    assert_eq!(
        download_url("https://crates.example", "bar", "1.0.0"),
        "https://crates.example/api/v1/crates/bar/1.0.0/download"
    );
}

#[test]
fn version_parse_and_order() {
    let a = parse_version("1.2.3").unwrap();
    assert_eq!((a.major, a.minor, a.patch), (1, 2, 3));
    assert!(a.pre.is_empty() && a.build.is_empty());

    let b = parse_version("1.2.10").unwrap();
    assert!(version_lt(&a, &b));
    assert!(!version_lt(&b, &a));

    let pre = parse_version("1.2.3-alpha.2").unwrap();
    assert!(version_lt(&pre, &a));
    let pre10 = parse_version("1.2.3-alpha.10").unwrap();
    assert!(version_lt(&pre, &pre10));
    let num = parse_version("1.2.3-2").unwrap();
    assert!(version_lt(&num, &pre));

    let build = parse_version("1.2.3+bc17664").unwrap();
    assert!(version_lt(&a, &build));
    assert_eq!(version_cmp(&a, &parse_version("1.2.3").unwrap()), Cmp::Eq);

    assert!(parse_version("not-a-version").is_none());
    assert!(parse_version("1.2").is_none());
}

#[test]
fn get_exact_finds_first_match() {
    let records = vec![record("foo", "0.1.0", "aa", false), record("foo", "0.2.0", "bb", true)];
    assert_eq!(get_exact(&records, "0.2.0").unwrap(), 1);
    assert_eq!(get_exact(&records, "0.3.0").unwrap_err(), RegistryError::NotFound);
}

#[test]
fn append_requires_strictly_greater_version() {
    let mut records = Vec::new();
    append(&mut records, info("foo", "0.1.0"), String::from("aa")).unwrap();
    assert_eq!(records.len(), 1);
    assert_eq!(records[0].vers, "0.1.0");
    assert_eq!(records[0].cksum, "aa");
    assert!(!records[0].yanked);

    // the same version again is a conflict
    let again = append(&mut records, info("foo", "0.1.0"), String::from("bb"));
    assert_eq!(again.unwrap_err(), RegistryError::Conflict);
    assert_eq!(records.len(), 1);

    // a smaller version is a conflict
    let smaller = append(&mut records, info("foo", "0.0.9"), String::from("cc"));
    assert_eq!(smaller.unwrap_err(), RegistryError::Conflict);

    // a greater version goes through
    append(&mut records, info("foo", "0.2.0"), String::from("dd")).unwrap();
    assert_eq!(records.len(), 2);
    assert_eq!(records[1].vers, "0.2.0");

    // an unreadable version is refused
    let bad = append(&mut records, info("foo", "zzz"), String::from("ee"));
    assert_eq!(bad.unwrap_err(), RegistryError::InvalidRequest);
}

#[test]
fn yank_toggles_exactly_once() {
    let mut records = vec![record("foo", "0.1.0", "aa", false), record("foo", "0.2.0", "bb", false)];
    set_yank(&mut records, "0.1.0", true).unwrap();
    assert!(records[0].yanked);
    assert!(!records[1].yanked);
    assert_eq!(records[0].cksum, "aa");

    // yanking a yanked version fails
    let twice = set_yank(&mut records, "0.1.0", true);
    assert_eq!(twice.unwrap_err(), RegistryError::Conflict);

    // unyanking a version that is not yanked fails
    let not_yanked = set_yank(&mut records, "0.2.0", false);
    assert_eq!(not_yanked.unwrap_err(), RegistryError::Conflict);

    // a missing version is not found
    let missing = set_yank(&mut records, "9.9.9", true);
    assert_eq!(missing.unwrap_err(), RegistryError::NotFound);
}

#[test]
fn yank_then_unyank_restores_the_records() {
    let before = vec![record("foo", "0.1.0", "aa", false), record("foo", "0.2.0", "bb", false)];
    let mut records =
        vec![record("foo", "0.1.0", "aa", false), record("foo", "0.2.0", "bb", false)];
    set_yank(&mut records, "0.1.0", true).unwrap();
    set_yank(&mut records, "0.1.0", false).unwrap();
    assert_eq!(records.len(), before.len());
    for (a, b) in records.iter().zip(before.iter()) {
        assert_eq!(a.name, b.name);
        assert_eq!(a.vers, b.vers);
        assert_eq!(a.cksum, b.cksum);
        assert_eq!(a.yanked, b.yanked);
    }
}

#[test]
fn hex_digests_match_known_values() {
    assert_eq!(to_hex(&vec![0u8, 1, 0xab, 0xff]), "0001abff");
    assert_eq!(
        sha256_hex(b"abc"),
        "ba7816bf8f01cfea414140de5dae2223b00361a396177a9cb410ff61f20015ad"
    );
    assert_eq!(
        sha256_hex(b""),
        "e3b0c44298fc1c149afbf4c8996fb92427ae41e4649b934ca495991b7852b855"
    );
    assert_eq!(md5_hex(b"abc"), "900150983cd24fb0d6963f7d28e17f72");
    // cross-check the trusted digests against the outside crates directly
    assert_eq!(md5_hex(b"xyz"), format!("{:?}", md5::compute(b"xyz")));
}
