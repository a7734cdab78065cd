use mirror_registry::auth::get_user_by_name;
use mirror_registry::auth::get_user_by_token;
use mirror_registry::auth::Account;
use mirror_registry::auth::NonceList;
use mirror_registry::db::needs_fallback;
use mirror_registry::db::row_matches;
use mirror_registry::db::search;
use mirror_registry::db::sort_by_name_len;
use mirror_registry::db::update;
use mirror_registry::db::Crates;
use mirror_registry::errors::RegistryError;
use mirror_registry::frame::create_crate;
use mirror_registry::hashes::sha256_hex;
use mirror_registry::index::CrateInfo;
use mirror_registry::owners::add_owners;
use mirror_registry::owners::check_owner_impl;
use mirror_registry::owners::get_owners;
use mirror_registry::owners::join_comma;
use mirror_registry::owners::remove_owners;
use mirror_registry::owners::split_comma;
use mirror_registry::pagination::Paginate;
use mirror_registry::registry::check_token;
use mirror_registry::registry::list_owners;
use mirror_registry::registry::download_retry;
use mirror_registry::registry::quick_ok;
use mirror_registry::registry::FetchDecision;
use mirror_registry::registry::Registry;
use mirror_registry::auth::AccountWithId;

fn info(name: &str, vers: &str) -> CrateInfo {
    CrateInfo {
        name: String::from(name),
        vers: String::from(vers),
        deps: Vec::new(),
        features: Vec::new(),
        authors: Vec::new(),
        description: Some(String::from("mirrors things")),
        documentation: None,
        homepage: None,
        readme: None,
        readme_file: None,
        keywords: Vec::new(),
        categories: Vec::new(),
        license: None,
        license_file: None,
        repository: None,
        badges: Vec::new(),
        links: None,
    }
}

fn account(name: &str, token: &str) -> Account {
    let mut a = Account::new(String::from(name), String::from("Internal"), String::from("User"));
    a.token(String::from(token));
    a
}

fn upstream_row(name: &str, description: &str) -> Crates {
    Crates {
        id: String::from(name),
        name: String::from(name),
        updated_at: String::new(),
        versions: None,
        keywords: None,
        categories: None,
        created_at: String::new(),
        downloads: 0,
        recent_downloads: 0,
        max_version: String::from("1.0.0"),
        newest_version: String::from("1.0.0"),
        max_stable_version: None,
        description: Some(String::from(description)),
        homepage: None,
        documentation: None,
        repository: None,
        owners: None,
    }
}

#[test]
fn publish_then_download_returns_the_uploaded_bytes() {
    let accounts = vec![account("alice", "tok-a")];
    let mut reg = Registry::new();
    let bytes = vec![1u8, 2, 3, 4, 5];
    let msg = reg
        .publish(info("foo", "0.1.0"), bytes.clone(), Some("tok-a"), &accounts, "now")
        .unwrap();
    assert_eq!(msg, "add crate foo-0.1.0");

    let at = reg.download("foo", "0.1.0").unwrap();
    assert_eq!(reg.store[at].bytes, bytes);
    assert!(reg.download("foo", "0.2.0").is_none());

    // the index record carries the checksum of the artifact bytes
    assert_eq!(reg.files.len(), 1);
    assert_eq!(reg.files[0].name, "foo");
    assert_eq!(reg.files[0].records[0].cksum, sha256_hex(&bytes));
    assert!(!reg.files[0].records[0].yanked);

    // and the row exists with the publisher as owner
    assert_eq!(reg.rows.len(), 1);
    assert_eq!(reg.rows[0].owners.as_deref(), Some("alice"));
    assert_eq!(reg.rows[0].max_version, "0.1.0");
}

#[test]
fn publish_same_version_twice_conflicts() {
    let accounts = vec![account("alice", "tok-a")];
    let mut reg = Registry::new();
    reg.publish(info("foo", "0.1.0"), vec![1u8], Some("tok-a"), &accounts, "now").unwrap();
    let again = reg.publish(info("foo", "0.1.0"), vec![2u8], Some("tok-a"), &accounts, "now");
    assert_eq!(again.unwrap_err(), RegistryError::Conflict);
    assert_eq!(reg.files[0].records.len(), 1);
    assert_eq!(reg.store.len(), 1);
}

#[test]
fn publish_by_non_owner_is_forbidden() {
    let accounts = vec![account("alice", "tok-a"), account("mallory", "tok-m")];
    let mut reg = Registry::new();
    reg.publish(info("foo", "0.1.0"), vec![1u8], Some("tok-a"), &accounts, "now").unwrap();
    let stolen = reg.publish(info("foo", "0.2.0"), vec![2u8], Some("tok-m"), &accounts, "now");
    assert_eq!(stolen.unwrap_err(), RegistryError::Forbidden);
    assert_eq!(reg.files[0].records.len(), 1);
}

#[test]
fn publish_needs_a_known_token() {
    let accounts = vec![account("alice", "tok-a")];
    let mut reg = Registry::new();
    let r = reg.publish(info("foo", "0.1.0"), vec![1u8], Some("wrong"), &accounts, "now");
    assert_eq!(r.unwrap_err(), RegistryError::Unauthorized);
    let r = reg.publish(info("foo", "0.1.0"), vec![1u8], None, &accounts, "now");
    assert_eq!(r.unwrap_err(), RegistryError::Unauthorized);
    // a token shared by two accounts marks a corrupt store
    let dup = vec![account("a", "same"), account("b", "same")];
    let r = reg.publish(info("foo", "0.1.0"), vec![1u8], Some("same"), &dup, "now");
    assert_eq!(r.unwrap_err(), RegistryError::Internal);
}

#[test]
fn yank_flips_the_flag_and_unyank_restores_it() {
    let accounts = vec![account("alice", "tok-a")];
    let mut reg = Registry::new();
    reg.publish(info("foo", "0.1.0"), vec![1u8], Some("tok-a"), &accounts, "now").unwrap();

    let msg = reg.yank("foo", "0.1.0", Some("tok-a"), &accounts).unwrap();
    assert_eq!(msg, "yank foo-0.1.0");
    assert!(reg.files[0].records[0].yanked);
    assert_eq!(quick_ok().ok, true);

    // yanking again is a conflict
    let twice = reg.yank("foo", "0.1.0", Some("tok-a"), &accounts);
    assert_eq!(twice.unwrap_err(), RegistryError::Conflict);

    let msg = reg.unyank("foo", "0.1.0", Some("tok-a"), &accounts).unwrap();
    assert_eq!(msg, "unyank foo-0.1.0");
    assert!(!reg.files[0].records[0].yanked);
    assert_eq!(reg.files[0].records[0].cksum, sha256_hex(&[1u8]));

    // unyanking a version that is not yanked is a conflict
    let not_yanked = reg.unyank("foo", "0.1.0", Some("tok-a"), &accounts);
    assert_eq!(not_yanked.unwrap_err(), RegistryError::Conflict);

    // a non-owner may not yank
    let accounts2 = vec![account("alice", "tok-a"), account("mallory", "tok-m")];
    let stolen = reg.yank("foo", "0.1.0", Some("tok-m"), &accounts2);
    assert_eq!(stolen.unwrap_err(), RegistryError::Forbidden);
}

#[test]
fn owner_mutations_validate() {
    let accounts =
        vec![account("alice", "tok-a"), account("bob", "tok-b"), account("carol", "tok-c")];
    let mut reg = Registry::new();
    reg.publish(info("foo", "0.1.0"), vec![1u8], Some("tok-a"), &accounts, "now").unwrap();

    // removing the single owner fails
    let single = reg.remove_owner("foo", vec![String::from("alice")], Some("tok-a"), &accounts);
    assert_eq!(single.unwrap_err(), RegistryError::InvalidRequest);

    // adding an unknown user fails
    let ghost_user = reg.add_owner(
        "foo",
        vec![String::from("nobody")],
        &vec![false],
        Some("tok-a"),
        &accounts,
    );
    assert_eq!(ghost_user.unwrap_err(), RegistryError::InvalidRequest);

    // adding bob works
    reg.add_owner("foo", vec![String::from("bob")], &vec![true], Some("tok-a"), &accounts)
        .unwrap();
    assert_eq!(reg.rows[0].owners.as_deref(), Some("alice,bob"));

    // adding an existing owner again is a conflict
    let dup = reg.add_owner("foo", vec![String::from("bob")], &vec![true], Some("tok-a"), &accounts);
    assert_eq!(dup.unwrap_err(), RegistryError::Conflict);

    // removing someone outside the list fails
    let absent =
        reg.remove_owner("foo", vec![String::from("carol")], Some("tok-a"), &accounts);
    assert_eq!(absent.unwrap_err(), RegistryError::InvalidRequest);

    // with two owners, one may leave
    reg.remove_owner("foo", vec![String::from("alice")], Some("tok-b"), &accounts).unwrap();
    assert_eq!(reg.rows[0].owners.as_deref(), Some("bob"));
}

#[test]
fn upstream_fetch_is_checked_against_the_index() {
    let accounts = vec![account("alice", "tok-a")];
    let mut reg = Registry::new();
    let real = vec![9u8, 9, 9];
    reg.publish(info("bar", "1.0.0"), real.clone(), Some("tok-a"), &accounts, "now").unwrap();
    // drop the artifact, as if only the index were mirrored
    reg.store.clear();
    assert!(reg.download("bar", "1.0.0").is_none());

    // wrong bytes are refused and nothing is stored
    let wrong = reg.accept_download("bar", "1.0.0", vec![1u8, 2]);
    assert_eq!(wrong.unwrap_err(), RegistryError::Integrity);
    assert!(reg.download("bar", "1.0.0").is_none());

    // a version the index does not know is not accepted at all
    let unknown = reg.accept_download("bar", "2.0.0", real.clone());
    assert_eq!(unknown.unwrap_err(), RegistryError::NotFound);

    // matching bytes are persisted; the second download hits the store
    reg.accept_download("bar", "1.0.0", real.clone()).unwrap();
    let at = reg.download("bar", "1.0.0").unwrap();
    assert_eq!(reg.store[at].bytes, real);

    // the retry policy: match persists, five misses give up
    assert_eq!(download_retry(0, true), FetchDecision::Persist);
    assert_eq!(download_retry(0, false), FetchDecision::Retry);
    assert_eq!(download_retry(3, false), FetchDecision::Retry);
    assert_eq!(download_retry(4, false), FetchDecision::GiveUp);
}

#[test]
fn search_falls_back_without_an_exact_match_and_caches_rows() {
    // an empty result set asks upstream
    assert!(needs_fallback(&Vec::new(), 0, "tokio"));
    let rows = vec![upstream_row("tokio-util", "tokio helpers")];
    assert!(needs_fallback(&rows, 1, "tokio"));
    assert!(search(rows, 1, "tokio").is_none());

    // caching upstream rows makes the exact match local
    let mut reg = Registry::new();
    reg.insert_rows(vec![upstream_row("tokio", "async runtime"), upstream_row(
        "tokio-util",
        "tokio helpers",
    )]);
    assert_eq!(reg.rows.len(), 2);
    assert!(!needs_fallback(&reg.rows, 2, "tokio"));

    // inserting again replaces by name instead of duplicating
    reg.insert_rows(vec![upstream_row("tokio", "async runtime, updated")]);
    assert_eq!(reg.rows.len(), 2);

    // a local result set with the exact name is served and sorted
    let local = vec![upstream_row("tokio-util", "tokio helpers"), upstream_row(
        "tokio",
        "async runtime",
    )];
    let result = search(local, 2, "tokio").unwrap();
    assert_eq!(result.meta.total, 2);
    assert_eq!(result.crates[0].name, "tokio");
    assert_eq!(result.crates[1].name, "tokio-util");
}

#[test]
fn row_match_is_case_insensitive_on_name_and_description() {
    let row = upstream_row("Serde-Json", "JSON support for Serde");
    assert!(row_matches(&row, "serde-json"));
    assert!(row_matches(&row, "json supp"));
    assert!(!row_matches(&row, "tokio"));
    let sorted = sort_by_name_len(vec![
        upstream_row("abcdef", "x"),
        upstream_row("a", "x"),
        upstream_row("abc", "x"),
    ]);
    assert_eq!(sorted[0].name, "a");
    assert_eq!(sorted[1].name, "abc");
    assert_eq!(sorted[2].name, "abcdef");
}

#[test]
fn publish_frame_splits_meta_and_data() {
    let meta = br#"{"name":"foo","vers":"0.1.0"}"#;
    let data = b"tarball bytes";
    let mut body: Vec<u8> = Vec::new();
    body.extend_from_slice(&(meta.len() as u32).to_le_bytes());
    body.extend_from_slice(meta);
    body.extend_from_slice(&(data.len() as u32).to_le_bytes());
    body.extend_from_slice(data);

    let (m, d) = create_crate(&body).unwrap();
    assert_eq!(m, meta.to_vec());
    assert_eq!(d, data.to_vec());

    // a truncated frame is refused
    let r = create_crate(&body[..body.len() - 1]);
    assert_eq!(r.unwrap_err(), RegistryError::InvalidRequest);
    let r = create_crate(&[1, 0]);
    assert_eq!(r.unwrap_err(), RegistryError::InvalidRequest);
}

#[test]
fn upsert_moves_version_summaries() {
    let meta = info("foo", "0.2.0");
    let fresh = update(None, &meta, "alice", "2020-01-01").unwrap();
    assert_eq!(fresh.name, "foo");
    assert_eq!(fresh.max_version, "0.2.0");
    assert_eq!(fresh.max_stable_version.as_deref(), Some("0.2.0"));
    assert_eq!(fresh.owners.as_deref(), Some("alice"));
    assert_eq!(fresh.downloads, 0);

    // a prerelease republish keeps the stable summary and the owners
    let pre = info("foo", "0.3.0-alpha.1");
    let bumped = update(Some(&fresh), &pre, "bob", "2020-02-02").unwrap();
    assert_eq!(bumped.max_version, "0.3.0-alpha.1");
    assert_eq!(bumped.max_stable_version.as_deref(), Some("0.2.0"));
    assert_eq!(bumped.owners.as_deref(), Some("alice"));
    assert_eq!(bumped.created_at, fresh.created_at);

    let bad = update(None, &info("foo", "oops"), "alice", "now");
    match bad {
        Ok(_) => panic!("unreadable version accepted"),
        Err(e) => assert_eq!(e, RegistryError::InvalidRequest),
    }
}

#[test]
fn owner_check_gates_on_the_list() {
    let alice = account("alice", "tok-a");
    let ok = check_owner_impl(&alice, Some(String::from("alice,bob")), "foo").unwrap();
    assert_eq!(ok.0, "alice");
    assert_eq!(ok.1, vec!["alice", "bob"]);

    let upstream = check_owner_impl(&alice, None, "foo");
    assert_eq!(upstream.unwrap_err(), RegistryError::Forbidden);

    let outsider = check_owner_impl(&alice, Some(String::from("bob,carol")), "foo");
    assert_eq!(outsider.unwrap_err(), RegistryError::Forbidden);
}

#[test]
fn owner_lists_join_split_and_validate() {
    assert_eq!(split_comma("alice,bob"), vec!["alice", "bob"]);
    assert_eq!(split_comma(""), vec![""]);
    assert_eq!(join_comma(&vec![String::from("alice"), String::from("bob")]), "alice,bob");
    assert_eq!(join_comma(&Vec::new()), "");

    let merged = add_owners(
        vec![String::from("alice")],
        vec![String::from("bob")],
        &vec![true],
    )
    .unwrap();
    assert_eq!(merged, vec!["alice", "bob"]);

    let kept = remove_owners(
        vec![String::from("alice"), String::from("bob")],
        vec![String::from("alice")],
    )
    .unwrap();
    assert_eq!(kept, vec!["bob"]);

    let rows = vec![AccountWithId {
        id: 7,
        username: String::from("alice"),
        display_name: String::from("Alice"),
        salt: String::new(),
        email: None,
        type_: String::from("Internal"),
        role: String::from("User"),
        password: String::new(),
        created_at: String::new(),
        last_login: None,
        token: None,
    }];
    let owners = get_owners(rows);
    assert_eq!(owners.users.len(), 1);
    assert_eq!(owners.users[0].id, 7);
    assert_eq!(owners.users[0].login, "alice");
    assert_eq!(owners.users[0].name, "Alice");
}

#[test]
fn listing_owners_needs_ownership() {
    let accounts = vec![account("alice", "tok-a"), account("mallory", "tok-m")];
    let mut reg = Registry::new();
    reg.publish(info("foo", "0.1.0"), vec![1u8], Some("tok-a"), &accounts, "now").unwrap();
    let listed = list_owners(&reg.rows, &accounts, Some("tok-a"), "foo").unwrap();
    assert_eq!(listed, vec!["alice"]);
    let refused = list_owners(&reg.rows, &accounts, Some("tok-m"), "foo");
    assert_eq!(refused.unwrap_err(), RegistryError::Forbidden);
}

#[test]
fn token_and_name_lookups() {
    let accounts = vec![account("alice", "tok-a"), account("bob", "tok-b")];
    assert_eq!(get_user_by_token(&accounts, "tok-b").unwrap(), 1);
    assert_eq!(get_user_by_token(&accounts, "nope").unwrap_err(), RegistryError::Unauthorized);
    let dup = vec![account("a", "same"), account("b", "same")];
    assert_eq!(get_user_by_token(&dup, "same").unwrap_err(), RegistryError::Internal);

    assert_eq!(get_user_by_name(&accounts, "bob").unwrap(), Some(1));
    assert_eq!(get_user_by_name(&accounts, "carol").unwrap(), None);

    assert_eq!(check_token(&accounts, Some("tok-a")).unwrap(), 0);
    assert_eq!(check_token(&accounts, None).unwrap_err(), RegistryError::Unauthorized);
}

#[test]
fn password_hash_matches_the_stored_form() {
    let mut a = account("alice", "tok-a");
    a.password("somesalt", "hunter2");
    assert_eq!(a.salt, "somesalt");
    assert_eq!(
        a.password,
        format!("{:?}", md5::compute("alice:somesalt:hunter2"))
    );
    assert!(!a.is_admin()); // a plain user is no admin
    let mut root = account("admin", "tok-r");
    root.set_role(String::from("Root"));
    assert!(root.is_admin());
}

#[test]
fn nonce_list_is_bounded() {
    let mut nonces = NonceList::new();
    let mut i = 0u32;
    while i < 300 {
        nonces.push(format!("n{}", i), format!("o{}", i));
        i += 1;
    }
    assert_eq!(nonces.entries.len(), 256);
    // the oldest were evicted
    assert_eq!(nonces.entries[0].0, "n44");
    assert_eq!(nonces.entries[255].0, "n299");
}

#[test]
fn loaded_state_is_checked_before_use() {
    let accounts = vec![account("alice", "tok-a")];
    let mut reg = Registry::new();
    assert!(reg.wf_check());
    reg.publish(info("foo", "0.1.0"), vec![1u8], Some("tok-a"), &accounts, "now").unwrap();
    reg.publish(info("foo", "0.2.0"), vec![2u8], Some("tok-a"), &accounts, "now").unwrap();
    assert!(reg.wf_check());

    // out-of-order records on disk are refused
    reg.files[0].records.reverse();
    assert!(!reg.wf_check());
    reg.files[0].records.reverse();
    assert!(reg.wf_check());

    // an owned row without an index file is refused
    reg.files.clear();
    assert!(!reg.wf_check());
}

#[test]
fn yank_of_missing_version_is_not_found() {
    let accounts = vec![account("alice", "tok-a")];
    let mut reg = Registry::new();
    reg.publish(info("foo", "0.1.0"), vec![1u8], Some("tok-a"), &accounts, "now").unwrap();
    let missing = reg.yank("foo", "9.9.9", Some("tok-a"), &accounts);
    assert_eq!(missing.unwrap_err(), RegistryError::NotFound);
}

#[test]
fn pagination_window() {
    let p = 0i64.paginate(3).per_page(10);
    assert_eq!(p.per_page, 10);
    assert_eq!(p.offset(), 20);
    // pages below one are clamped
    let q = 0i64.paginate(0).per_page(10);
    assert_eq!(q.offset(), 0);
    let d = 0i64.paginate(1);
    assert_eq!(d.per_page, 10);
}

#[test]
fn error_kinds_map_to_status_codes() {
    assert_eq!(RegistryError::InvalidRequest.status_code(), 400);
    assert_eq!(RegistryError::Unauthorized.status_code(), 401);
    assert_eq!(RegistryError::Forbidden.status_code(), 403);
    assert_eq!(RegistryError::NotFound.status_code(), 404);
    assert_eq!(RegistryError::Conflict.status_code(), 409);
    assert_eq!(RegistryError::Integrity.status_code(), 502);
    assert_eq!(RegistryError::External.status_code(), 502);
    assert_eq!(RegistryError::Internal.status_code(), 500);
}
