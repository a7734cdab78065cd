//! The registry's pipeline over its state: the package rows, the per-name
//! index files, and the content store, with the invariants that tie them
//! together — files keep strict version order, every owned row has an index
//! file, and every stored artifact's checksum stands in its index record.
//! Publish, yank and owner changes are gated by token and ownership; on any
//! error the state is left untouched.

use vstd::prelude::*;

use crate::auth::Account;
use crate::auth::get_user_by_token;
use crate::auth::spec_token_matches;
use crate::db::Crates;
use crate::db::clone_opt_string;
use crate::errors::RegistryError;
use crate::gitcmd::str_eq;
use crate::hashes::sha256_hex;
use crate::hashes::spec_sha256_hex;
use crate::index::CrateInfo;
use crate::index::IndexMetadata;
use crate::index::spec_first_match;
use crate::index::spec_index_wf;
use crate::index::lemma_append_check_ok;
use crate::index::lemma_append_preserves_order;
use crate::index::spec_append_check;
use crate::index::spec_published_meta;
use crate::owners::spec_contains_str;
use crate::owners::spec_join_comma;
use crate::owners::spec_split_comma;
use crate::version::lemma_version_cmp_refl;
use crate::version::spec_parsed_version;
use crate::version::spec_version_lt;

verus! {

/// One package's index file: its name and its records in order.
pub struct IndexFile {
    pub name: String,
    pub records: Vec<IndexMetadata>,
}

/// One stored artifact: the package, the version, and the bytes.
pub struct Artifact {
    pub name: String,
    pub vers: String,
    pub bytes: Vec<u8>,
}

/// The body every successful write operation answers with.
pub struct QuickOk {
    pub ok: bool,
}

/// The `{ok: true}` answer.
pub fn quick_ok() -> (r: QuickOk)
    ensures
        r.ok == true,
{
    QuickOk { ok: true }
}

/// The registry's state: the package rows, the index files, and the
/// content store.
pub struct Registry {
    pub rows: Vec<Crates>,
    pub files: Vec<IndexFile>,
    pub store: Vec<Artifact>,
}

/// The position of the row with the given package name, or -1.
pub open spec fn spec_find_row(rows: Seq<Crates>, name: Seq<char>) -> int
    decreases rows.len(),
{
    if rows.len() == 0 {
        -1
    } else if rows[0].name@ == name {
        0
    } else {
        let r = spec_find_row(rows.drop_first(), name);
        if r < 0 {
            -1
        } else {
            r + 1
        }
    }
}

pub proof fn lemma_find_row_facts(rows: Seq<Crates>, name: Seq<char>)
    ensures
        spec_find_row(rows, name) >= 0 ==> {
            &&& spec_find_row(rows, name) < rows.len()
            &&& rows[spec_find_row(rows, name)].name@ == name
            &&& forall|j: int|
                0 <= j < rows.len() && j != spec_find_row(rows, name) ==> (
                #[trigger] rows[j]).name@ != name || exists|k: int|
                    0 <= k < j && rows[k].name@ == name
        },
        spec_find_row(rows, name) < 0 ==> forall|j: int|
            0 <= j < rows.len() ==> (#[trigger] rows[j]).name@ != name,
    decreases rows.len(),
{
    if rows.len() > 0 && rows[0].name@ != name {
        lemma_find_row_facts(rows.drop_first(), name);
        assert(forall|j: int| 1 <= j < rows.len() ==> rows[j] == rows.drop_first()[j - 1]);
    }
}

/// Finds the row of a package by name.
pub fn find_row(rows: &Vec<Crates>, name: &str) -> (r: Option<usize>)
    ensures
        match r {
            Some(i) => spec_find_row(rows@, name@) == i,
            None => spec_find_row(rows@, name@) < 0,
        },
{
    let len = rows.len();
    let mut i: usize = 0;
    proof {
        assert(rows@.skip(0) =~= rows@);
    }
    while i < len
        invariant
            len == rows@.len(),
            i <= len,
            spec_find_row(rows@, name@) == (
            if spec_find_row(rows@.skip(i as int), name@) < 0 {
                -1int
            } else {
                spec_find_row(rows@.skip(i as int), name@) + i
            }),
        decreases len - i,
    {
        let ghost suffix = rows@.skip(i as int);
        proof {
            assert(suffix[0] == rows@[i as int]);
            assert(suffix.drop_first() =~= rows@.skip(i + 1));
        }
        if str_eq(rows[i].name.as_str(), name) {
            return Some(i);
        }
        i = i + 1;
    }
    proof {
        assert(rows@.skip(len as int) =~= Seq::<Crates>::empty());
    }
    None
}

/// The position of the index file with the given package name, or -1.
pub open spec fn spec_find_file(files: Seq<IndexFile>, name: Seq<char>) -> int
    decreases files.len(),
{
    if files.len() == 0 {
        -1
    } else if files[0].name@ == name {
        0
    } else {
        let r = spec_find_file(files.drop_first(), name);
        if r < 0 {
            -1
        } else {
            r + 1
        }
    }
}

pub proof fn lemma_find_file_facts(files: Seq<IndexFile>, name: Seq<char>)
    ensures
        spec_find_file(files, name) >= 0 ==> {
            &&& spec_find_file(files, name) < files.len()
            &&& files[spec_find_file(files, name)].name@ == name
        },
        spec_find_file(files, name) < 0 ==> forall|j: int|
            0 <= j < files.len() ==> (#[trigger] files[j]).name@ != name,
    decreases files.len(),
{
    if files.len() > 0 && files[0].name@ != name {
        lemma_find_file_facts(files.drop_first(), name);
        assert(forall|j: int| 1 <= j < files.len() ==> files[j] == files.drop_first()[j - 1]);
    }
}

/// Finds the index file of a package by name.
pub fn find_file(files: &Vec<IndexFile>, name: &str) -> (r: Option<usize>)
    ensures
        match r {
            Some(i) => spec_find_file(files@, name@) == i,
            None => spec_find_file(files@, name@) < 0,
        },
{
    let len = files.len();
    let mut i: usize = 0;
    proof {
        assert(files@.skip(0) =~= files@);
    }
    while i < len
        invariant
            len == files@.len(),
            i <= len,
            spec_find_file(files@, name@) == (
            if spec_find_file(files@.skip(i as int), name@) < 0 {
                -1int
            } else {
                spec_find_file(files@.skip(i as int), name@) + i
            }),
        decreases len - i,
    {
        let ghost suffix = files@.skip(i as int);
        proof {
            assert(suffix[0] == files@[i as int]);
            assert(suffix.drop_first() =~= files@.skip(i + 1));
        }
        if str_eq(files[i].name.as_str(), name) {
            return Some(i);
        }
        i = i + 1;
    }
    proof {
        assert(files@.skip(len as int) =~= Seq::<IndexFile>::empty());
    }
    None
}

/// The position of the first artifact of the given package version, or -1.
pub open spec fn spec_find_artifact(store: Seq<Artifact>, name: Seq<char>, vers: Seq<char>) -> int
    decreases store.len(),
{
    if store.len() == 0 {
        -1
    } else if store[0].name@ == name && store[0].vers@ == vers {
        0
    } else {
        let r = spec_find_artifact(store.drop_first(), name, vers);
        if r < 0 {
            -1
        } else {
            r + 1
        }
    }
}

pub proof fn lemma_find_artifact_facts(store: Seq<Artifact>, name: Seq<char>, vers: Seq<char>)
    ensures
        spec_find_artifact(store, name, vers) >= 0 ==> {
            &&& spec_find_artifact(store, name, vers) < store.len()
            &&& store[spec_find_artifact(store, name, vers)].name@ == name
            &&& store[spec_find_artifact(store, name, vers)].vers@ == vers
        },
        spec_find_artifact(store, name, vers) < 0 ==> forall|j: int|
            0 <= j < store.len() ==> !((#[trigger] store[j]).name@ == name && store[j].vers@
                == vers),
    decreases store.len(),
{
    if store.len() > 0 && !(store[0].name@ == name && store[0].vers@ == vers) {
        lemma_find_artifact_facts(store.drop_first(), name, vers);
        assert(forall|j: int| 1 <= j < store.len() ==> store[j] == store.drop_first()[j - 1]);
    }
}

/// Finds a stored artifact by package and version: the content-store read
/// that serves a download, with a miss sending the caller upstream.
pub fn find_artifact(store: &Vec<Artifact>, name: &str, vers: &str) -> (r: Option<usize>)
    ensures
        match r {
            Some(i) => spec_find_artifact(store@, name@, vers@) == i,
            None => spec_find_artifact(store@, name@, vers@) < 0,
        },
{
    let len = store.len();
    let mut i: usize = 0;
    proof {
        assert(store@.skip(0) =~= store@);
    }
    while i < len
        invariant
            len == store@.len(),
            i <= len,
            spec_find_artifact(store@, name@, vers@) == (
            if spec_find_artifact(store@.skip(i as int), name@, vers@) < 0 {
                -1int
            } else {
                spec_find_artifact(store@.skip(i as int), name@, vers@) + i
            }),
        decreases len - i,
    {
        let ghost suffix = store@.skip(i as int);
        proof {
            assert(suffix[0] == store@[i as int]);
            assert(suffix.drop_first() =~= store@.skip(i + 1));
        }
        if str_eq(store[i].name.as_str(), name) && str_eq(store[i].vers.as_str(), vers) {
            return Some(i);
        }
        i = i + 1;
    }
    proof {
        assert(store@.skip(len as int) =~= Seq::<Artifact>::empty());
    }
    None
}

/// Whether a file named `name` with at least one record exists: what every
/// locally owned package row points at.
pub open spec fn spec_row_indexed(files: Seq<IndexFile>, name: Seq<char>) -> bool {
    exists|f: int|
        0 <= f < files.len() && (#[trigger] files[f]).name@ == name && files[f].records@.len() >= 1
}

/// Whether the file holds a record of the version with the given checksum.
pub open spec fn spec_file_has_record(f: IndexFile, vers: Seq<char>, cksum: Seq<char>) -> bool {
    exists|r: int|
        0 <= r < f.records@.len() && (#[trigger] f.records@[r]).vers@ == vers
            && f.records@[r].cksum@ == cksum
}

/// Whether some index file carries the artifact's version under the
/// checksum of its bytes.
pub open spec fn spec_artifact_indexed(files: Seq<IndexFile>, a: Artifact) -> bool {
    exists|f: int|
        0 <= f < files.len() && (#[trigger] files[f]).name@ == a.name@ && spec_file_has_record(
            files[f],
            a.vers@,
            spec_sha256_hex(a.bytes@),
        )
}

impl Registry {
    /// The well-formedness of the whole registry: unique row, file and
    /// artifact keys; every file in strict version order; every owned row
    /// backed by a nonempty index file; every stored artifact matching its
    /// index record's checksum.
    pub open spec fn wf(self) -> bool {
        &&& forall|i: int, j: int|
            0 <= i < j < self.rows@.len() ==> (#[trigger] self.rows@[i]).name@ != (
            #[trigger] self.rows@[j]).name@
        &&& forall|i: int, j: int|
            0 <= i < j < self.files@.len() ==> (#[trigger] self.files@[i]).name@ != (
            #[trigger] self.files@[j]).name@
        &&& forall|i: int, j: int|
            0 <= i < j < self.store@.len() ==> !((#[trigger] self.store@[i]).name@ == (
            #[trigger] self.store@[j]).name@ && self.store@[i].vers@ == self.store@[j].vers@)
        &&& forall|f: int|
            0 <= f < self.files@.len() ==> spec_index_wf((#[trigger] self.files@[f]).records@)
        &&& forall|i: int|
            0 <= i < self.rows@.len() && (#[trigger] self.rows@[i]).owners is Some
                ==> spec_row_indexed(self.files@, self.rows@[i].name@)
        &&& forall|a: int|
            0 <= a < self.store@.len() ==> spec_artifact_indexed(
                self.files@,
                #[trigger] self.store@[a],
            )
    }

    /// An empty registry: no rows, no files, no artifacts.
    pub fn new() -> (r: Registry)
        ensures
            r.wf(),
            r.rows@.len() == 0,
            r.files@.len() == 0,
            r.store@.len() == 0,
    {
        Registry { rows: Vec::new(), files: Vec::new(), store: Vec::new() }
    }

    /// Serves a download from the store: the position of the artifact, or
    /// `None` when the bytes must first be fetched from upstream.
    pub fn download(&self, name: &str, version: &str) -> (r: Option<usize>)
        ensures
            match r {
                Some(i) => {
                    &&& i < self.store@.len()
                    &&& self.store@[i as int].name@ == name@
                    &&& self.store@[i as int].vers@ == version@
                },
                None => spec_find_artifact(self.store@, name@, version@) < 0,
            },
    {
        let r = find_artifact(&self.store, name, version);
        proof {
            lemma_find_artifact_facts(self.store@, name@, version@);
        }
        r
    }
}

/// Checks the bare token from the `Authorization` header against the
/// accounts: a missing header or an unknown token is refused.
pub fn check_token(accounts: &Vec<Account>, authorization: Option<&str>) -> (r: Result<
    usize,
    RegistryError,
>)
    ensures
        match r {
            Ok(i) => {
                &&& authorization is Some
                &&& i < accounts@.len()
                &&& spec_token_matches(accounts@[i as int], authorization->Some_0@)
                &&& forall|j: int|
                    0 <= j < accounts@.len() && j != i ==> !spec_token_matches(
                        #[trigger] accounts@[j],
                        authorization->Some_0@,
                    )
            },
            Err(e) => {
                &&& authorization is None ==> e == RegistryError::Unauthorized
                &&& (authorization is Some && e == RegistryError::Unauthorized) ==> forall|j: int|
                    0 <= j < accounts@.len() ==> !spec_token_matches(
                        #[trigger] accounts@[j],
                        authorization->Some_0@,
                    )
                &&& (authorization is Some && e == RegistryError::Internal) ==> exists|
                    i: int,
                    j: int,
                |
                    0 <= i < j < accounts@.len() && spec_token_matches(
                        #[trigger] accounts@[i],
                        authorization->Some_0@,
                    ) && spec_token_matches(#[trigger] accounts@[j], authorization->Some_0@)
                &&& (e == RegistryError::Unauthorized || e == RegistryError::Internal)
            },
        },
{
    match authorization {
        Some(tk) => get_user_by_token(accounts, tk),
        None => Err(RegistryError::Unauthorized),
    }
}

/// Whether the account named by the token may modify the package row:
/// the row's owner list holds the account's username.
pub open spec fn spec_owner_ok(row: Crates, username: Seq<char>) -> bool {
    match row.owners {
        Some(o) => spec_contains_str(spec_split_comma(o@), username),
        None => false,
    }
}

/// Whether position `i` holds the account the authorization token names.
pub open spec fn spec_token_at(
    accounts: Seq<Account>,
    authorization: Option<&str>,
    i: int,
) -> bool {
    &&& authorization is Some
    &&& 0 <= i < accounts.len()
    &&& spec_token_matches(accounts[i], authorization->Some_0@)
}

/// Whether the authorization header carries a token that names exactly one
/// account.
pub open spec fn spec_unique_token(accounts: Seq<Account>, authorization: Option<&str>) -> bool {
    exists|i: int|
        #[trigger] spec_token_at(accounts, authorization, i) && (forall|j: int|
            #[trigger] spec_token_at(accounts, authorization, j) ==> j == i)
}

/// Whether the token's account stands in the package row's owner list.
pub open spec fn spec_token_owns(
    rows: Seq<Crates>,
    accounts: Seq<Account>,
    authorization: Option<&str>,
    name: Seq<char>,
) -> bool {
    exists|i: int|
        #[trigger] spec_token_at(accounts, authorization, i) && spec_owner_ok(
            rows[spec_find_row(rows, name)],
            accounts[i].username@,
        )
}

/// What the token-and-ownership check demands: exactly one account carries
/// the token, the package row exists, and that account is in its owner
/// list.
pub open spec fn spec_owner_gate(
    rows: Seq<Crates>,
    accounts: Seq<Account>,
    authorization: Option<&str>,
    name: Seq<char>,
) -> bool {
    &&& spec_unique_token(accounts, authorization)
    &&& spec_find_row(rows, name) >= 0
    &&& spec_token_owns(rows, accounts, authorization, name)
}

/// An unknown or missing token can never pass the owner check.
proof fn lemma_token_failure_blocks_gate(
    rows: Seq<Crates>,
    accounts: Seq<Account>,
    authorization: Option<&str>,
    name: Seq<char>,
    e: RegistryError,
)
    requires
        authorization is None ==> e == RegistryError::Unauthorized,
        (authorization is Some && e == RegistryError::Unauthorized) ==> forall|j: int|
            0 <= j < accounts.len() ==> !spec_token_matches(
                #[trigger] accounts[j],
                authorization->Some_0@,
            ),
        (authorization is Some && e == RegistryError::Internal) ==> exists|i: int, j: int|
            0 <= i < j < accounts.len() && spec_token_matches(
                #[trigger] accounts[i],
                authorization->Some_0@,
            ) && spec_token_matches(#[trigger] accounts[j], authorization->Some_0@),
        e == RegistryError::Unauthorized || e == RegistryError::Internal,
    ensures
        !spec_unique_token(accounts, authorization),
        !spec_owner_gate(rows, accounts, authorization, name),
{
    if spec_unique_token(accounts, authorization) {
        let w = choose|i: int|
            #[trigger] spec_token_at(accounts, authorization, i) && (forall|j: int|
                #[trigger] spec_token_at(accounts, authorization, j) ==> j == i);
        if e == RegistryError::Unauthorized {
            assert(!spec_token_matches(accounts[w], authorization->Some_0@));
        } else {
            let (i, j) = choose|i: int, j: int|
                0 <= i < j < accounts.len() && spec_token_matches(
                    #[trigger] accounts[i],
                    authorization->Some_0@,
                ) && spec_token_matches(#[trigger] accounts[j], authorization->Some_0@);
            assert(spec_token_at(accounts, authorization, i));
            assert(spec_token_at(accounts, authorization, j));
        }
    }
}

/// Checks that the token's account owns the package: an unknown token, a
/// missing package, an upstream-cached row, or an account outside the
/// owner list all refuse the write.  Success comes exactly when the owner
/// demand is met.
pub fn check_owner(
    rows: &Vec<Crates>,
    accounts: &Vec<Account>,
    authorization: Option<&str>,
    crate_name: &str,
) -> (r: Result<(String, Vec<String>), RegistryError>)
    ensures
        r is Ok <==> spec_owner_gate(rows@, accounts@, authorization, crate_name@),
        match r {
            Ok((u, list)) => {
                &&& spec_find_row(rows@, crate_name@) >= 0
                &&& authorization is Some
                &&& exists|i: int|
                    0 <= i < accounts@.len() && (#[trigger] accounts@[i]).username@ == u@
                        && spec_token_matches(accounts@[i], authorization->Some_0@)
                &&& spec_owner_ok(rows@[spec_find_row(rows@, crate_name@)], u@)
                &&& rows@[spec_find_row(rows@, crate_name@)].owners matches Some(o)
                    && list.deep_view() == spec_split_comma(o@)
            },
            Err(e) => e == RegistryError::Forbidden,
        },
{
    let ai = match check_token(accounts, authorization) {
        Ok(i) => i,
        Err(e) => {
            proof {
                lemma_token_failure_blocks_gate(
                    rows@,
                    accounts@,
                    authorization,
                    crate_name@,
                    e,
                );
            }
            return Err(RegistryError::Forbidden);
        },
    };
    proof {
        assert(spec_token_at(accounts@, authorization, ai as int));
        assert forall|j: int| #[trigger] spec_token_at(accounts@, authorization, j) implies j
            == ai as int by {}
        assert(spec_unique_token(accounts@, authorization));
    }
    let ri = match find_row(rows, crate_name) {
        Some(i) => i,
        None => {
            return Err(RegistryError::Forbidden);
        },
    };
    proof {
        lemma_find_row_facts(rows@, crate_name@);
    }
    let owners = clone_opt_string(&rows[ri].owners);
    let r = crate::owners::check_owner_impl(&accounts[ai], owners, crate_name);
    match r {
        Ok((u, list)) => {
            proof {
                assert(accounts@[ai as int].username@ == u@);
                assert(spec_token_owns(rows@, accounts@, authorization, crate_name@));
            }
            Ok((u, list))
        },
        Err(_) => {
            proof {
                assert(!spec_token_owns(rows@, accounts@, authorization, crate_name@)) by {
                    if spec_token_owns(rows@, accounts@, authorization, crate_name@) {
                        let k = choose|k: int|
                            #[trigger] spec_token_at(accounts@, authorization, k)
                                && spec_owner_ok(
                                rows@[spec_find_row(rows@, crate_name@)],
                                accounts@[k].username@,
                            );
                        assert(k == ai as int);
                    }
                }
            }
            Err(RegistryError::Forbidden)
        },
    }
}

fn rows_names_unique(rows: &Vec<Crates>) -> (r: bool)
    ensures
        r ==> forall|i: int, j: int|
            0 <= i < j < rows@.len() ==> (#[trigger] rows@[i]).name@ != (#[trigger] rows@[j]).name@,
{
    let len = rows.len();
    let mut i: usize = 0;
    while i < len
        invariant
            len == rows@.len(),
            i <= len,
            forall|a: int, b: int|
                0 <= a < b < len && a < i ==> (#[trigger] rows@[a]).name@ != (
                #[trigger] rows@[b]).name@,
        decreases len - i,
    {
        let mut j: usize = i + 1;
        while j < len
            invariant
                len == rows@.len(),
                i < len,
                i < j <= len,
                forall|b: int|
                    i < b < j ==> (#[trigger] rows@[b]).name@ != rows@[i as int].name@,
            decreases len - j,
        {
            if str_eq(rows[i].name.as_str(), rows[j].name.as_str()) {
                return false;
            }
            j = j + 1;
        }
        i = i + 1;
    }
    true
}

fn files_names_unique(files: &Vec<IndexFile>) -> (r: bool)
    ensures
        r ==> forall|i: int, j: int|
            0 <= i < j < files@.len() ==> (#[trigger] files@[i]).name@ != (
            #[trigger] files@[j]).name@,
{
    let len = files.len();
    let mut i: usize = 0;
    while i < len
        invariant
            len == files@.len(),
            i <= len,
            forall|a: int, b: int|
                0 <= a < b < len && a < i ==> (#[trigger] files@[a]).name@ != (
                #[trigger] files@[b]).name@,
        decreases len - i,
    {
        let mut j: usize = i + 1;
        while j < len
            invariant
                len == files@.len(),
                i < len,
                i < j <= len,
                forall|b: int|
                    i < b < j ==> (#[trigger] files@[b]).name@ != files@[i as int].name@,
            decreases len - j,
        {
            if str_eq(files[i].name.as_str(), files[j].name.as_str()) {
                return false;
            }
            j = j + 1;
        }
        i = i + 1;
    }
    true
}

fn store_keys_unique(store: &Vec<Artifact>) -> (r: bool)
    ensures
        r ==> forall|i: int, j: int|
            0 <= i < j < store@.len() ==> !((#[trigger] store@[i]).name@ == (
            #[trigger] store@[j]).name@ && store@[i].vers@ == store@[j].vers@),
{
    let len = store.len();
    let mut i: usize = 0;
    while i < len
        invariant
            len == store@.len(),
            i <= len,
            forall|a: int, b: int|
                0 <= a < b < len && a < i ==> !((#[trigger] store@[a]).name@ == (
                #[trigger] store@[b]).name@ && store@[a].vers@ == store@[b].vers@),
        decreases len - i,
    {
        let mut j: usize = i + 1;
        while j < len
            invariant
                len == store@.len(),
                i < len,
                i < j <= len,
                forall|b: int|
                    i < b < j ==> !((#[trigger] store@[b]).name@ == store@[i as int].name@
                        && store@[b].vers@ == store@[i as int].vers@),
            decreases len - j,
        {
            if str_eq(store[i].name.as_str(), store[j].name.as_str()) && str_eq(
                store[i].vers.as_str(),
                store[j].vers.as_str(),
            ) {
                return false;
            }
            j = j + 1;
        }
        i = i + 1;
    }
    true
}

fn records_ordered(records: &Vec<IndexMetadata>) -> (r: bool)
    ensures
        r ==> spec_index_wf(records@),
{
    let len = records.len();
    let mut i: usize = 0;
    while i < len
        invariant
            len == records@.len(),
            i <= len,
            forall|a: int, b: int|
                0 <= a < b < len && a < i ==> crate::index::spec_vers_lt(
                    #[trigger] records@[a],
                    #[trigger] records@[b],
                ),
        decreases len - i,
    {
        let mut j: usize = i + 1;
        while j < len
            invariant
                len == records@.len(),
                i < len,
                i < j <= len,
                forall|b: int|
                    i < b < j ==> crate::index::spec_vers_lt(
                        records@[i as int],
                        #[trigger] records@[b],
                    ),
            decreases len - j,
        {
            let a = match crate::version::parse_version(records[i].vers.as_str()) {
                Some(v) => v,
                None => {
                    return false;
                },
            };
            let b = match crate::version::parse_version(records[j].vers.as_str()) {
                Some(v) => v,
                None => {
                    return false;
                },
            };
            if !crate::version::version_lt(&a, &b) {
                return false;
            }
            j = j + 1;
        }
        i = i + 1;
    }
    true
}

fn files_ordered(files: &Vec<IndexFile>) -> (r: bool)
    ensures
        r ==> forall|f: int|
            0 <= f < files@.len() ==> spec_index_wf((#[trigger] files@[f]).records@),
{
    let len = files.len();
    let mut i: usize = 0;
    while i < len
        invariant
            len == files@.len(),
            i <= len,
            forall|f: int| 0 <= f < i ==> spec_index_wf((#[trigger] files@[f]).records@),
        decreases len - i,
    {
        if !records_ordered(&files[i].records) {
            return false;
        }
        i = i + 1;
    }
    true
}

fn rows_indexed(rows: &Vec<Crates>, files: &Vec<IndexFile>) -> (r: bool)
    ensures
        r ==> forall|i: int|
            0 <= i < rows@.len() && (#[trigger] rows@[i]).owners is Some ==> spec_row_indexed(
                files@,
                rows@[i].name@,
            ),
{
    let len = rows.len();
    let mut i: usize = 0;
    while i < len
        invariant
            len == rows@.len(),
            i <= len,
            forall|k: int|
                0 <= k < i && (#[trigger] rows@[k]).owners is Some ==> spec_row_indexed(
                    files@,
                    rows@[k].name@,
                ),
        decreases len - i,
    {
        if rows[i].owners.is_some() {
            let f = match find_file(files, rows[i].name.as_str()) {
                Some(f) => f,
                None => {
                    return false;
                },
            };
            proof {
                lemma_find_file_facts(files@, rows@[i as int].name@);
            }
            if files[f].records.len() == 0 {
                return false;
            }
            proof {
                assert(spec_row_indexed(files@, rows@[i as int].name@));
            }
        }
        i = i + 1;
    }
    true
}

fn artifacts_indexed(store: &Vec<Artifact>, files: &Vec<IndexFile>) -> (r: bool)
    ensures
        r ==> forall|a: int|
            0 <= a < store@.len() ==> spec_artifact_indexed(files@, #[trigger] store@[a]),
{
    let len = store.len();
    let mut i: usize = 0;
    while i < len
        invariant
            len == store@.len(),
            i <= len,
            forall|k: int|
                0 <= k < i ==> spec_artifact_indexed(files@, #[trigger] store@[k]),
        decreases len - i,
    {
        let f = match find_file(files, store[i].name.as_str()) {
            Some(f) => f,
            None => {
                return false;
            },
        };
        proof {
            lemma_find_file_facts(files@, store@[i as int].name@);
        }
        let hex = sha256_hex(store[i].bytes.as_slice());
        let records = &files[f].records;
        let rlen = records.len();
        let mut k: usize = 0;
        let mut found = false;
        while k < rlen && !found
            invariant
                len == store@.len(),
                i < len,
                f < files@.len(),
                rlen == records@.len(),
                k <= rlen,
                hex@ == spec_sha256_hex(store@[i as int].bytes@),
                found ==> spec_file_has_record(
                    files@[f as int],
                    store@[i as int].vers@,
                    spec_sha256_hex(store@[i as int].bytes@),
                ),
                records@ == files@[f as int].records@,
            decreases rlen - k + (if found { 0int } else { 1int }),
        {
            if str_eq(records[k].vers.as_str(), store[i].vers.as_str()) && str_eq(
                records[k].cksum.as_str(),
                hex.as_str(),
            ) {
                proof {
                    assert(files@[f as int].records@[k as int].vers@ == store@[i as int].vers@);
                }
                found = true;
            } else {
                k = k + 1;
            }
        }
        if !found {
            return false;
        }
        proof {
            assert(spec_artifact_indexed(files@, store@[i as int]));
        }
        i = i + 1;
    }
    true
}

impl Registry {
    /// Checks every clause of the registry invariant on the state as it
    /// stands, so rows, index records and artifacts loaded from outside can
    /// be trusted before the pipeline runs on them.
    pub fn wf_check(&self) -> (r: bool)
        ensures
            r ==> self.wf(),
    {
        rows_names_unique(&self.rows) && files_names_unique(&self.files) && store_keys_unique(
            &self.store,
        ) && files_ordered(&self.files) && rows_indexed(&self.rows, &self.files)
            && artifacts_indexed(&self.store, &self.files)
    }
}

/// A published version downloads back byte for byte: once a publish has
/// stored a version's bytes (its ensures pin them at the found position),
/// every artifact of that package and version holds exactly those bytes,
/// so a download answers what was uploaded.
pub proof fn lemma_publish_then_download(
    s: Registry,
    name: Seq<char>,
    vers: Seq<char>,
    data: Seq<u8>,
)
    requires
        s.wf(),
        spec_find_artifact(s.store@, name, vers) >= 0,
        s.store@[spec_find_artifact(s.store@, name, vers)].bytes@ == data,
    ensures
        forall|i: int|
            0 <= i < s.store@.len() && (#[trigger] s.store@[i]).name@ == name && s.store@[i].vers@
                == vers ==> s.store@[i].bytes@ == data,
{
    let a = spec_find_artifact(s.store@, name, vers);
    lemma_find_artifact_facts(s.store@, name, vers);
    assert forall|i: int|
        0 <= i < s.store@.len() && (#[trigger] s.store@[i]).name@ == name && s.store@[i].vers@
            == vers implies s.store@[i].bytes@ == data by {
        if i != a {
            assert(!(s.store@[i].name@ == s.store@[a].name@ && s.store@[i].vers@
                == s.store@[a].vers@));
        }
    }
}

/// Lists a package's owners: the same token-and-ownership check as every
/// write, answering the exploded owner list on success.  The caller shapes
/// the names into the listing with the account rows it loads for them.
pub fn list_owners(
    rows: &Vec<Crates>,
    accounts: &Vec<Account>,
    authorization: Option<&str>,
    crate_name: &str,
) -> (r: Result<Vec<String>, RegistryError>)
    ensures
        r is Ok <==> spec_owner_gate(rows@, accounts@, authorization, crate_name@),
        match r {
            Ok(list) => {
                &&& spec_find_row(rows@, crate_name@) >= 0
                &&& rows@[spec_find_row(rows@, crate_name@)].owners matches Some(o)
                    && list.deep_view() == spec_split_comma(o@)
            },
            Err(e) => e == RegistryError::Forbidden,
        },
{
    match check_owner(rows, accounts, authorization, crate_name) {
        Ok((_, list)) => Ok(list),
        Err(e) => Err(e),
    }
}

/// The records the index holds for a package: those of its file, or none
/// when no file exists yet.
pub open spec fn spec_records_for(files: Seq<IndexFile>, name: Seq<char>) -> Seq<IndexMetadata> {
    let f = spec_find_file(files, name);
    if f >= 0 {
        files[f].records@
    } else {
        Seq::empty()
    }
}

impl Registry {
    /// Publishes a version: the token must name exactly one account, that
    /// account must own the package if it already exists, and the version
    /// must lie strictly above everything in the package's index file.  On
    /// success the record (with the bytes' checksum), the rewritten row and
    /// the artifact are all in place and the commit message is returned; on
    /// any error nothing changes.
    pub fn publish(
        &mut self,
        info: CrateInfo,
        data: Vec<u8>,
        authorization: Option<&str>,
        accounts: &Vec<Account>,
        now: &str,
    ) -> (r: Result<String, RegistryError>)
        requires
            old(self).wf(),
        ensures
            final(self).wf(),
            match r {
                Ok(msg) => {
                    &&& msg@ == "add crate "@ + info.name@ + "-"@ + info.vers@
                    &&& spec_publish_outcome(*old(self), accounts@, authorization, info) is Ok
                    &&& final(self).store@.len() == old(self).store@.len() + 1
                    &&& final(self).store@.last().name@ == info.name@
                    &&& final(self).store@.last().vers@ == info.vers@
                    &&& final(self).store@.last().bytes@ == data@
                    &&& ({
                        let a = spec_find_artifact(final(self).store@, info.name@, info.vers@);
                        a >= 0 && final(self).store@[a].bytes@ == data@
                    })
                    &&& ({
                        let f = spec_find_file(final(self).files@, info.name@);
                        &&& f >= 0
                        &&& final(self).files@[f].records@.len() >= 1
                        &&& final(self).files@[f].records@.last().vers@ == info.vers@
                        &&& final(self).files@[f].records@.last().cksum@ == spec_sha256_hex(data@)
                        &&& final(self).files@[f].records@.last().yanked == false
                    })
                    &&& ({
                        let i = spec_find_row(final(self).rows@, info.name@);
                        &&& i >= 0
                        &&& final(self).rows@[i].owners is Some
                        &&& final(self).rows@[i].max_version == info.vers
                    })
                },
                Err(e) => {
                    &&& final(self).rows@ == old(self).rows@
                    &&& final(self).files@ == old(self).files@
                    &&& final(self).store@ == old(self).store@
                    &&& spec_publish_outcome(*old(self), accounts@, authorization, info)
                        == Err::<(), RegistryError>(e)
                },
            },
    {
        let ghost s0 = *self;
        let ai = match check_token(accounts, authorization) {
            Ok(i) => i,
            Err(e) => {
                proof {
                    lemma_token_failure_blocks_gate(
                        s0.rows@,
                        accounts@,
                        authorization,
                        info.name@,
                        e,
                    );
                    if e == RegistryError::Unauthorized {
                        assert(!(exists|i: int|
                            #[trigger] spec_token_at(accounts@, authorization, i))) by {
                            if exists|i: int|
                                #[trigger] spec_token_at(accounts@, authorization, i) {
                                let w = choose|i: int|
                                    #[trigger] spec_token_at(accounts@, authorization, i);
                                assert(spec_token_matches(
                                    accounts@[w],
                                    authorization->Some_0@,
                                ));
                            }
                        }
                    } else {
                        let (i, j) = choose|i: int, j: int|
                            0 <= i < j < accounts@.len() && spec_token_matches(
                                #[trigger] accounts@[i],
                                authorization->Some_0@,
                            ) && spec_token_matches(
                                #[trigger] accounts@[j],
                                authorization->Some_0@,
                            );
                        assert(spec_token_at(accounts@, authorization, i));
                    }
                }
                return Err(e);
            },
        };
        proof {
            assert(spec_token_at(accounts@, authorization, ai as int));
            assert forall|j: int| #[trigger] spec_token_at(accounts@, authorization, j) implies j
                == ai as int by {}
            assert(spec_unique_token(accounts@, authorization));
        }
        let name = info.name.clone();
        let vers = info.vers.clone();
        let ri_found = find_row(&self.rows, name.as_str());
        proof {
            lemma_find_row_facts(self.rows@, name@);
        }
        if let Some(ri) = ri_found {
            let owners = clone_opt_string(&self.rows[ri].owners);
            match crate::owners::check_owner_impl(&accounts[ai], owners, name.as_str()) {
                Ok(_) => {},
                Err(_) => {
                    proof {
                        assert(!spec_token_owns(s0.rows@, accounts@, authorization, info.name@))
                            by {
                            if spec_token_owns(s0.rows@, accounts@, authorization, info.name@) {
                                let k = choose|k: int|
                                    #[trigger] spec_token_at(accounts@, authorization, k)
                                        && spec_owner_ok(
                                        s0.rows@[spec_find_row(s0.rows@, info.name@)],
                                        accounts@[k].username@,
                                    );
                                assert(k == ai as int);
                            }
                        }
                    }
                    return Err(RegistryError::Forbidden);
                },
            }
        }
        proof {
            assert(spec_find_row(s0.rows@, info.name@) >= 0 ==> spec_token_owns(
                s0.rows@,
                accounts@,
                authorization,
                info.name@,
            ));
        }
        let cksum = sha256_hex(data.as_slice());
        let new_row = {
            let existing: Option<&Crates> = match ri_found {
                Some(ri) => Some(&self.rows[ri]),
                None => None,
            };
            match crate::db::update(existing, &info, accounts[ai].username.as_str(), now) {
                Ok(row) => row,
                Err(e) => {
                    return Err(e);
                },
            }
        };
        let ghost published = crate::index::spec_published_meta(info, cksum);
        let fi_found = find_file(&self.files, name.as_str());
        proof {
            lemma_find_file_facts(self.files@, name@);
        }
        match fi_found {
            Some(fi) => {
                let mut file = self.files.remove(fi);
                let ghost old_records = file.records@;
                let r = crate::index::append(&mut file.records, info, cksum.clone());
                self.files.insert(fi, file);
                match r {
                    Ok(_) => {
                        proof {
                            assert(self.files@ =~= s0.files@.update(
                                fi as int,
                                self.files@[fi as int],
                            ));
                            assert(self.files@[fi as int].records@ =~= old_records.push(published));
                        }
                    },
                    Err(e) => {
                        proof {
                            crate::index::lemma_append_check_kind(old_records, info.vers@);
                            assert(self.files@ =~= s0.files@);
                            assert(self.rows@ =~= s0.rows@);
                            assert(self.store@ =~= s0.store@);
                            assert(spec_records_for(s0.files@, info.name@) == old_records);
                        }
                        return Err(e);
                    },
                }
            },
            None => {
                let mut records: Vec<IndexMetadata> = Vec::new();
                let r = crate::index::append(&mut records, info, cksum.clone());
                match r {
                    Ok(_) => {},
                    Err(_) => {
                        // appending to a file with no records never fails
                        proof {
                            assert(spec_append_check(
                                Seq::<IndexMetadata>::empty(),
                                info.vers@,
                            ) is Ok);
                            assert(false);
                        }
                        return Err(RegistryError::Internal);
                    },
                }
                self.files.push(IndexFile { name: name.clone(), records });
                proof {
                    assert(self.files@ =~= s0.files@.push(self.files@.last()));
                    assert(self.files@.last().records@ =~= Seq::<IndexMetadata>::empty().push(
                        published,
                    ));
                }
            },
        }
        let ghost files1 = self.files@;
        let ghost fi_final: int = if fi_found is Some {
            fi_found->Some_0 as int
        } else {
            files1.len() - 1
        };
        if let Some(ri) = ri_found {
            let _ = self.rows.remove(ri);
        }
        self.rows.push(new_row);
        self.store.push(Artifact { name: name.clone(), vers: vers.clone(), bytes: data });
        proof {
            assert(self.store@ =~= s0.store@.push(self.store@.last()));
            if fi_found is None {
                assert(crate::index::spec_append_check(
                    Seq::<IndexMetadata>::empty(),
                    info.vers@,
                ) is Ok);
            }
            lemma_publish_preserves_wf(
                s0,
                *self,
                info,
                published,
                fi_final,
                if ri_found is Some {
                    ri_found->Some_0 as int
                } else {
                    -1
                },
                new_row,
            );
            lemma_find_file_facts(self.files@, info.name@);
            lemma_find_row_facts(self.rows@, info.name@);
            lemma_find_artifact_facts(self.store@, info.name@, info.vers@);
            assert(self.files@[fi_final].name@ == info.name@);
            assert(spec_find_file(self.files@, info.name@) >= 0) by {
                if spec_find_file(self.files@, info.name@) < 0 {
                    assert(self.files@[fi_final].name@ != info.name@);
                }
            }
            assert(spec_find_file(self.files@, info.name@) == fi_final) by {
                if spec_find_file(self.files@, info.name@) != fi_final {
                    let other = spec_find_file(self.files@, info.name@);
                    assert(self.files@[other].name@ == info.name@);
                    assert(self.files@[fi_final].name@ == info.name@);
                }
            }
            assert(self.store@.last().name@ == info.name@ && self.store@.last().vers@
                == info.vers@);
            assert(spec_find_artifact(self.store@, info.name@, info.vers@) >= 0) by {
                if spec_find_artifact(self.store@, info.name@, info.vers@) < 0 {
                    assert(!(self.store@[self.store@.len() - 1].name@ == info.name@
                        && self.store@[self.store@.len() - 1].vers@ == info.vers@));
                }
            }
            assert(self.store@[spec_find_artifact(self.store@, info.name@, info.vers@)].bytes@
                == data@) by {
                let a = spec_find_artifact(self.store@, info.name@, info.vers@);
                if a != self.store@.len() - 1 {
                    assert(self.store@[a].name@ == info.name@ && self.store@[a].vers@
                        == info.vers@);
                    assert(self.store@.last().name@ == info.name@ && self.store@.last().vers@
                        == info.vers@);
                }
            }
            assert(self.rows@.last().name@ == info.name@);
            assert(spec_find_row(self.rows@, info.name@) >= 0) by {
                if spec_find_row(self.rows@, info.name@) < 0 {
                    assert(self.rows@[self.rows@.len() - 1].name@ != info.name@);
                }
            }
            assert(self.rows@[spec_find_row(self.rows@, info.name@)].owners is Some
                && self.rows@[spec_find_row(self.rows@, info.name@)].max_version == info.vers) by {
                let i = spec_find_row(self.rows@, info.name@);
                if i != self.rows@.len() - 1 {
                    assert(self.rows@[i].name@ == info.name@);
                    assert(self.rows@.last().name@ == info.name@);
                }
            }
        }
        let mut msg = String::from_str("add crate ");
        msg.append(name.as_str());
        msg.append("-");
        msg.append(vers.as_str());
        Ok(msg)
    }
}

/// What an upstream fetch attempt leads to: keep the bytes, ask again, or
/// stop trying.
#[derive(PartialEq, Eq, Structural, Debug)]
pub enum FetchDecision {
    /// The checksum matched: persist the bytes and serve them.
    Persist,
    /// The checksum did not match and attempts remain: fetch again.
    Retry,
    /// The checksum did not match and the attempts are used up.
    GiveUp,
}

/// Decides one upstream fetch attempt, counting from zero: matching bytes
/// are kept, mismatches are retried until the fifth attempt fails.
pub fn download_retry(attempt: u32, matched: bool) -> (r: FetchDecision)
    ensures
        matched ==> r == FetchDecision::Persist,
        !matched && attempt < 4 ==> r == FetchDecision::Retry,
        !matched && attempt >= 4 ==> r == FetchDecision::GiveUp,
{
    if matched {
        FetchDecision::Persist
    } else if attempt < 4 {
        FetchDecision::Retry
    } else {
        FetchDecision::GiveUp
    }
}

/// What a yank toggle answers: the owner demand must hold, the package
/// must have an index file, the file a record of the version, and the flag
/// must not already be in the asked-for state; then, and only then, it
/// succeeds.
pub open spec fn spec_toggle_outcome(
    s: Registry,
    accounts: Seq<Account>,
    authorization: Option<&str>,
    name: Seq<char>,
    version: Seq<char>,
    yanked: bool,
) -> Result<(), RegistryError> {
    if !spec_owner_gate(s.rows@, accounts, authorization, name) {
        Err(RegistryError::Forbidden)
    } else {
        let f = spec_find_file(s.files@, name);
        if f < 0 {
            Err(RegistryError::NotFound)
        } else {
            let i = spec_first_match(s.files@[f].records@, version);
            if i < 0 {
                Err(RegistryError::NotFound)
            } else if s.files@[f].records@[i].yanked == yanked {
                Err(RegistryError::Conflict)
            } else {
                Ok(())
            }
        }
    }
}

/// What accepting fetched bytes answers: a missing file or record is not
/// found, bytes whose checksum differs from the record's are an integrity
/// failure, and matching bytes are always kept.
pub open spec fn spec_accept_outcome(
    s: Registry,
    name: Seq<char>,
    version: Seq<char>,
    bytes: Seq<u8>,
) -> Result<(), RegistryError> {
    let f = spec_find_file(s.files@, name);
    if f < 0 {
        Err(RegistryError::NotFound)
    } else {
        let i = spec_first_match(s.files@[f].records@, version);
        if i < 0 {
            Err(RegistryError::NotFound)
        } else if s.files@[f].records@[i].cksum@ != spec_sha256_hex(bytes) {
            Err(RegistryError::Integrity)
        } else {
            Ok(())
        }
    }
}

impl Registry {
    /// Toggles the yank flag of one version of one package: gated by token
    /// and ownership, refused when the record is missing or already in the
    /// asked-for state, and touching nothing but that one flag.
    fn toggle_yank(
        &mut self,
        name: &str,
        version: &str,
        yanked: bool,
        authorization: Option<&str>,
        accounts: &Vec<Account>,
    ) -> (r: Result<(), RegistryError>)
        requires
            old(self).wf(),
        ensures
            final(self).wf(),
            r == spec_toggle_outcome(*old(self), accounts@, authorization, name@, version@, yanked),
            match r {
                Ok(_) => {
                    &&& final(self).rows@ == old(self).rows@
                    &&& final(self).store@ == old(self).store@
                    &&& ({
                        let f = spec_find_file(old(self).files@, name@);
                        let i = spec_first_match(old(self).files@[f].records@, version@);
                        &&& f >= 0
                        &&& i >= 0
                        &&& old(self).files@[f].records@[i].yanked != yanked
                        &&& final(self).files@.len() == old(self).files@.len()
                        &&& final(self).files@[f].name@ == old(self).files@[f].name@
                        &&& final(self).files@[f].records@ == old(self).files@[f].records@.update(
                            i,
                            crate::index::spec_with_yank(old(self).files@[f].records@[i], yanked),
                        )
                        &&& forall|g: int|
                            0 <= g < old(self).files@.len() && g != f ==> (
                            #[trigger] final(self).files@[g]) == old(self).files@[g]
                    })
                },
                Err(_) => {
                    &&& final(self).rows@ == old(self).rows@
                    &&& final(self).files@ == old(self).files@
                    &&& final(self).store@ == old(self).store@
                },
            },
    {
        let ghost s0 = *self;
        match check_owner(&self.rows, accounts, authorization, name) {
            Ok(_) => {},
            Err(e) => {
                return Err(e);
            },
        }
        let fi = match find_file(&self.files, name) {
            Some(fi) => fi,
            None => {
                return Err(RegistryError::NotFound);
            },
        };
        proof {
            lemma_find_file_facts(self.files@, name@);
        }
        let mut file = self.files.remove(fi);
        let r = crate::index::set_yank(&mut file.records, version, yanked);
        self.files.insert(fi, file);
        match r {
            Ok(_) => {
                proof {
                    crate::index::lemma_first_match_facts(s0.files@[fi as int].records@, version@);
                    assert(self.files@ =~= s0.files@.update(fi as int, self.files@[fi as int]));
                    lemma_yank_preserves_wf(s0, *self, fi as int, yanked, version@);
                }
                Ok(())
            },
            Err(e) => {
                proof {
                    assert(self.files@ =~= s0.files@);
                }
                Err(e)
            },
        }
    }

    /// Yanks a version: the record's flag goes up, and the commit message
    /// for the change is returned.
    pub fn yank(
        &mut self,
        name: &str,
        version: &str,
        authorization: Option<&str>,
        accounts: &Vec<Account>,
    ) -> (r: Result<String, RegistryError>)
        requires
            old(self).wf(),
        ensures
            final(self).wf(),
            match r {
                Ok(msg) => {
                    &&& spec_toggle_outcome(
                        *old(self),
                        accounts@,
                        authorization,
                        name@,
                        version@,
                        true,
                    ) is Ok
                    &&& msg@ == "yank "@ + name@ + "-"@ + version@
                    &&& ({
                        let f = spec_find_file(old(self).files@, name@);
                        let i = spec_first_match(old(self).files@[f].records@, version@);
                        &&& f >= 0
                        &&& i >= 0
                        &&& old(self).files@[f].records@[i].yanked == false
                        &&& final(self).files@[f].records@ == old(self).files@[f].records@.update(
                            i,
                            crate::index::spec_with_yank(old(self).files@[f].records@[i], true),
                        )
                        &&& forall|g: int|
                            0 <= g < old(self).files@.len() && g != f ==> (
                            #[trigger] final(self).files@[g]) == old(self).files@[g]
                    })
                    &&& final(self).rows@ == old(self).rows@
                    &&& final(self).store@ == old(self).store@
                },
                Err(e) => {
                    &&& final(self).rows@ == old(self).rows@
                    &&& final(self).files@ == old(self).files@
                    &&& final(self).store@ == old(self).store@
                    &&& spec_toggle_outcome(
                        *old(self),
                        accounts@,
                        authorization,
                        name@,
                        version@,
                        true,
                    ) == Err::<(), RegistryError>(e)
                },
            },
    {
        match self.toggle_yank(name, version, true, authorization, accounts) {
            Ok(_) => {},
            Err(e) => {
                return Err(e);
            },
        }
        let mut msg = String::from_str("yank ");
        msg.append(name);
        msg.append("-");
        msg.append(version);
        Ok(msg)
    }

    /// Restores a yanked version: the record's flag goes back down, and the
    /// commit message for the change is returned.
    pub fn unyank(
        &mut self,
        name: &str,
        version: &str,
        authorization: Option<&str>,
        accounts: &Vec<Account>,
    ) -> (r: Result<String, RegistryError>)
        requires
            old(self).wf(),
        ensures
            final(self).wf(),
            match r {
                Ok(msg) => {
                    &&& spec_toggle_outcome(
                        *old(self),
                        accounts@,
                        authorization,
                        name@,
                        version@,
                        false,
                    ) is Ok
                    &&& msg@ == "unyank "@ + name@ + "-"@ + version@
                    &&& ({
                        let f = spec_find_file(old(self).files@, name@);
                        let i = spec_first_match(old(self).files@[f].records@, version@);
                        &&& f >= 0
                        &&& i >= 0
                        &&& old(self).files@[f].records@[i].yanked == true
                        &&& final(self).files@[f].records@ == old(self).files@[f].records@.update(
                            i,
                            crate::index::spec_with_yank(old(self).files@[f].records@[i], false),
                        )
                        &&& forall|g: int|
                            0 <= g < old(self).files@.len() && g != f ==> (
                            #[trigger] final(self).files@[g]) == old(self).files@[g]
                    })
                    &&& final(self).rows@ == old(self).rows@
                    &&& final(self).store@ == old(self).store@
                },
                Err(e) => {
                    &&& final(self).rows@ == old(self).rows@
                    &&& final(self).files@ == old(self).files@
                    &&& final(self).store@ == old(self).store@
                    &&& spec_toggle_outcome(
                        *old(self),
                        accounts@,
                        authorization,
                        name@,
                        version@,
                        false,
                    ) == Err::<(), RegistryError>(e)
                },
            },
    {
        match self.toggle_yank(name, version, false, authorization, accounts) {
            Ok(_) => {},
            Err(e) => {
                return Err(e);
            },
        }
        let mut msg = String::from_str("unyank ");
        msg.append(name);
        msg.append("-");
        msg.append(version);
        Ok(msg)
    }

    /// Persists bytes fetched from upstream for a missing artifact, but
    /// only when their checksum equals the `cksum` of the version's index
    /// record; a mismatch changes nothing and reports the integrity
    /// failure.
    pub fn accept_download(&mut self, name: &str, version: &str, bytes: Vec<u8>) -> (r: Result<
        (),
        RegistryError,
    >)
        requires
            old(self).wf(),
        ensures
            final(self).wf(),
            r == spec_accept_outcome(*old(self), name@, version@, bytes@),
            match r {
                Ok(_) => {
                    &&& final(self).rows@ == old(self).rows@
                    &&& final(self).files@ == old(self).files@
                    &&& ({
                        let a = spec_find_artifact(final(self).store@, name@, version@);
                        a >= 0 && final(self).store@[a].bytes@ == bytes@
                    })
                },
                Err(_) => {
                    &&& final(self).rows@ == old(self).rows@
                    &&& final(self).files@ == old(self).files@
                    &&& final(self).store@ == old(self).store@
                },
            },
    {
        let ghost s0 = *self;
        let fi = match find_file(&self.files, name) {
            Some(fi) => fi,
            None => {
                return Err(RegistryError::NotFound);
            },
        };
        proof {
            lemma_find_file_facts(self.files@, name@);
        }
        let ri = match crate::index::get_exact(&self.files[fi].records, version) {
            Ok(i) => i,
            Err(_) => {
                return Err(RegistryError::NotFound);
            },
        };
        proof {
            crate::index::lemma_first_match_facts(self.files@[fi as int].records@, version@);
        }
        let cksum = sha256_hex(bytes.as_slice());
        if !str_eq(self.files[fi].records[ri].cksum.as_str(), cksum.as_str()) {
            return Err(RegistryError::Integrity);
        }
        let found = find_artifact(&self.store, name, version);
        proof {
            lemma_find_artifact_facts(self.store@, name@, version@);
        }
        match found {
            Some(ai) => {
                let mut a = self.store.remove(ai);
                a.bytes = bytes;
                self.store.insert(ai, a);
                proof {
                    assert(self.store@ =~= s0.store@.update(ai as int, self.store@[ai as int]));
                    lemma_accept_preserves_wf(s0, *self, ai as int, fi as int, ri as int, version@);
                    lemma_find_artifact_facts(self.store@, name@, version@);
                    assert(spec_find_artifact(self.store@, name@, version@) == ai) by {
                        let other = spec_find_artifact(self.store@, name@, version@);
                        if other != ai {
                            assert(self.store@[other].name@ == name@ && self.store@[other].vers@
                                == version@);
                            assert(self.store@[ai as int].name@ == name@
                                && self.store@[ai as int].vers@ == version@);
                        }
                    }
                }
            },
            None => {
                self.store.push(
                    Artifact {
                        name: String::from_str(name),
                        vers: String::from_str(version),
                        bytes,
                    },
                );
                proof {
                    assert(self.store@ =~= s0.store@.push(self.store@.last()));
                    lemma_accept_push_preserves_wf(s0, *self, fi as int, ri as int, version@);
                    lemma_find_artifact_facts(self.store@, name@, version@);
                    assert(spec_find_artifact(self.store@, name@, version@) >= 0) by {
                        if spec_find_artifact(self.store@, name@, version@) < 0 {
                            assert(!(self.store@[self.store@.len() - 1].name@ == name@
                                && self.store@[self.store@.len() - 1].vers@ == version@));
                        }
                    }
                    assert(self.store@[spec_find_artifact(self.store@, name@, version@)].bytes@
                        == bytes@) by {
                        let a = spec_find_artifact(self.store@, name@, version@);
                        if a != self.store@.len() - 1 {
                            assert(self.store@[a] == s0.store@[a]);
                        }
                    }
                }
            },
        }
        Ok(())
    }
}

/// What an owner addition answers: the owner demand first; every added
/// user must exist in the account store; none may already be an owner;
/// then, and only then, it succeeds.
pub open spec fn spec_add_owner_outcome(
    s: Registry,
    accounts: Seq<Account>,
    authorization: Option<&str>,
    name: Seq<char>,
    new_users: Seq<Seq<char>>,
    user_exists: Seq<bool>,
) -> Result<(), RegistryError> {
    if !spec_owner_gate(s.rows@, accounts, authorization, name) {
        Err(RegistryError::Forbidden)
    } else {
        let owners = spec_split_comma(s.rows@[spec_find_row(s.rows@, name)].owners->Some_0@);
        if exists|k: int| 0 <= k < user_exists.len() && !(#[trigger] user_exists[k]) {
            Err(RegistryError::InvalidRequest)
        } else if exists|k: int|
            0 <= k < owners.len() && spec_contains_str(new_users, #[trigger] owners[k]) {
            Err(RegistryError::Conflict)
        } else {
            Ok(())
        }
    }
}

/// What an owner removal answers: the owner demand first; a single owner
/// may not be removed; every removed user must stand in the list; then,
/// and only then, it succeeds.
pub open spec fn spec_remove_owner_outcome(
    s: Registry,
    accounts: Seq<Account>,
    authorization: Option<&str>,
    name: Seq<char>,
    remove_users: Seq<Seq<char>>,
) -> Result<(), RegistryError> {
    if !spec_owner_gate(s.rows@, accounts, authorization, name) {
        Err(RegistryError::Forbidden)
    } else {
        let owners = spec_split_comma(s.rows@[spec_find_row(s.rows@, name)].owners->Some_0@);
        if owners.len() == 1 {
            Err(RegistryError::InvalidRequest)
        } else if exists|k: int|
            0 <= k < remove_users.len() && !spec_contains_str(
                owners,
                #[trigger] remove_users[k],
            ) {
            Err(RegistryError::InvalidRequest)
        } else {
            Ok(())
        }
    }
}

impl Registry {
    /// Adds owners to a package: gated by token and ownership; every added
    /// user must exist in the account store (the caller checked each, in
    /// order) and must not already own the package.  On success the row's
    /// owner list is the old list with the new users appended.
    pub fn add_owner(
        &mut self,
        crate_name: &str,
        new_users: Vec<String>,
        user_exists: &Vec<bool>,
        authorization: Option<&str>,
        accounts: &Vec<Account>,
    ) -> (r: Result<(), RegistryError>)
        requires
            old(self).wf(),
            user_exists@.len() == new_users@.len(),
        ensures
            final(self).wf(),
            final(self).files@ == old(self).files@,
            final(self).store@ == old(self).store@,
            r == spec_add_owner_outcome(
                *old(self),
                accounts@,
                authorization,
                crate_name@,
                new_users.deep_view(),
                user_exists@,
            ),
            match r {
                Ok(_) => ({
                    let ri = spec_find_row(old(self).rows@, crate_name@);
                    &&& ri >= 0
                    &&& old(self).rows@[ri].owners is Some
                    &&& final(self).rows@.len() == old(self).rows@.len()
                    &&& final(self).rows@[ri].name == old(self).rows@[ri].name
                    &&& final(self).rows@[ri].owners matches Some(o) && o@ == spec_join_comma(
                        spec_split_comma(old(self).rows@[ri].owners->Some_0@)
                            + new_users.deep_view(),
                    )
                    &&& forall|j: int|
                        0 <= j < old(self).rows@.len() && j != ri ==> (
                        #[trigger] final(self).rows@[j]) == old(self).rows@[j]
                }),
                Err(_) => final(self).rows@ == old(self).rows@,
            },
    {
        let ghost s0 = *self;
        let (_, list) = match check_owner(&self.rows, accounts, authorization, crate_name) {
            Ok(ul) => ul,
            Err(e) => {
                return Err(e);
            },
        };
        let merged = match crate::owners::add_owners(list, new_users, user_exists) {
            Ok(m) => m,
            Err(e) => {
                return Err(e);
            },
        };
        let joined = crate::owners::join_comma(&merged);
        let ri = match find_row(&self.rows, crate_name) {
            Some(i) => i,
            None => {
                // the ownership check already found the row
                proof {
                    assert(false);
                }
                return Err(RegistryError::Internal);
            },
        };
        proof {
            lemma_find_row_facts(self.rows@, crate_name@);
        }
        let mut row = self.rows.remove(ri);
        row.owners = Some(joined);
        self.rows.insert(ri, row);
        proof {
            assert(self.rows@ =~= s0.rows@.update(ri as int, self.rows@[ri as int]));
            lemma_owner_update_preserves_wf(s0, *self, ri as int);
        }
        Ok(())
    }

    /// Removes owners from a package: gated by token and ownership; a
    /// package with a single owner keeps it, and every removed user must
    /// stand in the owner list.  On success the row's owner list is the
    /// old list without the removed users.
    pub fn remove_owner(
        &mut self,
        crate_name: &str,
        remove_users: Vec<String>,
        authorization: Option<&str>,
        accounts: &Vec<Account>,
    ) -> (r: Result<(), RegistryError>)
        requires
            old(self).wf(),
        ensures
            final(self).wf(),
            final(self).files@ == old(self).files@,
            final(self).store@ == old(self).store@,
            r == spec_remove_owner_outcome(
                *old(self),
                accounts@,
                authorization,
                crate_name@,
                remove_users.deep_view(),
            ),
            match r {
                Ok(_) => ({
                    let ri = spec_find_row(old(self).rows@, crate_name@);
                    &&& ri >= 0
                    &&& old(self).rows@[ri].owners is Some
                    &&& spec_split_comma(old(self).rows@[ri].owners->Some_0@).len() > 1
                    &&& final(self).rows@.len() == old(self).rows@.len()
                    &&& final(self).rows@[ri].name == old(self).rows@[ri].name
                    &&& final(self).rows@[ri].owners matches Some(o) && o@ == spec_join_comma(
                        crate::owners::spec_remove_all(
                            spec_split_comma(old(self).rows@[ri].owners->Some_0@),
                            remove_users.deep_view(),
                        ),
                    )
                    &&& forall|j: int|
                        0 <= j < old(self).rows@.len() && j != ri ==> (
                        #[trigger] final(self).rows@[j]) == old(self).rows@[j]
                }),
                Err(_) => final(self).rows@ == old(self).rows@,
            },
    {
        let ghost s0 = *self;
        let (_, list) = match check_owner(&self.rows, accounts, authorization, crate_name) {
            Ok(ul) => ul,
            Err(e) => {
                return Err(e);
            },
        };
        if list.len() == 1 {
            return Err(RegistryError::InvalidRequest);
        }
        let kept = match crate::owners::remove_owners(list, remove_users) {
            Ok(k) => k,
            Err(e) => {
                return Err(e);
            },
        };
        let joined = crate::owners::join_comma(&kept);
        let ri = match find_row(&self.rows, crate_name) {
            Some(i) => i,
            None => {
                // the ownership check already found the row
                proof {
                    assert(false);
                }
                return Err(RegistryError::Internal);
            },
        };
        proof {
            lemma_find_row_facts(self.rows@, crate_name@);
        }
        let mut row = self.rows.remove(ri);
        row.owners = Some(joined);
        self.rows.insert(ri, row);
        proof {
            assert(self.rows@ =~= s0.rows@.update(ri as int, self.rows@[ri as int]));
            lemma_owner_update_preserves_wf(s0, *self, ri as int);
        }
        Ok(())
    }

    /// Caches upstream search results: each row replaces any local row of
    /// the same name, as the storage layer's keyed replace does.  Rows from
    /// upstream carry no owner list.
    pub fn insert_rows(&mut self, new_rows: Vec<Crates>) -> (names_present: bool)
        requires
            old(self).wf(),
            forall|k: int| 0 <= k < new_rows@.len() ==> (#[trigger] new_rows@[k]).owners is None,
        ensures
            final(self).wf(),
            final(self).files@ == old(self).files@,
            final(self).store@ == old(self).store@,
            forall|k: int|
                0 <= k < new_rows@.len() ==> spec_find_row(
                    final(self).rows@,
                    (#[trigger] new_rows@[k]).name@,
                ) >= 0,
            names_present == true,
    {
        let ghost s0 = *self;
        let ghost all = new_rows@;
        let mut rest = new_rows;
        let mut k: usize = 0;
        let n = rest.len();
        while k < n
            invariant
                n == all.len(),
                k <= n,
                rest@ == all,
                self.wf(),
                self.files@ == s0.files@,
                self.store@ == s0.store@,
                forall|m: int|
                    0 <= m < k ==> spec_find_row(self.rows@, (#[trigger] all[m]).name@) >= 0,
                forall|m: int| 0 <= m < all.len() ==> (#[trigger] all[m]).owners is None,
            decreases n - k,
        {
            let ghost rows_before = self.rows@;
            let row = clone_row(&rest[k]);
            let found = find_row(&self.rows, row.name.as_str());
            proof {
                lemma_find_row_facts(self.rows@, row.name@);
            }
            if let Some(i) = found {
                let _ = self.rows.remove(i);
            }
            let ghost rows_mid = self.rows@;
            self.rows.push(row);
            proof {
                lemma_replace_row_preserves_wf(
                    rows_before,
                    rows_mid,
                    self.rows@,
                    self.files@,
                    all[k as int].name@,
                    if found is Some {
                        found->Some_0 as int
                    } else {
                        -1
                    },
                );
                assert(self.rows@.last().name@ == all[k as int].name@);
                assert forall|m: int| 0 <= m < k + 1 implies spec_find_row(
                    self.rows@,
                    (#[trigger] all[m]).name@,
                ) >= 0 by {
                    lemma_find_row_facts(self.rows@, all[m].name@);
                    if spec_find_row(self.rows@, all[m].name@) < 0 {
                        if m < k {
                            lemma_find_row_facts(rows_before, all[m].name@);
                            let w = spec_find_row(rows_before, all[m].name@);
                            if rows_before[w].name@ != all[k as int].name@ {
                                assert(exists|j: int|
                                    0 <= j < self.rows@.len() && (#[trigger] self.rows@[j]).name@
                                        == all[m].name@) by {
                                    lemma_row_survives(
                                        rows_before,
                                        rows_mid,
                                        self.rows@,
                                        w,
                                        if found is Some {
                                            found->Some_0 as int
                                        } else {
                                            -1
                                        },
                                    );
                                }
                            } else {
                                assert(self.rows@[self.rows@.len() - 1].name@ == all[m].name@);
                            }
                        } else {
                            assert(self.rows@[self.rows@.len() - 1].name@ == all[m].name@);
                        }
                    }
                }
            }
            k = k + 1;
        }
        true
    }
}

/// A row that survives a removal at another position is still present
/// under its name.
proof fn lemma_row_survives(
    rows0: Seq<Crates>,
    rows1: Seq<Crates>,
    rows2: Seq<Crates>,
    w: int,
    removed: int,
)
    requires
        0 <= w < rows0.len(),
        removed >= 0 ==> 0 <= removed < rows0.len() && rows1 == rows0.remove(removed),
        removed < 0 ==> rows1 == rows0,
        rows2.len() == rows1.len() + 1,
        forall|j: int| 0 <= j < rows1.len() ==> #[trigger] rows2[j] == rows1[j],
        w != removed,
    ensures
        exists|j: int| 0 <= j < rows2.len() && (#[trigger] rows2[j]).name@ == rows0[w].name@,
{
    if removed >= 0 {
        if w < removed {
            assert(rows2[w] == rows1[w]);
            assert(rows1[w] == rows0[w]);
        } else {
            assert(rows2[w - 1] == rows1[w - 1]);
            assert(rows1[w - 1] == rows0[w]);
        }
    } else {
        assert(rows2[w] == rows1[w]);
    }
}

/// Replacing or adding one row by name keeps row names unique and every
/// owned row indexed, the files being untouched.
proof fn lemma_replace_row_preserves_wf(
    rows0: Seq<Crates>,
    rows1: Seq<Crates>,
    rows2: Seq<Crates>,
    files: Seq<IndexFile>,
    name: Seq<char>,
    removed: int,
)
    requires
        forall|i: int, j: int|
            0 <= i < j < rows0.len() ==> (#[trigger] rows0[i]).name@ != (#[trigger] rows0[j]).name@,
        forall|i: int|
            0 <= i < rows0.len() && (#[trigger] rows0[i]).owners is Some ==> spec_row_indexed(
                files,
                rows0[i].name@,
            ),
        removed >= 0 ==> {
            &&& removed < rows0.len()
            &&& rows0[removed].name@ == name
            &&& spec_find_row(rows0, name) == removed
            &&& rows1 == rows0.remove(removed)
        },
        removed < 0 ==> spec_find_row(rows0, name) < 0 && rows1 == rows0,
        rows2 == rows1.push(rows2.last()),
        rows2.last().name@ == name,
        rows2.last().owners is None,
    ensures
        forall|i: int, j: int|
            0 <= i < j < rows2.len() ==> (#[trigger] rows2[i]).name@ != (#[trigger] rows2[j]).name@,
        forall|i: int|
            0 <= i < rows2.len() && (#[trigger] rows2[i]).owners is Some ==> spec_row_indexed(
                files,
                rows2[i].name@,
            ),
{
    lemma_find_row_facts(rows0, name);
    assert forall|i: int, j: int| 0 <= i < j < rows2.len() implies (#[trigger] rows2[i]).name@ != (
    #[trigger] rows2[j]).name@ by {
        if j == rows2.len() - 1 {
            let oi = if removed >= 0 && i >= removed {
                i + 1
            } else {
                i
            };
            assert(rows2[i] == rows0[oi]);
            if removed >= 0 {
                assert(forall|m: int|
                    0 <= m < rows0.len() && m != removed ==> (#[trigger] rows0[m]).name@ != name);
            }
        } else {
            let oi = if removed >= 0 && i >= removed {
                i + 1
            } else {
                i
            };
            let oj = if removed >= 0 && j >= removed {
                j + 1
            } else {
                j
            };
            assert(rows2[i] == rows0[oi]);
            assert(rows2[j] == rows0[oj]);
        }
    }
    assert forall|i: int|
        0 <= i < rows2.len() && (#[trigger] rows2[i]).owners is Some implies spec_row_indexed(
        files,
        rows2[i].name@,
    ) by {
        if i < rows2.len() - 1 {
            let oi = if removed >= 0 && i >= removed {
                i + 1
            } else {
                i
            };
            assert(rows2[i] == rows0[oi]);
        }
    }
}

/// An owner mutation keeps the registry invariant: the row keeps its name,
/// keeps an owner list, and the files and store are untouched.
proof fn lemma_owner_update_preserves_wf(s0: Registry, s1: Registry, ri: int)
    requires
        s0.wf(),
        0 <= ri < s0.rows@.len(),
        s1.files@ == s0.files@,
        s1.store@ == s0.store@,
        s1.rows@ == s0.rows@.update(ri, s1.rows@[ri]),
        s1.rows@[ri].name == s0.rows@[ri].name,
        s0.rows@[ri].owners is Some,
    ensures
        s1.wf(),
{
    assert forall|i: int, j: int| 0 <= i < j < s1.rows@.len() implies (
    #[trigger] s1.rows@[i]).name@ != (#[trigger] s1.rows@[j]).name@ by {
        assert(s1.rows@[i].name@ == s0.rows@[i].name@);
        assert(s1.rows@[j].name@ == s0.rows@[j].name@);
    }
    assert forall|i: int|
        0 <= i < s1.rows@.len() && (#[trigger] s1.rows@[i]).owners is Some implies spec_row_indexed(
        s1.files@,
        s1.rows@[i].name@,
    ) by {
        assert(s1.rows@[i].name@ == s0.rows@[i].name@);
        if i != ri {
            assert(s1.rows@[i] == s0.rows@[i]);
        }
        assert(s0.rows@[i].owners is Some);
        assert(spec_row_indexed(s0.files@, s0.rows@[i].name@));
    }
}

/// A field-by-field copy of a package row.
pub fn clone_row(row: &Crates) -> (r: Crates)
    ensures
        r == *row,
{
    Crates {
        id: row.id.clone(),
        name: row.name.clone(),
        updated_at: row.updated_at.clone(),
        versions: clone_opt_string(&row.versions),
        keywords: clone_opt_string(&row.keywords),
        categories: clone_opt_string(&row.categories),
        created_at: row.created_at.clone(),
        downloads: row.downloads,
        recent_downloads: row.recent_downloads,
        max_version: row.max_version.clone(),
        newest_version: row.newest_version.clone(),
        max_stable_version: clone_opt_string(&row.max_stable_version),
        description: clone_opt_string(&row.description),
        homepage: clone_opt_string(&row.homepage),
        documentation: clone_opt_string(&row.documentation),
        repository: clone_opt_string(&row.repository),
        owners: clone_opt_string(&row.owners),
    }
}

/// A yank toggle keeps the registry invariant: versions and checksums are
/// untouched, so every artifact's record survives with its checksum.
proof fn lemma_yank_preserves_wf(s0: Registry, s1: Registry, fi: int, yanked: bool, v: Seq<char>)
    requires
        s0.wf(),
        0 <= fi < s0.files@.len(),
        s1.rows@ == s0.rows@,
        s1.store@ == s0.store@,
        s1.files@ == s0.files@.update(fi, s1.files@[fi]),
        s1.files@[fi].name@ == s0.files@[fi].name@,
        ({
            let i = spec_first_match(s0.files@[fi].records@, v);
            &&& i >= 0
            &&& i < s0.files@[fi].records@.len()
            &&& s1.files@[fi].records@ == s0.files@[fi].records@.update(
                i,
                crate::index::spec_with_yank(s0.files@[fi].records@[i], yanked),
            )
        }),
    ensures
        s1.wf(),
{
    let i = spec_first_match(s0.files@[fi].records@, v);
    crate::index::lemma_set_yank_preserves_order(s0.files@[fi].records@, i, yanked);
    assert forall|f: int| 0 <= f < s1.files@.len() implies spec_index_wf(
        (#[trigger] s1.files@[f]).records@,
    ) by {
        if f != fi {
            assert(s1.files@[f] == s0.files@[f]);
        }
    }
    assert forall|k: int|
        0 <= k < s1.rows@.len() && (#[trigger] s1.rows@[k]).owners is Some implies spec_row_indexed(
        s1.files@,
        s1.rows@[k].name@,
    ) by {
        let f = choose|f: int|
            0 <= f < s0.files@.len() && (#[trigger] s0.files@[f]).name@ == s0.rows@[k].name@
                && s0.files@[f].records@.len() >= 1;
        assert(s1.files@[f].name@ == s0.files@[f].name@);
        assert(s1.files@[f].records@.len() >= 1);
    }
    assert forall|a: int| 0 <= a < s1.store@.len() implies spec_artifact_indexed(
        s1.files@,
        #[trigger] s1.store@[a],
    ) by {
        assert(spec_artifact_indexed(s0.files@, s0.store@[a]));
        let f = choose|f: int|
            0 <= f < s0.files@.len() && (#[trigger] s0.files@[f]).name@ == s0.store@[a].name@
                && spec_file_has_record(
                s0.files@[f],
                s0.store@[a].vers@,
                spec_sha256_hex(s0.store@[a].bytes@),
            );
        let r = choose|r: int|
            0 <= r < s0.files@[f].records@.len() && (#[trigger] s0.files@[f].records@[r]).vers@
                == s0.store@[a].vers@ && s0.files@[f].records@[r].cksum@ == spec_sha256_hex(
                s0.store@[a].bytes@,
            );
        assert(s1.files@[f].name@ == s0.files@[f].name@);
        assert(s1.files@[f].records@[r].vers@ == s0.files@[f].records@[r].vers@
            && s1.files@[f].records@[r].cksum@ == s0.files@[f].records@[r].cksum@);
        assert(spec_file_has_record(
            s1.files@[f],
            s0.store@[a].vers@,
            spec_sha256_hex(s0.store@[a].bytes@),
        ));
    }
}

/// Overwriting a stored artifact with bytes whose checksum equals its index
/// record keeps the registry invariant.
proof fn lemma_accept_preserves_wf(
    s0: Registry,
    s1: Registry,
    ai: int,
    fi: int,
    ri: int,
    v: Seq<char>,
)
    requires
        s0.wf(),
        s1.rows@ == s0.rows@,
        s1.files@ == s0.files@,
        0 <= ai < s0.store@.len(),
        s1.store@ == s0.store@.update(ai, s1.store@[ai]),
        s1.store@[ai].name@ == s0.store@[ai].name@,
        s1.store@[ai].vers@ == s0.store@[ai].vers@,
        0 <= fi < s0.files@.len(),
        0 <= ri < s0.files@[fi].records@.len(),
        s0.files@[fi].name@ == s1.store@[ai].name@,
        s0.files@[fi].records@[ri].vers@ == s1.store@[ai].vers@,
        s0.files@[fi].records@[ri].cksum@ == spec_sha256_hex(s1.store@[ai].bytes@),
    ensures
        s1.wf(),
{
    assert forall|a: int| 0 <= a < s1.store@.len() implies spec_artifact_indexed(
        s1.files@,
        #[trigger] s1.store@[a],
    ) by {
        if a == ai {
            assert(spec_file_has_record(
                s0.files@[fi],
                s1.store@[ai].vers@,
                spec_sha256_hex(s1.store@[ai].bytes@),
            ));
        } else {
            assert(s1.store@[a] == s0.store@[a]);
            assert(spec_artifact_indexed(s0.files@, s0.store@[a]));
        }
    }
}

/// Storing a new artifact whose checksum equals its index record keeps the
/// registry invariant; the artifact key was absent before.
proof fn lemma_accept_push_preserves_wf(s0: Registry, s1: Registry, fi: int, ri: int, v: Seq<char>)
    requires
        s0.wf(),
        s1.rows@ == s0.rows@,
        s1.files@ == s0.files@,
        s1.store@ == s0.store@.push(s1.store@.last()),
        spec_find_artifact(s0.store@, s1.store@.last().name@, s1.store@.last().vers@) < 0,
        0 <= fi < s0.files@.len(),
        0 <= ri < s0.files@[fi].records@.len(),
        s0.files@[fi].name@ == s1.store@.last().name@,
        s0.files@[fi].records@[ri].vers@ == s1.store@.last().vers@,
        s0.files@[fi].records@[ri].cksum@ == spec_sha256_hex(s1.store@.last().bytes@),
    ensures
        s1.wf(),
{
    lemma_find_artifact_facts(s0.store@, s1.store@.last().name@, s1.store@.last().vers@);
    assert forall|i: int, j: int| 0 <= i < j < s1.store@.len() implies !((
    #[trigger] s1.store@[i]).name@ == (#[trigger] s1.store@[j]).name@ && s1.store@[i].vers@
        == s1.store@[j].vers@) by {
        if j == s1.store@.len() - 1 {
            assert(s1.store@[i] == s0.store@[i]);
        } else {
            assert(s1.store@[i] == s0.store@[i]);
            assert(s1.store@[j] == s0.store@[j]);
        }
    }
    assert forall|a: int| 0 <= a < s1.store@.len() implies spec_artifact_indexed(
        s1.files@,
        #[trigger] s1.store@[a],
    ) by {
        if a == s1.store@.len() - 1 {
            assert(spec_file_has_record(
                s0.files@[fi],
                s1.store@[a].vers@,
                spec_sha256_hex(s1.store@[a].bytes@),
            ));
        } else {
            assert(s1.store@[a] == s0.store@[a]);
            assert(spec_artifact_indexed(s0.files@, s0.store@[a]));
        }
    }
}

/// What a publish answers: the token must name exactly one account, an
/// existing package refuses non-owners, the version must parse, and the
/// package's current records must accept it; then, and only then, it
/// succeeds, with the ordering violation a conflict and an unreadable
/// version a malformed request.
pub open spec fn spec_publish_outcome(
    s: Registry,
    accounts: Seq<Account>,
    authorization: Option<&str>,
    info: CrateInfo,
) -> Result<(), RegistryError> {
    if !(exists|i: int| #[trigger] spec_token_at(accounts, authorization, i)) {
        Err(RegistryError::Unauthorized)
    } else if !spec_unique_token(accounts, authorization) {
        Err(RegistryError::Internal)
    } else if spec_find_row(s.rows@, info.name@) >= 0 && !spec_token_owns(
        s.rows@,
        accounts,
        authorization,
        info.name@,
    ) {
        Err(RegistryError::Forbidden)
    } else if spec_parsed_version(info.vers@) is None {
        Err(RegistryError::InvalidRequest)
    } else {
        spec_append_check(spec_records_for(s.files@, info.name@), info.vers@)
    }
}

/// A publish that passed its checks re-establishes every clause of the
/// registry invariant: the one changed file keeps its order and its name,
/// the rewritten row keeps the name unique, and the new artifact's checksum
/// stands in the record just appended.
proof fn lemma_publish_preserves_wf(
    s0: Registry,
    s1: Registry,
    info: CrateInfo,
    published: IndexMetadata,
    fi: int,
    ri: int,
    new_row: Crates,
)
    requires
        s0.wf(),
        published.vers == info.vers,
        published.yanked == false,
        new_row.name == info.name,
        // the file changed or created
        0 <= fi < s1.files@.len(),
        fi <= s0.files@.len(),
        s1.files@[fi].name@ == info.name@,
        fi < s0.files@.len() ==> {
            &&& s1.files@ == s0.files@.update(fi, s1.files@[fi])
            &&& s1.files@[fi].records@ == s0.files@[fi].records@.push(published)
            &&& spec_append_check(s0.files@[fi].records@, info.vers@) is Ok
            &&& spec_find_file(s0.files@, info.name@) == fi
            &&& spec_published_meta(info, s1.files@[fi].records@.last().cksum)
                == s1.files@[fi].records@.last()
        },
        fi == s0.files@.len() ==> {
            &&& s1.files@ == s0.files@.push(s1.files@[fi])
            &&& s1.files@[fi].records@ == Seq::<IndexMetadata>::empty().push(published)
            &&& spec_find_file(s0.files@, info.name@) < 0
        },
        // the row replaced or added
        ri >= 0 ==> {
            &&& ri < s0.rows@.len()
            &&& s0.rows@[ri].name@ == info.name@
            &&& s1.rows@ == s0.rows@.remove(ri).push(new_row)
        },
        ri < 0 ==> {
            &&& spec_find_row(s0.rows@, info.name@) < 0
            &&& s1.rows@ == s0.rows@.push(new_row)
        },
        // the artifact stored
        s1.store@.len() == s0.store@.len() + 1,
        s1.store@ == s0.store@.push(s1.store@.last()),
        s1.store@.last().name@ == info.name@,
        s1.store@.last().vers@ == info.vers@,
        spec_sha256_hex(s1.store@.last().bytes@) == published.cksum@,
    ensures
        s1.wf(),
{
    let nf = s1.files@[fi];
    lemma_find_file_facts(s0.files@, info.name@);
    lemma_find_row_facts(s0.rows@, info.name@);
    assert(fi < s0.files@.len() ==> s0.files@[fi].name@ == info.name@);
    assert(forall|f: int|
        0 <= f < s0.files@.len() && f != fi ==> (#[trigger] s1.files@[f]) == s0.files@[f]);
    // no old record carries the published version
    assert(fi < s0.files@.len() ==> forall|r: int|
        0 <= r < s0.files@[fi].records@.len() ==> (
        #[trigger] s0.files@[fi].records@[r]).vers@ != info.vers@) by {
        if fi < s0.files@.len() {
            lemma_append_check_ok(s0.files@[fi].records@, info.vers@);
            assert forall|r: int| 0 <= r < s0.files@[fi].records@.len() implies (
            #[trigger] s0.files@[fi].records@[r]).vers@ != info.vers@ by {
                if s0.files@[fi].records@[r].vers@ == info.vers@ {
                    let v = spec_parsed_version(info.vers@).unwrap();
                    assert(spec_version_lt(v, v));
                    lemma_version_cmp_refl(v);
                }
            }
        }
    }
    // row names stay unique
    assert forall|i: int, j: int| 0 <= i < j < s1.rows@.len() implies (
    #[trigger] s1.rows@[i]).name@ != (#[trigger] s1.rows@[j]).name@ by {
        lemma_find_row_facts(s0.rows@, info.name@);
        if ri >= 0 {
            assert(forall|k: int|
                0 <= k < s0.rows@.len() && k != ri ==> (#[trigger] s0.rows@[k]).name@
                    != info.name@);
            if j < s1.rows@.len() - 1 {
                assert(s1.rows@[i] == if i < ri {
                    s0.rows@[i]
                } else {
                    s0.rows@[i + 1]
                });
                assert(s1.rows@[j] == if j < ri {
                    s0.rows@[j]
                } else {
                    s0.rows@[j + 1]
                });
            } else {
                assert(s1.rows@[j] == new_row);
                assert(s1.rows@[i] == if i < ri {
                    s0.rows@[i]
                } else {
                    s0.rows@[i + 1]
                });
            }
        } else {
            if j == s1.rows@.len() - 1 {
                assert(s1.rows@[i] == s0.rows@[i]);
                assert(s0.rows@[i].name@ != info.name@);
            }
        }
    }
    // file names stay unique
    assert forall|i: int, j: int| 0 <= i < j < s1.files@.len() implies (
    #[trigger] s1.files@[i]).name@ != (#[trigger] s1.files@[j]).name@ by {
        lemma_find_file_facts(s0.files@, info.name@);
        if fi < s0.files@.len() {
            assert(s1.files@[i].name@ == s0.files@[i].name@);
            assert(s1.files@[j].name@ == s0.files@[j].name@);
        } else {
            if j == s1.files@.len() - 1 {
                assert(s1.files@[i] == s0.files@[i]);
                assert(s0.files@[i].name@ != info.name@);
            } else {
                assert(s1.files@[i] == s0.files@[i]);
                assert(s1.files@[j] == s0.files@[j]);
            }
        }
    }
    // artifact keys stay unique
    assert forall|i: int, j: int| 0 <= i < j < s1.store@.len() implies !((
    #[trigger] s1.store@[i]).name@ == (#[trigger] s1.store@[j]).name@ && s1.store@[i].vers@
        == s1.store@[j].vers@) by {
        if j == s1.store@.len() - 1 {
            assert(s1.store@[i] == s0.store@[i]);
            if s0.store@[i].name@ == info.name@ && s0.store@[i].vers@ == info.vers@ {
                assert(spec_artifact_indexed(s0.files@, s0.store@[i]));
                let f = choose|f: int|
                    0 <= f < s0.files@.len() && (#[trigger] s0.files@[f]).name@
                        == s0.store@[i].name@ && spec_file_has_record(
                        s0.files@[f],
                        s0.store@[i].vers@,
                        spec_sha256_hex(s0.store@[i].bytes@),
                    );
                lemma_find_file_facts(s0.files@, info.name@);
                if fi < s0.files@.len() {
                    assert(f == fi) by {
                        if f != fi {
                            assert(s0.files@[f].name@ == info.name@);
                            assert(s0.files@[fi].name@ == info.name@);
                        }
                    }
                    let r = choose|r: int|
                        0 <= r < s0.files@[fi].records@.len() && (
                        #[trigger] s0.files@[fi].records@[r]).vers@ == info.vers@
                            && s0.files@[fi].records@[r].cksum@ == spec_sha256_hex(
                            s0.store@[i].bytes@,
                        );
                    assert(false);
                } else {
                    assert(false);
                }
            }
        } else {
            assert(s1.store@[i] == s0.store@[i]);
            assert(s1.store@[j] == s0.store@[j]);
        }
    }
    // every file keeps strict version order
    assert forall|f: int| 0 <= f < s1.files@.len() implies spec_index_wf(
        (#[trigger] s1.files@[f]).records@,
    ) by {
        if f == fi {
            if fi < s0.files@.len() {
                assert(published == spec_published_meta(
                    info,
                    s1.files@[fi].records@.last().cksum,
                ));
                lemma_append_preserves_order(
                    s0.files@[fi].records@,
                    info,
                    s1.files@[fi].records@.last().cksum,
                );
            } else {
                assert(spec_index_wf(nf.records@));
            }
        } else {
            assert(s1.files@[f] == s0.files@[f]);
        }
    }
    // every owned row still has a nonempty index file
    assert forall|i: int|
        0 <= i < s1.rows@.len() && (#[trigger] s1.rows@[i]).owners is Some implies spec_row_indexed(
        s1.files@,
        s1.rows@[i].name@,
    ) by {
        assert(nf.records@.len() >= 1);
        if i == s1.rows@.len() - 1 {
            assert(s1.rows@[i] == new_row);
            assert(s1.files@[fi].name@ == info.name@);
        } else {
            let oi = if ri >= 0 && i >= ri {
                i + 1
            } else {
                i
            };
            assert(s1.rows@[i] == s0.rows@[oi]);
            assert(spec_row_indexed(s0.files@, s0.rows@[oi].name@));
            let f = choose|f: int|
                0 <= f < s0.files@.len() && (#[trigger] s0.files@[f]).name@ == s0.rows@[oi].name@
                    && s0.files@[f].records@.len() >= 1;
            assert(s1.files@[f].name@ == s0.files@[f].name@);
            assert(s1.files@[f].records@.len() >= 1);
        }
    }
    // every artifact still matches a record's checksum
    assert forall|a: int| 0 <= a < s1.store@.len() implies spec_artifact_indexed(
        s1.files@,
        #[trigger] s1.store@[a],
    ) by {
        if a == s1.store@.len() - 1 {
            let rlen = nf.records@.len();
            assert(nf.records@[rlen - 1] == published);
            assert(spec_file_has_record(
                nf,
                s1.store@[a].vers@,
                spec_sha256_hex(s1.store@[a].bytes@),
            ));
        } else {
            assert(s1.store@[a] == s0.store@[a]);
            assert(spec_artifact_indexed(s0.files@, s0.store@[a]));
            let f = choose|f: int|
                0 <= f < s0.files@.len() && (#[trigger] s0.files@[f]).name@ == s0.store@[a].name@
                    && spec_file_has_record(
                    s0.files@[f],
                    s0.store@[a].vers@,
                    spec_sha256_hex(s0.store@[a].bytes@),
                );
            assert(s1.files@[f].name@ == s0.files@[f].name@);
            let r = choose|r: int|
                0 <= r < s0.files@[f].records@.len() && (#[trigger] s0.files@[f].records@[r]).vers@
                    == s0.store@[a].vers@ && s0.files@[f].records@[r].cksum@ == spec_sha256_hex(
                    s0.store@[a].bytes@,
                );
            assert(s1.files@[f].records@[r] == s0.files@[f].records@[r]);
            assert(spec_file_has_record(
                s1.files@[f],
                s0.store@[a].vers@,
                spec_sha256_hex(s0.store@[a].bytes@),
            ));
        }
    }
}

} // verus!
