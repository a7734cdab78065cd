//! Path derivations that are part of the wire contract: the per-package
//! index file path, the content-store layout, and the upstream download URL.

use vstd::prelude::*;

use crate::hashes::push_char;

verus! {

/// The index file path for a package name, relative to the index root:
/// one directory level for 1- and 2-char names, the first letter for 3-char
/// names, and the first two 2-char groups otherwise.
pub open spec fn spec_index_rel_path(name: Seq<char>) -> Seq<char>
    recommends
        name.len() >= 1,
{
    if name.len() == 1 {
        "1/"@ + name
    } else if name.len() == 2 {
        "2/"@ + name
    } else if name.len() == 3 {
        "3/"@ + seq![name[0]] + "/"@ + name
    } else {
        name.take(2) + "/"@ + name.subrange(2, 4) + "/"@ + name
    }
}

/// The artifact file name of a package version: `<name>-<version>.crate`.
pub open spec fn spec_crate_file_name(name: Seq<char>, version: Seq<char>) -> Seq<char> {
    name + "-"@ + version + ".crate"@
}

/// The artifact path relative to the storage root:
/// `<name>/<name>-<version>.crate`.
pub open spec fn spec_storage_rel_path(name: Seq<char>, version: Seq<char>) -> Seq<char> {
    name + "/"@ + spec_crate_file_name(name, version)
}

/// The upstream download URL of a package version:
/// `<upstream>/api/v1/crates/<name>/<version>/download`.
pub open spec fn spec_download_url(upstream: Seq<char>, name: Seq<char>, version: Seq<char>) -> Seq<
    char,
> {
    upstream + "/api/v1/crates/"@ + name + "/"@ + version + "/download"@
}

/// Derives the index file path of a package, relative to the index root.
/// Names are ASCII, as the upstream registry requires.
pub fn get_path(name: &str) -> (r: String)
    requires
        name@.len() >= 1,
        name.is_ascii(),
    ensures
        r@ == spec_index_rel_path(name@),
{
    let len = name.unicode_len();
    let mut r = String::new();
    if len == 1 {
        r.append("1/");
        r.append(name);
    } else if len == 2 {
        r.append("2/");
        r.append(name);
    } else if len == 3 {
        r.append("3/");
        push_char(&mut r, name.get_char(0));
        r.append("/");
        r.append(name);
        proof {
            assert(r@ =~= spec_index_rel_path(name@));
        }
    } else {
        let head = name.substring_ascii(0, 2);
        let mid = name.substring_ascii(2, 4);
        r.append(head);
        r.append("/");
        r.append(mid);
        r.append("/");
        r.append(name);
        proof {
            assert(name@.take(2) == name@.subrange(0, 2));
        }
    }
    r
}

/// The artifact file name `<name>-<version>.crate`.
pub fn crate_file_name(name: &str, version: &str) -> (r: String)
    ensures
        r@ == spec_crate_file_name(name@, version@),
{
    let mut r = String::new();
    r.append(name);
    r.append("-");
    r.append(version);
    r.append(".crate");
    r
}

/// The artifact path `<name>/<name>-<version>.crate`, relative to the
/// storage root.
pub fn storage_rel_path(name: &str, version: &str) -> (r: String)
    ensures
        r@ == spec_storage_rel_path(name@, version@),
{
    let mut r = String::new();
    r.append(name);
    r.append("/");
    let file = crate_file_name(name, version);
    r.append(file.as_str());
    r
}

/// The URL a package version is fetched from upstream.
pub fn download_url(upstream: &str, name: &str, version: &str) -> (r: String)
    ensures
        r@ == spec_download_url(upstream@, name@, version@),
{
    let mut r = String::new();
    r.append(upstream);
    r.append("/api/v1/crates/");
    r.append(name);
    r.append("/");
    r.append(version);
    r.append("/download");
    r
}

} // verus!
