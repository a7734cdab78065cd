//! The per-package index metadata: the records of one index file held as
//! values, the version-monotonic append, the yank flag toggle, and the
//! ordering invariant the file keeps.  Reading and writing the NDJSON lines
//! themselves is I/O and stays outside the library.

use vstd::prelude::*;

use crate::errors::RegistryError;
use crate::gitcmd::str_eq;
use crate::version::Cmp;
use crate::version::lemma_version_cmp_refl;
use crate::version::parse_version;
use crate::version::spec_parsed_version;
use crate::version::spec_version_cmp;
use crate::version::spec_version_lt;
use crate::version::version_lt;

verus! {

/// One direct dependency of a package, as the publish metadata carries it.
pub struct Dependency {
    /// The original package name; a rename is in `explicit_name_in_toml`.
    pub name: String,
    /// The semver requirement on the dependency.
    pub version_req: String,
    /// The features enabled for the dependency.
    pub features: Vec<String>,
    pub optional: bool,
    pub default_features: bool,
    /// The target platform, or `None` for every platform.
    pub target: Option<String>,
    /// `dev`, `build` or `normal`; `None` stands for `normal`.
    pub kind: Option<String>,
    /// The index URL of the registry the dependency comes from, or `None`
    /// for the current registry.
    pub registry: Option<String>,
    /// The new name when the dependency is renamed.
    pub explicit_name_in_toml: Option<String>,
}

/// The metadata a client uploads when publishing a package version.
pub struct CrateInfo {
    pub name: String,
    pub vers: String,
    pub deps: Vec<Dependency>,
    /// Feature name to the features or dependencies it enables.
    pub features: Vec<(String, Vec<String>)>,
    pub authors: Vec<String>,
    pub description: Option<String>,
    pub documentation: Option<String>,
    pub homepage: Option<String>,
    pub readme: Option<String>,
    pub readme_file: Option<String>,
    pub keywords: Vec<String>,
    pub categories: Vec<String>,
    pub license: Option<String>,
    pub license_file: Option<String>,
    pub repository: Option<String>,
    /// Status badges: badge name to its attribute map.
    pub badges: Vec<(String, Vec<(String, String)>)>,
    pub links: Option<String>,
}

/// One record of a package's index file: one NDJSON line.
pub struct IndexMetadata {
    pub name: String,
    pub vers: String,
    pub deps: Vec<Dependency>,
    /// The lowercase hex SHA-256 of the artifact bytes.
    pub cksum: String,
    pub features: Vec<(String, Vec<String>)>,
    pub yanked: bool,
    pub links: Option<String>,
}

/// Whether `a`'s version parses and comes strictly before `b`'s.
pub open spec fn spec_vers_lt(a: IndexMetadata, b: IndexMetadata) -> bool {
    match (spec_parsed_version(a.vers@), spec_parsed_version(b.vers@)) {
        (Some(va), Some(vb)) => spec_version_lt(va, vb),
        _ => false,
    }
}

/// The invariant of an index file: records stand in strictly increasing
/// version order.
pub open spec fn spec_index_wf(rs: Seq<IndexMetadata>) -> bool {
    forall|i: int, j: int|
        0 <= i < j < rs.len() ==> spec_vers_lt(#[trigger] rs[i], #[trigger] rs[j])
}

/// The position of the first record with the given version string, or -1.
pub open spec fn spec_first_match(rs: Seq<IndexMetadata>, v: Seq<char>) -> int
    decreases rs.len(),
{
    if rs.len() == 0 {
        -1
    } else if rs[0].vers@ == v {
        0
    } else {
        let r = spec_first_match(rs.drop_first(), v);
        if r < 0 {
            -1
        } else {
            r + 1
        }
    }
}

/// The first match is a match, lies before every other match, and is -1
/// exactly when nothing matches.
pub proof fn lemma_first_match_facts(rs: Seq<IndexMetadata>, v: Seq<char>)
    ensures
        spec_first_match(rs, v) >= 0 ==> {
            &&& spec_first_match(rs, v) < rs.len()
            &&& rs[spec_first_match(rs, v)].vers@ == v
            &&& forall|j: int| 0 <= j < spec_first_match(rs, v) ==> (#[trigger] rs[j]).vers@ != v
        },
        spec_first_match(rs, v) < 0 ==> forall|j: int|
            0 <= j < rs.len() ==> (#[trigger] rs[j]).vers@ != v,
    decreases rs.len(),
{
    if rs.len() > 0 && rs[0].vers@ != v {
        lemma_first_match_facts(rs.drop_first(), v);
        assert forall|j: int| 1 <= j < rs.len() implies rs[j] == rs.drop_first()[j - 1] by {}
    }
}

/// Scans the records of a package's index file for an exact version; the
/// first record with that version string is returned by position, and a
/// missing version is an error.
pub fn get_exact(records: &Vec<IndexMetadata>, version: &str) -> (r: Result<usize, RegistryError>)
    ensures
        match r {
            Ok(i) => spec_first_match(records@, version@) == i,
            Err(e) => spec_first_match(records@, version@) < 0 && e == RegistryError::NotFound,
        },
{
    let len = records.len();
    let mut i: usize = 0;
    proof {
        assert(records@.skip(0) =~= records@);
    }
    while i < len
        invariant
            len == records@.len(),
            i <= len,
            spec_first_match(records@, version@) == (
            if spec_first_match(records@.skip(i as int), version@) < 0 {
                -1int
            } else {
                spec_first_match(records@.skip(i as int), version@) + i
            }),
        decreases len - i,
    {
        let ghost suffix = records@.skip(i as int);
        proof {
            assert(suffix.len() > 0);
            assert(suffix[0] == records@[i as int]);
            assert(suffix.drop_first() =~= records@.skip(i + 1));
        }
        if str_eq(records[i].vers.as_str(), version) {
            return Ok(i);
        }
        i = i + 1;
    }
    proof {
        assert(records@.skip(len as int) =~= Seq::<IndexMetadata>::empty());
    }
    Err(RegistryError::NotFound)
}

/// The record with its yank flag set to the given value and nothing else
/// changed.
pub open spec fn spec_with_yank(m: IndexMetadata, yanked: bool) -> IndexMetadata {
    IndexMetadata {
        name: m.name,
        vers: m.vers,
        deps: m.deps,
        cksum: m.cksum,
        features: m.features,
        yanked,
        links: m.links,
    }
}

/// Toggles the yank flag of the record with the given version: missing
/// version is an error, and so is a toggle to the state the record is
/// already in.  Exactly one record changes, and only its flag.
pub fn set_yank(records: &mut Vec<IndexMetadata>, version: &str, yanked: bool) -> (r: Result<
    (),
    RegistryError,
>)
    ensures
        match r {
            Ok(_) => {
                let i = spec_first_match(old(records)@, version@);
                &&& i >= 0
                &&& old(records)@[i].yanked != yanked
                &&& final(records)@ == old(records)@.update(
                    i,
                    spec_with_yank(old(records)@[i], yanked),
                )
            },
            Err(e) => {
                &&& *final(records) == *old(records)
                &&& e == RegistryError::NotFound ==> spec_first_match(old(records)@, version@) < 0
                &&& e == RegistryError::Conflict ==> {
                    let i = spec_first_match(old(records)@, version@);
                    i >= 0 && old(records)@[i].yanked == yanked
                }
                &&& (e == RegistryError::NotFound || e == RegistryError::Conflict)
            },
        },
{
    let i = match get_exact(records, version) {
        Ok(i) => i,
        Err(e) => {
            return Err(e);
        },
    };
    proof {
        lemma_first_match_facts(records@, version@);
    }
    if records[i].yanked == yanked {
        return Err(RegistryError::Conflict);
    }
    let mut m = records.remove(i);
    m.yanked = yanked;
    records.insert(i, m);
    proof {
        assert(final(records)@ =~= old(records)@.update(
            i as int,
            spec_with_yank(old(records)@[i as int], yanked),
        ));
    }
    Ok(())
}

/// The index record a publish writes: the uploaded metadata's identifying
/// fields, the artifact checksum, and a clear yank flag.
pub open spec fn spec_published_meta(info: CrateInfo, cksum: String) -> IndexMetadata {
    IndexMetadata {
        name: info.name,
        vers: info.vers,
        deps: info.deps,
        cksum: cksum,
        features: info.features,
        yanked: false,
        links: info.links,
    }
}

/// What appending a version to a file with the given records comes to:
/// a record whose version does not parse is an error, a new version that
/// does not parse is an error, and an existing version at or above the new
/// one is a conflict.  An empty file accepts anything.
pub open spec fn spec_append_check(olds: Seq<IndexMetadata>, new_vers: Seq<char>) -> Result<
    (),
    RegistryError,
>
    decreases olds.len(),
{
    if olds.len() == 0 {
        Ok(())
    } else {
        match spec_parsed_version(olds[0].vers@) {
            None => Err(RegistryError::InvalidRequest),
            Some(vo) => match spec_parsed_version(new_vers) {
                None => Err(RegistryError::InvalidRequest),
                Some(vn) => if spec_version_cmp(vo, vn) != Cmp::Lt {
                    Err(RegistryError::Conflict)
                } else {
                    spec_append_check(olds.drop_first(), new_vers)
                },
            },
        }
    }
}

/// When the check passes on a nonempty file, every record's version parses
/// and lies strictly below the new one.
pub proof fn lemma_append_check_ok(olds: Seq<IndexMetadata>, new_vers: Seq<char>)
    requires
        spec_append_check(olds, new_vers) is Ok,
    ensures
        forall|i: int|
            0 <= i < olds.len() ==> match (
                spec_parsed_version((#[trigger] olds[i]).vers@),
                spec_parsed_version(new_vers),
            ) {
                (Some(vo), Some(vn)) => spec_version_lt(vo, vn),
                _ => false,
            },
    decreases olds.len(),
{
    if olds.len() > 0 {
        lemma_append_check_ok(olds.drop_first(), new_vers);
        assert forall|i: int| 1 <= i < olds.len() implies olds[i] == olds.drop_first()[i - 1] by {}
    }
}

/// The check fails only as a malformed version or an ordering conflict.
pub proof fn lemma_append_check_kind(olds: Seq<IndexMetadata>, new_vers: Seq<char>)
    ensures
        spec_append_check(olds, new_vers) matches Err(e) ==> (e == RegistryError::InvalidRequest
            || e == RegistryError::Conflict),
    decreases olds.len(),
{
    if olds.len() > 0 {
        lemma_append_check_kind(olds.drop_first(), new_vers);
    }
}

/// Appends the record of a newly published version: every existing version
/// must parse and lie strictly below the new one, else nothing changes and
/// the error says whether a version failed to parse or the ordering was
/// violated.
pub fn append(records: &mut Vec<IndexMetadata>, new: CrateInfo, cksum: String) -> (r: Result<
    (),
    RegistryError,
>)
    ensures
        r == spec_append_check(old(records)@, new.vers@),
        r is Ok ==> final(records)@ == old(records)@.push(spec_published_meta(new, cksum)),
        r is Err ==> *final(records) == *old(records),
{
    let len = records.len();
    if len > 0 {
        let new_version = match parse_version(new.vers.as_str()) {
            Some(v) => v,
            None => {
                proof {
                    assert(spec_append_check(records@, new.vers@) is Err);
                }
                return Err(RegistryError::InvalidRequest);
            },
        };
        let mut i: usize = 0;
        proof {
            assert(records@.skip(0) =~= records@);
        }
        while i < len
            invariant
                len == records@.len(),
                i <= len,
                spec_parsed_version(new.vers@) == Some(new_version@),
                spec_append_check(records@, new.vers@) == spec_append_check(
                    records@.skip(i as int),
                    new.vers@,
                ),
            decreases len - i,
        {
            let ghost suffix = records@.skip(i as int);
            proof {
                assert(suffix.len() > 0);
                assert(suffix[0] == records@[i as int]);
                assert(suffix.drop_first() =~= records@.skip(i + 1));
            }
            let old_version = match parse_version(records[i].vers.as_str()) {
                Some(v) => v,
                None => {
                    return Err(RegistryError::InvalidRequest);
                },
            };
            if !version_lt(&old_version, &new_version) {
                return Err(RegistryError::Conflict);
            }
            i = i + 1;
        }
        proof {
            assert(records@.skip(len as int) =~= Seq::<IndexMetadata>::empty());
        }
    }
    records.push(
        IndexMetadata {
            name: new.name,
            vers: new.vers,
            deps: new.deps,
            cksum: cksum,
            features: new.features,
            yanked: false,
            links: new.links,
        },
    );
    Ok(())
}

/// Versions strictly below one another are different records: an ordered
/// file never holds the same version string twice.
pub proof fn lemma_wf_distinct_vers(rs: Seq<IndexMetadata>, i: int, j: int)
    requires
        spec_index_wf(rs),
        0 <= i < j < rs.len(),
    ensures
        rs[i].vers@ != rs[j].vers@,
{
    if rs[i].vers@ == rs[j].vers@ {
        assert(spec_vers_lt(rs[i], rs[j]));
        let vi = spec_parsed_version(rs[i].vers@).unwrap();
        lemma_version_cmp_refl(vi);
    }
}

/// A passing append keeps the file's strict version order: the law that
/// every record a publish adds stands above all records before it.
pub proof fn lemma_append_preserves_order(rs: Seq<IndexMetadata>, new: CrateInfo, cksum: String)
    requires
        spec_index_wf(rs),
        spec_append_check(rs, new.vers@) is Ok,
    ensures
        spec_index_wf(rs.push(spec_published_meta(new, cksum))),
{
    lemma_append_check_ok(rs, new.vers@);
    let out = rs.push(spec_published_meta(new, cksum));
    assert forall|i: int, j: int| 0 <= i < j < out.len() implies spec_vers_lt(
        out[i],
        out[j],
    ) by {
        if j < rs.len() {
            assert(spec_vers_lt(rs[i], rs[j]));
        } else {
            assert(out[j] == spec_published_meta(new, cksum));
            assert(out[i] == rs[i]);
            assert(out[j].vers == new.vers);
        }
    }
}

/// A yank toggle keeps the file's strict version order: versions are
/// untouched.
pub proof fn lemma_set_yank_preserves_order(rs: Seq<IndexMetadata>, i: int, yanked: bool)
    requires
        spec_index_wf(rs),
        0 <= i < rs.len(),
    ensures
        spec_index_wf(rs.update(i, spec_with_yank(rs[i], yanked))),
{
    let out = rs.update(i, spec_with_yank(rs[i], yanked));
    assert forall|a: int, b: int| 0 <= a < b < out.len() implies spec_vers_lt(
        out[a],
        out[b],
    ) by {
        assert(spec_vers_lt(rs[a], rs[b]));
        assert(out[a].vers == rs[a].vers);
        assert(out[b].vers == rs[b].vers);
    }
}

/// Yanking a version and unyanking it leaves every record as it was: the
/// round trip changes the file's records not at all.
pub proof fn lemma_yank_round_trip(rs: Seq<IndexMetadata>, v: Seq<char>)
    requires
        spec_first_match(rs, v) >= 0,
        rs[spec_first_match(rs, v)].yanked == false,
    ensures
        ({
            let i = spec_first_match(rs, v);
            let once = rs.update(i, spec_with_yank(rs[i], true));
            &&& spec_first_match(once, v) == i
            &&& once[i].yanked == true
            &&& once.update(i, spec_with_yank(once[i], false)) == rs
        }),
{
    let i = spec_first_match(rs, v);
    let once = rs.update(i, spec_with_yank(rs[i], true));
    lemma_first_match_facts(rs, v);
    lemma_first_match_same_vers(rs, once, v);
    assert(once.update(i, spec_with_yank(once[i], false)) =~= rs);
}

/// Two record lists with the same version strings have the same first
/// match.
proof fn lemma_first_match_same_vers(a: Seq<IndexMetadata>, b: Seq<IndexMetadata>, v: Seq<char>)
    requires
        a.len() == b.len(),
        forall|i: int| 0 <= i < a.len() ==> (#[trigger] a[i]).vers@ == (#[trigger] b[i]).vers@,
    ensures
        spec_first_match(a, v) == spec_first_match(b, v),
    decreases a.len(),
{
    if a.len() > 0 {
        lemma_first_match_same_vers(a.drop_first(), b.drop_first(), v);
    }
}

} // verus!
