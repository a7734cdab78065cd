//! The package rows and the decisions the database layer makes: how a
//! publish rewrites a row, which rows a search query matches, how results
//! are ordered, and when the upstream registry must be asked instead.
//! Running SQL is I/O and stays outside the library; rows come in and go
//! out as values.

use vstd::multiset::Multiset;
use vstd::prelude::*;

use crate::errors::RegistryError;
use crate::index::CrateInfo;
use crate::owners::join_comma;
use crate::owners::spec_join_comma;
use crate::version::parse_version;
use crate::version::spec_is_stable;
use crate::version::spec_parsed_version;

verus! {

/// A package row: identifying name, bookkeeping timestamps and counters,
/// the version summary, the searchable metadata, and the comma-joined
/// owners.  `owners` is `None` for rows cached from upstream search, which
/// no local client may modify.
pub struct Crates {
    pub id: String,
    pub name: String,
    pub updated_at: String,
    pub versions: Option<String>,
    pub keywords: Option<String>,
    pub categories: Option<String>,
    pub created_at: String,
    pub downloads: i32,
    pub recent_downloads: i32,
    pub max_version: String,
    pub newest_version: String,
    pub max_stable_version: Option<String>,
    pub description: Option<String>,
    pub homepage: Option<String>,
    pub documentation: Option<String>,
    pub repository: Option<String>,
    pub owners: Option<String>,
}

/// The query half of a search request.
pub struct SearchParam {
    pub q: String,
    pub per_page: i64,
    pub page: Option<i64>,
}

/// The count a search reports beside its rows.
pub struct Meta {
    pub total: i64,
}

/// What a search returns: the matching rows and their total count.
pub struct SearchResult {
    pub crates: Vec<Crates>,
    pub meta: Meta,
}

/// A copy of an optional string value.
pub fn clone_opt_string(o: &Option<String>) -> (r: Option<String>)
    ensures
        r == *o,
{
    match o {
        Some(s) => Some(s.clone()),
        None => None,
    }
}

/// Rewrites or creates the package row for a newly published version.  An
/// existing row keeps its counters, creation time and owners; a fresh row
/// starts at zero with the publisher as sole owner.  The version summary
/// always moves to the published version; the stable-version summary moves
/// only when the new version is stable.
pub fn update(existing: Option<&Crates>, meta: &CrateInfo, user: &str, now: &str) -> (r: Result<
    Crates,
    RegistryError,
>)
    ensures
        match r {
            Ok(row) => spec_parsed_version(meta.vers@) matches Some(v) && {
                &&& row.name == meta.name
                &&& row.id == meta.name
                &&& row.updated_at@ == now@
                &&& row.keywords matches Some(k) && k@ == spec_join_comma(meta.keywords.deep_view())
                &&& row.categories matches Some(c) && c@ == spec_join_comma(
                    meta.categories.deep_view(),
                )
                &&& row.max_version == meta.vers
                &&& row.newest_version == meta.vers
                &&& row.description == meta.description
                &&& row.homepage == meta.homepage
                &&& row.documentation == meta.documentation
                &&& row.repository == meta.repository
                &&& spec_is_stable(v) ==> row.max_stable_version == Some(meta.vers)
                &&& match existing {
                    Some(old) => {
                        &&& !spec_is_stable(v) ==> row.max_stable_version
                            == old.max_stable_version
                        &&& row.versions == old.versions
                        &&& row.created_at == old.created_at
                        &&& row.downloads == old.downloads
                        &&& row.recent_downloads == old.recent_downloads
                        &&& row.owners == old.owners
                    },
                    None => {
                        &&& !spec_is_stable(v) ==> row.max_stable_version is None
                        &&& row.versions is None
                        &&& row.created_at@ == now@
                        &&& row.downloads == 0
                        &&& row.recent_downloads == 0
                        &&& row.owners matches Some(u) && u@ == user@
                    },
                }
            },
            Err(e) => {
                &&& e == RegistryError::InvalidRequest
                &&& spec_parsed_version(meta.vers@) is None
            },
        },
{
    let version = match parse_version(meta.vers.as_str()) {
        Some(v) => v,
        None => {
            return Err(RegistryError::InvalidRequest);
        },
    };
    let stable = version.is_stable();
    let keywords = Some(join_comma(&meta.keywords));
    let categories = Some(join_comma(&meta.categories));
    let row = match existing {
        Some(old) => Crates {
            id: meta.name.clone(),
            name: meta.name.clone(),
            updated_at: String::from_str(now),
            versions: clone_opt_string(&old.versions),
            keywords,
            categories,
            created_at: old.created_at.clone(),
            downloads: old.downloads,
            recent_downloads: old.recent_downloads,
            max_version: meta.vers.clone(),
            newest_version: meta.vers.clone(),
            max_stable_version: if stable {
                Some(meta.vers.clone())
            } else {
                clone_opt_string(&old.max_stable_version)
            },
            description: clone_opt_string(&meta.description),
            homepage: clone_opt_string(&meta.homepage),
            documentation: clone_opt_string(&meta.documentation),
            repository: clone_opt_string(&meta.repository),
            owners: clone_opt_string(&old.owners),
        },
        None => Crates {
            id: meta.name.clone(),
            name: meta.name.clone(),
            updated_at: String::from_str(now),
            versions: None,
            keywords,
            categories,
            created_at: String::from_str(now),
            downloads: 0,
            recent_downloads: 0,
            max_version: meta.vers.clone(),
            newest_version: meta.vers.clone(),
            max_stable_version: if stable {
                Some(meta.vers.clone())
            } else {
                None
            },
            description: clone_opt_string(&meta.description),
            homepage: clone_opt_string(&meta.homepage),
            documentation: clone_opt_string(&meta.documentation),
            repository: clone_opt_string(&meta.repository),
            owners: Some(String::from_str(user)),
        },
    };
    Ok(row)
}

/// The char folded to lowercase where it is an ASCII capital, as the
/// storage layer's case-insensitive match folds it.
pub open spec fn spec_lower_char(c: char) -> char {
    if 65 <= c as u32 <= 90 {
        (((c as u32) + 32) as u8) as char
    } else {
        c
    }
}

fn lower_char(c: char) -> (r: char)
    ensures
        r == spec_lower_char(c),
{
    let n = c as u32;
    if 65 <= n && n <= 90 {
        ((n + 32) as u8) as char
    } else {
        c
    }
}

/// Whether `needle` stands at offset `k` of `hay`, both folded to ASCII
/// lowercase.
pub open spec fn spec_matches_ci_at(hay: Seq<char>, k: int, needle: Seq<char>) -> bool {
    forall|j: int|
        0 <= j < needle.len() ==> spec_lower_char(hay[k + j]) == spec_lower_char(
            #[trigger] needle[j],
        )
}

/// Whether `needle` stands somewhere inside `hay`, both folded to ASCII
/// lowercase.
pub open spec fn spec_contains_ci(hay: Seq<char>, needle: Seq<char>) -> bool {
    exists|k: int| 0 <= k <= hay.len() - needle.len() && #[trigger] spec_matches_ci_at(
        hay,
        k,
        needle,
    )
}

fn matches_ci_at(hay: &str, k: usize, needle: &str) -> (r: bool)
    requires
        k + needle@.len() <= hay@.len(),
        hay@.len() <= usize::MAX,
    ensures
        r == spec_matches_ci_at(hay@, k as int, needle@),
{
    let nlen = needle.unicode_len();
    let mut j: usize = 0;
    while j < nlen
        invariant
            nlen == needle@.len(),
            k + nlen <= hay@.len(),
            hay@.len() <= usize::MAX,
            j <= nlen,
            forall|m: int|
                0 <= m < j ==> spec_lower_char(hay@[k + m]) == spec_lower_char(
                    #[trigger] needle@[m],
                ),
        decreases nlen - j,
    {
        if lower_char(hay.get_char(k + j)) != lower_char(needle.get_char(j)) {
            return false;
        }
        j = j + 1;
    }
    true
}

/// Whether `needle` stands inside `hay`, ignoring ASCII case: the wildcard
/// match the search runs on names and descriptions.
pub fn contains_ci(hay: &str, needle: &str) -> (r: bool)
    ensures
        r == spec_contains_ci(hay@, needle@),
{
    let hlen = hay.unicode_len();
    let nlen = needle.unicode_len();
    if nlen > hlen {
        return false;
    }
    let mut k: usize = 0;
    while k <= hlen - nlen
        invariant
            hlen == hay@.len(),
            nlen == needle@.len(),
            nlen <= hlen,
            k <= hlen - nlen + 1,
            forall|m: int| 0 <= m < k ==> !spec_matches_ci_at(hay@, m, needle@),
        decreases hlen - nlen - k + 1,
    {
        if matches_ci_at(hay, k, needle) {
            return true;
        }
        k = k + 1;
    }
    false
}

/// Whether a search for `q` matches the row: the name or the description
/// holds the query, ignoring ASCII case.  A row without a description can
/// match only by name.
pub open spec fn spec_row_matches(row: Crates, q: Seq<char>) -> bool {
    ||| spec_contains_ci(row.name@, q)
    ||| row.description matches Some(d) && spec_contains_ci(d@, q)
}

pub fn row_matches(row: &Crates, q: &str) -> (r: bool)
    ensures
        r == spec_row_matches(*row, q@),
{
    if contains_ci(row.name.as_str(), q) {
        return true;
    }
    match &row.description {
        Some(d) => contains_ci(d.as_str(), q),
        None => false,
    }
}

/// Whether the local rows settle the search: they do only when some row's
/// name equals the query exactly and the count is not zero; otherwise the
/// upstream registry is asked.
pub fn needs_fallback(records: &Vec<Crates>, count: i64, q: &str) -> (r: bool)
    ensures
        r == (count == 0 || !exists|i: int|
            0 <= i < records@.len() && (#[trigger] records@[i]).name@ == q@),
{
    if count == 0 {
        return true;
    }
    let len = records.len();
    let mut i: usize = 0;
    while i < len
        invariant
            len == records@.len(),
            count != 0,
            i <= len,
            forall|j: int| 0 <= j < i ==> (#[trigger] records@[j]).name@ != q@,
        decreases len - i,
    {
        if crate::gitcmd::str_eq(records[i].name.as_str(), q) {
            proof {
                assert((records@[i as int]).name@ == q@);
                assert(exists|j: int|
                    0 <= j < records@.len() && (#[trigger] records@[j]).name@ == q@);
            }
            return false;
        }
        i = i + 1;
    }
    true
}

/// Whether the rows stand in ascending order of name length.
pub open spec fn spec_sorted_by_name_len(rows: Seq<Crates>) -> bool {
    forall|i: int, j: int|
        0 <= i < j < rows.len() ==> (#[trigger] rows[i]).name@.len() <= (
        #[trigger] rows[j]).name@.len()
}

/// The position of a row with the shortest name.
fn min_len_index(rows: &Vec<Crates>) -> (m: usize)
    requires
        rows@.len() > 0,
    ensures
        m < rows@.len(),
        forall|j: int|
            0 <= j < rows@.len() ==> rows@[m as int].name@.len() <= (
            #[trigger] rows@[j]).name@.len(),
{
    let mut m: usize = 0;
    let len = rows.len();
    let mut i: usize = 1;
    while i < len
        invariant
            len == rows@.len(),
            m < i <= len,
            forall|j: int|
                0 <= j < i ==> rows@[m as int].name@.len() <= (#[trigger] rows@[j]).name@.len(),
        decreases len - i,
    {
        if rows[i].name.unicode_len() < rows[m].name.unicode_len() {
            m = i;
        }
        i = i + 1;
    }
    m
}

/// Sorts rows by name length ascending, shortest match first; the result
/// holds exactly the given rows.
pub fn sort_by_name_len(records: Vec<Crates>) -> (r: Vec<Crates>)
    ensures
        spec_sorted_by_name_len(r@),
        r@.to_multiset() == records@.to_multiset(),
{
    broadcast use vstd::seq_lib::group_to_multiset_ensures;
    broadcast use vstd::multiset::group_multiset_axioms;

    let mut rest = records;
    let ghost all = rest@;
    let mut out: Vec<Crates> = Vec::new();
    while rest.len() > 0
        invariant
            all.to_multiset() == out@.to_multiset().add(rest@.to_multiset()),
            spec_sorted_by_name_len(out@),
            forall|i: int, j: int|
                0 <= i < out@.len() && 0 <= j < rest@.len() ==> (
                #[trigger] out@[i]).name@.len() <= (#[trigger] rest@[j]).name@.len(),
        decreases rest@.len(),
    {
        let ghost old_out = out@;
        let ghost old_rest = rest@;
        let m = min_len_index(&rest);
        let x = rest.remove(m);
        out.push(x);
        proof {
            let ghost v = old_rest[m as int];
            old_out.to_multiset_ensures();
            old_rest.to_multiset_ensures();
            assert(out@ =~= old_out.push(v));
            assert(rest@ =~= old_rest.remove(m as int));
            assert(old_rest.contains(v));
            assert(old_rest.to_multiset().count(v) > 0);
            assert(old_out.push(v).to_multiset() =~= old_out.to_multiset().insert(v));
            assert(old_rest.remove(m as int).to_multiset() =~= old_rest.to_multiset().remove(v));
            assert(out@.to_multiset() == old_out.to_multiset().insert(v));
            assert(rest@.to_multiset() == old_rest.to_multiset().remove(v));
            assert(out@.to_multiset().add(rest@.to_multiset()) =~= old_out.to_multiset().add(
                old_rest.to_multiset(),
            ));
            assert forall|i: int, j: int|
                0 <= i < out@.len() && 0 <= j < rest@.len() implies (
            #[trigger] out@[i]).name@.len() <= (#[trigger] rest@[j]).name@.len() by {
                if j < m {
                    assert(rest@[j] == old_rest[j]);
                } else {
                    assert(rest@[j] == old_rest[j + 1]);
                }
            }
        }
    }
    proof {
        assert(rest@.to_multiset() =~= Multiset::<Crates>::empty());
        assert(out@.to_multiset().add(Multiset::<Crates>::empty()) =~= out@.to_multiset());
    }
    out
}

/// Decides a search from what the storage layer loaded: either the local
/// rows settle it, sorted shortest-name first with the windowed count, or
/// the upstream registry must be asked.
pub fn search(records: Vec<Crates>, count: i64, key_word: &str) -> (r: Option<SearchResult>)
    ensures
        match r {
            Some(result) => {
                &&& !(count == 0 || !exists|i: int|
                    0 <= i < records@.len() && (#[trigger] records@[i]).name@ == key_word@)
                &&& spec_sorted_by_name_len(result.crates@)
                &&& result.crates@.to_multiset() == records@.to_multiset()
                &&& result.meta.total == count
            },
            None => count == 0 || !exists|i: int|
                0 <= i < records@.len() && (#[trigger] records@[i]).name@ == key_word@,
        },
{
    if needs_fallback(&records, count, key_word) {
        return None;
    }
    let sorted = sort_by_name_len(records);
    Some(SearchResult { crates: sorted, meta: Meta { total: count } })
}

} // verus!
