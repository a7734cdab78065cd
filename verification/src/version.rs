//! The semantic-version model: a parsed version as plain values, with the
//! exact total order that the semver crate puts on versions (numeric triple,
//! then prerelease precedence, then build metadata as a tiebreak).  Parsing
//! is done by the semver crate; the comparison is verified here, mirroring
//! the `Ord` impls of semver 1.0.28 — should a later semver change its
//! order, these spec functions keep pinning this one.

use vstd::prelude::*;

verus! {

/// The outcome of a three-way comparison.
#[derive(Clone, Copy, PartialEq, Eq, Structural, Debug)]
pub enum Cmp {
    Lt,
    Eq,
    Gt,
}

/// A parsed semantic version.  `pre` and `build` hold the ASCII bytes of the
/// dot-joined prerelease and build-metadata identifiers, empty when absent.
#[derive(Debug)]
pub struct Version {
    pub major: u64,
    pub minor: u64,
    pub patch: u64,
    pub pre: Vec<u8>,
    pub build: Vec<u8>,
}

/// The mathematical value of a `Version`.
pub struct VersionModel {
    pub major: u64,
    pub minor: u64,
    pub patch: u64,
    pub pre: Seq<u8>,
    pub build: Seq<u8>,
}

impl View for Version {
    type V = VersionModel;

    open spec fn view(&self) -> VersionModel {
        VersionModel {
            major: self.major,
            minor: self.minor,
            patch: self.patch,
            pre: self.pre@,
            build: self.build@,
        }
    }
}

/// What `semver::Version::parse` returns on the given text: `None` where it
/// errors, otherwise the parsed components.  The result is fixed by the text
/// alone.
pub uninterp spec fn spec_parsed_version(s: Seq<char>) -> Option<VersionModel>;

/// Relies on `semver::Version::parse`: parses a version string into its
/// numeric triple, prerelease and build identifiers; errors on malformed
/// input.
#[verifier::external_body]
pub fn parse_version(s: &str) -> (r: Option<Version>)
    ensures
        match r {
            Some(v) => spec_parsed_version(s@) == Some(v@),
            None => spec_parsed_version(s@) is None,
        },
{
    match semver::Version::parse(s) {
        Ok(v) => Some(Version {
            major: v.major,
            minor: v.minor,
            patch: v.patch,
            pre: v.pre.as_str().as_bytes().to_vec(),
            build: v.build.as_str().as_bytes().to_vec(),
        }),
        Err(_) => None,
    }
}

pub open spec fn spec_cmp_int(a: int, b: int) -> Cmp {
    if a < b {
        Cmp::Lt
    } else if a == b {
        Cmp::Eq
    } else {
        Cmp::Gt
    }
}

/// Bytewise lexicographic order; a strict prefix comes first.  This is the
/// order `str` comparison puts on the underlying bytes.
pub open spec fn spec_lex_cmp(a: Seq<u8>, b: Seq<u8>) -> Cmp
    decreases a.len(),
{
    if a.len() == 0 && b.len() == 0 {
        Cmp::Eq
    } else if a.len() == 0 {
        Cmp::Lt
    } else if b.len() == 0 {
        Cmp::Gt
    } else if a[0] < b[0] {
        Cmp::Lt
    } else if a[0] > b[0] {
        Cmp::Gt
    } else {
        spec_lex_cmp(a.drop_first(), b.drop_first())
    }
}

/// Whether every byte of the identifier is an ASCII digit.
pub open spec fn spec_is_numeric(id: Seq<u8>) -> bool {
    forall|i: int| 0 <= i < id.len() ==> 48 <= #[trigger] id[i] <= 57
}

/// The identifier list with its first element prefixed by the given bytes.
pub open spec fn prepend_first(p: Seq<u8>, ids: Seq<Seq<u8>>) -> Seq<Seq<u8>>
    recommends
        ids.len() > 0,
{
    seq![p + ids[0]] + ids.drop_first()
}

/// The dot-separated identifiers of a prerelease or build string.  An empty
/// string yields one empty identifier, as `str::split` does; a dot closes
/// the identifier before it.
pub open spec fn spec_split_ids(s: Seq<u8>) -> Seq<Seq<u8>>
    decreases s.len(),
{
    if s.len() == 0 {
        seq![Seq::<u8>::empty()]
    } else if s[0] == 46 {
        seq![Seq::<u8>::empty()] + spec_split_ids(s.drop_first())
    } else {
        prepend_first(seq![s[0]], spec_split_ids(s.drop_first()))
    }
}

/// Prerelease identifier precedence: numeric identifiers compare numerically
/// (by length, then bytes) and come before alphanumeric ones; alphanumeric
/// identifiers compare in ASCII order.
pub open spec fn spec_pre_id_cmp(a: Seq<u8>, b: Seq<u8>) -> Cmp {
    if spec_is_numeric(a) && spec_is_numeric(b) {
        if a.len() != b.len() {
            spec_cmp_int(a.len() as int, b.len() as int)
        } else {
            spec_lex_cmp(a, b)
        }
    } else if spec_is_numeric(a) {
        Cmp::Lt
    } else if spec_is_numeric(b) {
        Cmp::Gt
    } else {
        spec_lex_cmp(a, b)
    }
}

/// The given sequence with its leading ASCII zeros removed.
pub open spec fn spec_trim_zeros(s: Seq<u8>) -> Seq<u8>
    decreases s.len(),
{
    if s.len() > 0 && s[0] == 48 {
        spec_trim_zeros(s.drop_first())
    } else {
        s
    }
}

/// Build-metadata identifier order: numeric identifiers compare by value
/// ignoring leading zeros, with the written length as a last tiebreak, and
/// come before alphanumeric ones; alphanumeric identifiers compare in ASCII
/// order.
pub open spec fn spec_build_id_cmp(a: Seq<u8>, b: Seq<u8>) -> Cmp {
    if spec_is_numeric(a) && spec_is_numeric(b) {
        let ta = spec_trim_zeros(a);
        let tb = spec_trim_zeros(b);
        if ta.len() != tb.len() {
            spec_cmp_int(ta.len() as int, tb.len() as int)
        } else if spec_lex_cmp(ta, tb) != Cmp::Eq {
            spec_lex_cmp(ta, tb)
        } else {
            spec_cmp_int(a.len() as int, b.len() as int)
        }
    } else if spec_is_numeric(a) {
        Cmp::Lt
    } else if spec_is_numeric(b) {
        Cmp::Gt
    } else {
        spec_lex_cmp(a, b)
    }
}

/// Identifier lists compare pointwise; when one list is a strict prefix of
/// the other, the shorter comes first.
pub open spec fn spec_pre_ids_cmp(a: Seq<Seq<u8>>, b: Seq<Seq<u8>>) -> Cmp
    decreases a.len(),
{
    if a.len() == 0 && b.len() == 0 {
        Cmp::Eq
    } else if a.len() == 0 {
        Cmp::Lt
    } else if b.len() == 0 {
        Cmp::Gt
    } else if spec_pre_id_cmp(a[0], b[0]) != Cmp::Eq {
        spec_pre_id_cmp(a[0], b[0])
    } else {
        spec_pre_ids_cmp(a.drop_first(), b.drop_first())
    }
}

pub open spec fn spec_build_ids_cmp(a: Seq<Seq<u8>>, b: Seq<Seq<u8>>) -> Cmp
    decreases a.len(),
{
    if a.len() == 0 && b.len() == 0 {
        Cmp::Eq
    } else if a.len() == 0 {
        Cmp::Lt
    } else if b.len() == 0 {
        Cmp::Gt
    } else if spec_build_id_cmp(a[0], b[0]) != Cmp::Eq {
        spec_build_id_cmp(a[0], b[0])
    } else {
        spec_build_ids_cmp(a.drop_first(), b.drop_first())
    }
}

/// Prerelease precedence: a version without a prerelease comes after any
/// version with one.
pub open spec fn spec_pre_cmp(a: Seq<u8>, b: Seq<u8>) -> Cmp {
    if a.len() == 0 && b.len() == 0 {
        Cmp::Eq
    } else if a.len() == 0 {
        Cmp::Gt
    } else if b.len() == 0 {
        Cmp::Lt
    } else {
        spec_pre_ids_cmp(spec_split_ids(a), spec_split_ids(b))
    }
}

pub open spec fn spec_build_cmp(a: Seq<u8>, b: Seq<u8>) -> Cmp {
    spec_build_ids_cmp(spec_split_ids(a), spec_split_ids(b))
}

/// The total order on versions: the numeric triple first, then prerelease
/// precedence, then build metadata.
pub open spec fn spec_version_cmp(a: VersionModel, b: VersionModel) -> Cmp {
    if a.major != b.major {
        spec_cmp_int(a.major as int, b.major as int)
    } else if a.minor != b.minor {
        spec_cmp_int(a.minor as int, b.minor as int)
    } else if a.patch != b.patch {
        spec_cmp_int(a.patch as int, b.patch as int)
    } else if spec_pre_cmp(a.pre, b.pre) != Cmp::Eq {
        spec_pre_cmp(a.pre, b.pre)
    } else {
        spec_build_cmp(a.build, b.build)
    }
}

pub open spec fn spec_version_lt(a: VersionModel, b: VersionModel) -> bool {
    spec_version_cmp(a, b) == Cmp::Lt
}

/// A version is stable when it has neither prerelease nor build identifiers.
pub open spec fn spec_is_stable(v: VersionModel) -> bool {
    v.pre.len() == 0 && v.build.len() == 0
}

impl Version {
    /// Whether this version has neither prerelease nor build identifiers.
    pub fn is_stable(&self) -> (r: bool)
        ensures
            r == spec_is_stable(self@),
    {
        self.pre.len() == 0 && self.build.len() == 0
    }
}

fn lex_cmp(a: &Vec<u8>, b: &Vec<u8>) -> (c: Cmp)
    ensures
        c == spec_lex_cmp(a@, b@),
{
    let mut i: usize = 0;
    proof {
        assert(a@.skip(0) =~= a@);
        assert(b@.skip(0) =~= b@);
    }
    while i < a.len() && i < b.len()
        invariant
            i <= a@.len(),
            i <= b@.len(),
            spec_lex_cmp(a@, b@) == spec_lex_cmp(a@.skip(i as int), b@.skip(i as int)),
        decreases a@.len() - i,
    {
        if a[i] < b[i] {
            return Cmp::Lt;
        }
        if a[i] > b[i] {
            return Cmp::Gt;
        }
        proof {
            assert(a@.skip(i as int).drop_first() =~= a@.skip(i + 1));
            assert(b@.skip(i as int).drop_first() =~= b@.skip(i + 1));
        }
        i = i + 1;
    }
    if a.len() == b.len() {
        Cmp::Eq
    } else if a.len() < b.len() {
        Cmp::Lt
    } else {
        Cmp::Gt
    }
}

fn is_numeric(id: &Vec<u8>) -> (r: bool)
    ensures
        r == spec_is_numeric(id@),
{
    let mut i: usize = 0;
    while i < id.len()
        invariant
            i <= id@.len(),
            forall|j: int| 0 <= j < i ==> 48 <= #[trigger] id@[j] <= 57,
        decreases id@.len() - i,
    {
        if id[i] < 48 || id[i] > 57 {
            return false;
        }
        i = i + 1;
    }
    true
}

fn trim_zeros(v: &Vec<u8>) -> (t: Vec<u8>)
    ensures
        t@ == spec_trim_zeros(v@),
{
    let mut i: usize = 0;
    proof {
        assert(v@.skip(0) =~= v@);
    }
    while i < v.len() && v[i] == 48
        invariant
            i <= v@.len(),
            spec_trim_zeros(v@) == spec_trim_zeros(v@.skip(i as int)),
        decreases v@.len() - i,
    {
        proof {
            assert(v@.skip(i as int).drop_first() =~= v@.skip(i + 1));
        }
        i = i + 1;
    }
    proof {
        assert(spec_trim_zeros(v@.skip(i as int)) == v@.skip(i as int));
    }
    let mut t: Vec<u8> = Vec::new();
    let mut j: usize = i;
    while j < v.len()
        invariant
            i <= j <= v@.len(),
            t@ =~= v@.subrange(i as int, j as int),
        decreases v@.len() - j,
    {
        t.push(v[j]);
        j = j + 1;
    }
    proof {
        assert(t@ =~= v@.skip(i as int));
    }
    t
}

fn pre_id_cmp(a: &Vec<u8>, b: &Vec<u8>) -> (c: Cmp)
    ensures
        c == spec_pre_id_cmp(a@, b@),
{
    let a_num = is_numeric(a);
    let b_num = is_numeric(b);
    if a_num && b_num {
        if a.len() < b.len() {
            Cmp::Lt
        } else if a.len() > b.len() {
            Cmp::Gt
        } else {
            lex_cmp(a, b)
        }
    } else if a_num {
        Cmp::Lt
    } else if b_num {
        Cmp::Gt
    } else {
        lex_cmp(a, b)
    }
}

fn build_id_cmp(a: &Vec<u8>, b: &Vec<u8>) -> (c: Cmp)
    ensures
        c == spec_build_id_cmp(a@, b@),
{
    let a_num = is_numeric(a);
    let b_num = is_numeric(b);
    if a_num && b_num {
        let ta = trim_zeros(a);
        let tb = trim_zeros(b);
        if ta.len() < tb.len() {
            Cmp::Lt
        } else if ta.len() > tb.len() {
            Cmp::Gt
        } else {
            let c = lex_cmp(&ta, &tb);
            match c {
                Cmp::Eq => {
                    if a.len() < b.len() {
                        Cmp::Lt
                    } else if a.len() > b.len() {
                        Cmp::Gt
                    } else {
                        Cmp::Eq
                    }
                },
                _ => c,
            }
        }
    } else if a_num {
        Cmp::Lt
    } else if b_num {
        Cmp::Gt
    } else {
        lex_cmp(a, b)
    }
}

proof fn lemma_split_ids_nonempty(s: Seq<u8>)
    ensures
        spec_split_ids(s).len() > 0,
    decreases s.len(),
{
    if s.len() > 0 {
        lemma_split_ids_nonempty(s.drop_first());
    }
}

/// Splits a byte string on dots into its identifiers.
fn split_ids(s: &Vec<u8>) -> (ids: Vec<Vec<u8>>)
    ensures
        ids.deep_view() == spec_split_ids(s@),
{
    let mut done: Vec<Vec<u8>> = Vec::new();
    let mut cur: Vec<u8> = Vec::new();
    let len = s.len();
    let mut i: usize = 0;
    proof {
        assert(s@.skip(0) =~= s@);
        lemma_split_ids_nonempty(s@);
        assert(done.deep_view() + prepend_first(cur@, spec_split_ids(s@)) =~= prepend_first(
            Seq::<u8>::empty(),
            spec_split_ids(s@),
        ));
        assert(Seq::<u8>::empty() + spec_split_ids(s@)[0] =~= spec_split_ids(s@)[0]);
        assert(prepend_first(Seq::<u8>::empty(), spec_split_ids(s@)) =~= spec_split_ids(s@));
    }
    while i < len
        invariant
            len == s@.len(),
            i <= len,
            spec_split_ids(s@) =~= done.deep_view() + prepend_first(
                cur@,
                spec_split_ids(s@.skip(i as int)),
            ),
        decreases len - i,
    {
        let ghost suffix = s@.skip(i as int);
        let ghost rest = s@.skip(i + 1);
        proof {
            assert(suffix.len() > 0);
            assert(suffix[0] == s@[i as int]);
            assert(suffix.drop_first() =~= rest);
            lemma_split_ids_nonempty(rest);
        }
        if s[i] == 46 {
            proof {
                assert(spec_split_ids(suffix) =~= seq![Seq::<u8>::empty()] + spec_split_ids(rest));
                assert(cur@ + spec_split_ids(suffix)[0] =~= cur@);
                assert(prepend_first(cur@, spec_split_ids(suffix)) =~= seq![cur@] + prepend_first(
                    Seq::<u8>::empty(),
                    spec_split_ids(rest),
                ));
                assert(Seq::<u8>::empty() + spec_split_ids(rest)[0] =~= spec_split_ids(rest)[0]);
                assert(prepend_first(Seq::<u8>::empty(), spec_split_ids(rest)) =~= spec_split_ids(
                    rest,
                ));
            }
            let ghost old_done = done.deep_view();
            done.push(cur);
            proof {
                assert(done.deep_view() =~~= old_done.push(cur@));
            }
            cur = Vec::new();
        } else {
            let c = s[i];
            proof {
                assert(spec_split_ids(suffix) =~= prepend_first(seq![c], spec_split_ids(rest)));
                assert(cur@ + (seq![c] + spec_split_ids(rest)[0]) =~= cur@.push(c) + spec_split_ids(
                    rest,
                )[0]);
                assert(prepend_first(cur@, spec_split_ids(suffix)) =~= prepend_first(
                    cur@.push(c),
                    spec_split_ids(rest),
                ));
            }
            cur.push(c);
        }
        i = i + 1;
    }
    proof {
        assert(s@.skip(len as int) =~= Seq::<u8>::empty());
        assert(spec_split_ids(Seq::<u8>::empty()) =~= seq![Seq::<u8>::empty()]);
        assert(cur@ + Seq::<u8>::empty() =~= cur@);
        assert(prepend_first(cur@, spec_split_ids(Seq::<u8>::empty())) =~= seq![cur@]);
    }
    let ghost old_done = done.deep_view();
    done.push(cur);
    proof {
        assert(done.deep_view() =~~= old_done.push(cur@));
        assert(done.deep_view() =~= spec_split_ids(s@));
    }
    done
}

fn pre_ids_cmp(a: &Vec<Vec<u8>>, b: &Vec<Vec<u8>>) -> (c: Cmp)
    ensures
        c == spec_pre_ids_cmp(a.deep_view(), b.deep_view()),
{
    let mut i: usize = 0;
    proof {
        assert(a.deep_view().skip(0) =~= a.deep_view());
        assert(b.deep_view().skip(0) =~= b.deep_view());
    }
    while i < a.len() && i < b.len()
        invariant
            i <= a@.len(),
            i <= b@.len(),
            a.deep_view().len() == a@.len(),
            b.deep_view().len() == b@.len(),
            spec_pre_ids_cmp(a.deep_view(), b.deep_view()) == spec_pre_ids_cmp(
                a.deep_view().skip(i as int),
                b.deep_view().skip(i as int),
            ),
        decreases a@.len() - i,
    {
        let c = pre_id_cmp(&a[i], &b[i]);
        proof {
            assert(a.deep_view().skip(i as int)[0] == a@[i as int]@);
            assert(b.deep_view().skip(i as int)[0] == b@[i as int]@);
        }
        match c {
            Cmp::Eq => {},
            _ => {
                return c;
            },
        }
        proof {
            assert(a.deep_view().skip(i as int).drop_first() =~= a.deep_view().skip(i + 1));
            assert(b.deep_view().skip(i as int).drop_first() =~= b.deep_view().skip(i + 1));
        }
        i = i + 1;
    }
    if a.len() == b.len() {
        Cmp::Eq
    } else if a.len() < b.len() {
        Cmp::Lt
    } else {
        Cmp::Gt
    }
}

fn build_ids_cmp(a: &Vec<Vec<u8>>, b: &Vec<Vec<u8>>) -> (c: Cmp)
    ensures
        c == spec_build_ids_cmp(a.deep_view(), b.deep_view()),
{
    let mut i: usize = 0;
    proof {
        assert(a.deep_view().skip(0) =~= a.deep_view());
        assert(b.deep_view().skip(0) =~= b.deep_view());
    }
    while i < a.len() && i < b.len()
        invariant
            i <= a@.len(),
            i <= b@.len(),
            a.deep_view().len() == a@.len(),
            b.deep_view().len() == b@.len(),
            spec_build_ids_cmp(a.deep_view(), b.deep_view()) == spec_build_ids_cmp(
                a.deep_view().skip(i as int),
                b.deep_view().skip(i as int),
            ),
        decreases a@.len() - i,
    {
        let c = build_id_cmp(&a[i], &b[i]);
        proof {
            assert(a.deep_view().skip(i as int)[0] == a@[i as int]@);
            assert(b.deep_view().skip(i as int)[0] == b@[i as int]@);
        }
        match c {
            Cmp::Eq => {},
            _ => {
                return c;
            },
        }
        proof {
            assert(a.deep_view().skip(i as int).drop_first() =~= a.deep_view().skip(i + 1));
            assert(b.deep_view().skip(i as int).drop_first() =~= b.deep_view().skip(i + 1));
        }
        i = i + 1;
    }
    if a.len() == b.len() {
        Cmp::Eq
    } else if a.len() < b.len() {
        Cmp::Lt
    } else {
        Cmp::Gt
    }
}

/// Compares two versions in the semver crate's total order.
pub fn version_cmp(a: &Version, b: &Version) -> (c: Cmp)
    ensures
        c == spec_version_cmp(a@, b@),
{
    if a.major != b.major {
        return if a.major < b.major {
            Cmp::Lt
        } else {
            Cmp::Gt
        };
    }
    if a.minor != b.minor {
        return if a.minor < b.minor {
            Cmp::Lt
        } else {
            Cmp::Gt
        };
    }
    if a.patch != b.patch {
        return if a.patch < b.patch {
            Cmp::Lt
        } else {
            Cmp::Gt
        };
    }
    let pre = if a.pre.len() == 0 && b.pre.len() == 0 {
        Cmp::Eq
    } else if a.pre.len() == 0 {
        Cmp::Gt
    } else if b.pre.len() == 0 {
        Cmp::Lt
    } else {
        let a_ids = split_ids(&a.pre);
        let b_ids = split_ids(&b.pre);
        pre_ids_cmp(&a_ids, &b_ids)
    };
    match pre {
        Cmp::Eq => {
            let a_ids = split_ids(&a.build);
            let b_ids = split_ids(&b.build);
            build_ids_cmp(&a_ids, &b_ids)
        },
        _ => pre,
    }
}

/// Whether `a` comes strictly before `b` in version order.
pub fn version_lt(a: &Version, b: &Version) -> (r: bool)
    ensures
        r == spec_version_lt(a@, b@),
{
    match version_cmp(a, b) {
        Cmp::Lt => true,
        _ => false,
    }
}

proof fn lemma_lex_cmp_refl(a: Seq<u8>)
    ensures
        spec_lex_cmp(a, a) == Cmp::Eq,
    decreases a.len(),
{
    if a.len() > 0 {
        lemma_lex_cmp_refl(a.drop_first());
    }
}

proof fn lemma_pre_ids_cmp_refl(a: Seq<Seq<u8>>)
    ensures
        spec_pre_ids_cmp(a, a) == Cmp::Eq,
    decreases a.len(),
{
    if a.len() > 0 {
        lemma_lex_cmp_refl(a[0]);
        lemma_pre_ids_cmp_refl(a.drop_first());
    }
}

proof fn lemma_build_ids_cmp_refl(a: Seq<Seq<u8>>)
    ensures
        spec_build_ids_cmp(a, a) == Cmp::Eq,
    decreases a.len(),
{
    if a.len() > 0 {
        lemma_lex_cmp_refl(a[0]);
        lemma_lex_cmp_refl(spec_trim_zeros(a[0]));
        lemma_build_ids_cmp_refl(a.drop_first());
    }
}

/// A version compares equal to itself; so a version strictly below another
/// can never be the same value.
pub proof fn lemma_version_cmp_refl(v: VersionModel)
    ensures
        spec_version_cmp(v, v) == Cmp::Eq,
{
    if v.pre.len() > 0 {
        lemma_pre_ids_cmp_refl(spec_split_ids(v.pre));
    }
    lemma_build_ids_cmp_refl(spec_split_ids(v.build));
}

} // verus!
