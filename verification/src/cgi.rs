//! The CGI bridge's computing half: the `PATH_INFO` derived from a request
//! URI, and the parse of the git HTTP backend's output into a status code,
//! response headers and a body.  Spawning the backend and streaming bytes
//! stay outside the library.

use vstd::prelude::*;
use vstd::slice::slice_subrange;
use vstd::slice::slice_to_vec;

use crate::errors::RegistryError;
use crate::gitcmd::replace_all;
use crate::gitcmd::spec_replace;
use crate::hashes::push_char;

verus! {

/// What the backend's output parses into: the HTTP status, the response
/// headers in order, and the body bytes.
pub struct CgiResponse {
    pub code: u16,
    pub headers: Vec<(Vec<u8>, Vec<u8>)>,
    pub body: Vec<u8>,
}

/// The position of the first question mark, or -1 when there is none.
pub open spec fn spec_first_qmark(s: Seq<char>) -> int
    decreases s.len(),
{
    if s.len() == 0 {
        -1
    } else if s[0] == '?' {
        0
    } else {
        let r = spec_first_qmark(s.drop_first());
        if r < 0 {
            -1
        } else {
            r + 1
        }
    }
}

/// The `PATH_INFO` handed to the backend: the URI with every occurrence of
/// the serving prefix removed and any query tail cut off.
pub open spec fn spec_path_info(uri: Seq<char>, prefix: Seq<char>) -> Seq<char>
    recommends
        prefix.len() > 0,
{
    let stripped = spec_replace(uri, prefix, Seq::empty());
    let q = spec_first_qmark(stripped);
    if q < 0 {
        stripped
    } else {
        stripped.take(q)
    }
}

proof fn lemma_first_qmark_facts(s: Seq<char>)
    ensures
        spec_first_qmark(s) >= 0 ==> {
            &&& spec_first_qmark(s) < s.len()
            &&& s[spec_first_qmark(s)] == '?'
            &&& forall|j: int| 0 <= j < spec_first_qmark(s) ==> s[j] != '?'
        },
        spec_first_qmark(s) < 0 ==> forall|j: int| 0 <= j < s.len() ==> s[j] != '?',
    decreases s.len(),
{
    if s.len() > 0 && s[0] != '?' {
        lemma_first_qmark_facts(s.drop_first());
        assert(forall|j: int| 1 <= j < s.len() ==> s[j] == s.drop_first()[j - 1]);
    }
}

/// Derives `PATH_INFO` from the request URI: strips the serving prefix and
/// drops everything from the first question mark on.
pub fn path_info(uri: &str, prefix: &str) -> (r: String)
    requires
        prefix@.len() > 0,
    ensures
        r@ == spec_path_info(uri@, prefix@),
{
    proof {
        reveal_strlit("");
        assert(""@ =~= Seq::<char>::empty());
    }
    let stripped = replace_all(uri, prefix, "");
    let len = stripped.as_str().unicode_len();
    let mut i: usize = 0;
    let ghost sv = stripped@;
    while i < len
        invariant
            len == sv.len(),
            sv == stripped@,
            sv == spec_replace(uri@, prefix@, Seq::<char>::empty()),
            i <= len,
            forall|j: int| 0 <= j < i ==> sv[j] != '?',
        decreases len - i,
    {
        if stripped.as_str().get_char(i) == '?' {
            proof {
                lemma_first_qmark_facts(sv);
                assert(spec_first_qmark(sv) == i);
            }
            let head = stripped.as_str().substring_char(0, i);
            let r = String::from_str(head);
            proof {
                assert(r@ =~= sv.take(i as int));
            }
            return r;
        }
        i = i + 1;
    }
    proof {
        lemma_first_qmark_facts(sv);
        assert(spec_first_qmark(sv) < 0);
    }
    stripped
}

/// Whether the byte is ASCII whitespace, as line trimming folds it away.
pub open spec fn spec_is_ws_byte(b: u8) -> bool {
    b == 32 || (9 <= b <= 13)
}

/// The bytes with leading whitespace removed.
pub open spec fn spec_trim_start(s: Seq<u8>) -> Seq<u8>
    decreases s.len(),
{
    if s.len() > 0 && spec_is_ws_byte(s[0]) {
        spec_trim_start(s.drop_first())
    } else {
        s
    }
}

/// The bytes with trailing whitespace removed.
pub open spec fn spec_trim_end(s: Seq<u8>) -> Seq<u8>
    decreases s.len(),
{
    if s.len() > 0 && spec_is_ws_byte(s.last()) {
        spec_trim_end(s.drop_last())
    } else {
        s
    }
}

/// The bytes with whitespace removed from both ends.
pub open spec fn spec_trim(s: Seq<u8>) -> Seq<u8> {
    spec_trim_end(spec_trim_start(s))
}

fn is_ws_byte(b: u8) -> (r: bool)
    ensures
        r == spec_is_ws_byte(b),
{
    b == 32 || (9 <= b && b <= 13)
}

proof fn lemma_trim_start_skip(s: Seq<u8>, i: int)
    requires
        0 <= i <= s.len(),
        forall|j: int| 0 <= j < i ==> spec_is_ws_byte(#[trigger] s[j]),
        i < s.len() ==> !spec_is_ws_byte(s[i]),
    ensures
        spec_trim_start(s) == s.skip(i),
    decreases i,
{
    if i == 0 {
        assert(s.skip(0) =~= s);
    } else {
        lemma_trim_start_skip(s.drop_first(), i - 1);
        assert(s.drop_first().skip(i - 1) =~= s.skip(i));
    }
}

proof fn lemma_trim_end_take(s: Seq<u8>, i: int)
    requires
        0 <= i <= s.len(),
        forall|j: int| i <= j < s.len() ==> spec_is_ws_byte(#[trigger] s[j]),
        i > 0 ==> !spec_is_ws_byte(s[i - 1]),
    ensures
        spec_trim_end(s) == s.take(i),
    decreases s.len() - i,
{
    if i == s.len() {
        assert(s.take(i) =~= s);
    } else {
        lemma_trim_end_take(s.drop_last(), i);
        assert(s.drop_last().take(i) =~= s.take(i));
    }
}

/// Removes ASCII whitespace from both ends of a line.
pub fn trim_bytes(s: &[u8]) -> (r: Vec<u8>)
    ensures
        r@ == spec_trim(s@),
{
    let len = s.len();
    let mut a: usize = 0;
    while a < len && is_ws_byte(s[a])
        invariant
            len == s@.len(),
            a <= len,
            forall|j: int| 0 <= j < a ==> spec_is_ws_byte(#[trigger] s@[j]),
        decreases len - a,
    {
        a = a + 1;
    }
    proof {
        lemma_trim_start_skip(s@, a as int);
    }
    let mut b: usize = len;
    while b > a && is_ws_byte(s[b - 1])
        invariant
            len == s@.len(),
            a <= b <= len,
            forall|j: int| 0 <= j < a ==> spec_is_ws_byte(#[trigger] s@[j]),
            forall|j: int| b <= j < len ==> spec_is_ws_byte(#[trigger] s@[j]),
        decreases b,
    {
        b = b - 1;
    }
    let r = slice_to_vec(slice_subrange(s, a, b));
    proof {
        let st = s@.skip(a as int);
        assert forall|j: int| b - a <= j < st.len() implies spec_is_ws_byte(#[trigger] st[j]) by {
            assert(st[j] == s@[a + j]);
        }
        if b > a {
            assert(!spec_is_ws_byte(st[b - a - 1]));
        } else {
            if st.len() > 0 {
                assert(!spec_is_ws_byte(s@[a as int]));
                assert(!spec_is_ws_byte(st[0]));
            }
        }
        lemma_trim_end_take(st, b - a);
        assert(r@ =~= st.take(b - a));
    }
    r
}

/// The value of an all-digit byte string read in decimal.
pub open spec fn spec_digits_val(s: Seq<u8>) -> int
    decreases s.len(),
{
    if s.len() == 0 {
        0
    } else {
        spec_digits_val(s.drop_last()) * 10 + (s.last() - 48)
    }
}

pub open spec fn spec_all_digits(s: Seq<u8>) -> bool {
    forall|j: int| 0 <= j < s.len() ==> 48 <= #[trigger] s[j] <= 57
}

/// The status number a byte string parses to: it must be nonempty, all
/// digits, and fit a `u16`.
pub open spec fn spec_parse_u16(s: Seq<u8>) -> Option<u16> {
    if s.len() > 0 && spec_all_digits(s) && spec_digits_val(s) <= 65535 {
        Some(spec_digits_val(s) as u16)
    } else {
        None
    }
}

proof fn lemma_digits_val_nonneg(s: Seq<u8>)
    requires
        spec_all_digits(s),
    ensures
        spec_digits_val(s) >= 0,
    decreases s.len(),
{
    if s.len() > 0 {
        assert(spec_all_digits(s.drop_last()));
        lemma_digits_val_nonneg(s.drop_last());
    }
}

proof fn lemma_digits_val_prefix(s: Seq<u8>, i: int)
    requires
        spec_all_digits(s),
        0 <= i <= s.len(),
    ensures
        spec_digits_val(s.take(i)) <= spec_digits_val(s),
    decreases s.len() - i,
{
    if i < s.len() {
        lemma_digits_val_prefix(s, i + 1);
        let t = s.take(i + 1);
        assert(spec_all_digits(t));
        assert(t.drop_last() =~= s.take(i));
        lemma_digits_val_nonneg(s.take(i));
        assert(spec_digits_val(t) == spec_digits_val(s.take(i)) * 10 + (t.last() - 48));
        assert(spec_digits_val(s.take(i)) <= spec_digits_val(t));
    } else {
        assert(s.take(i) =~= s);
    }
}

/// Parses a decimal status number.
pub fn parse_u16(s: &Vec<u8>) -> (r: Option<u16>)
    ensures
        r == spec_parse_u16(s@),
{
    let len = s.len();
    if len == 0 {
        return None;
    }
    let mut acc: u32 = 0;
    let mut i: usize = 0;
    proof {
        assert(s@.take(0) =~= Seq::<u8>::empty());
    }
    while i < len
        invariant
            len == s@.len(),
            i <= len,
            forall|j: int| 0 <= j < i ==> 48 <= #[trigger] s@[j] <= 57,
            acc == spec_digits_val(s@.take(i as int)),
            acc <= 65535,
        decreases len - i,
    {
        let b = s[i];
        if b < 48 || b > 57 {
            return None;
        }
        proof {
            assert(s@.take(i + 1).drop_last() =~= s@.take(i as int));
        }
        let next: u32 = acc * 10 + ((b - 48) as u32);
        if next > 65535 {
            proof {
                assert(spec_all_digits(s@.take(i + 1))) by {
                    assert(forall|j: int|
                        0 <= j < i + 1 ==> 48 <= #[trigger] s@.take(i + 1)[j] <= 57);
                }
                if spec_all_digits(s@) {
                    assert(s@.take(i + 1) =~= s@.take(len as int).take(i + 1));
                    assert(s@.take(len as int) =~= s@);
                    lemma_digits_val_prefix(s@, i + 1);
                }
            }
            return None;
        }
        acc = next;
        i = i + 1;
    }
    proof {
        assert(s@.take(len as int) =~= s@);
    }
    Some(acc as u16)
}

/// The position of the first occurrence of the byte, or -1.
pub open spec fn spec_first_byte(s: Seq<u8>, b: u8) -> int
    decreases s.len(),
{
    if s.len() == 0 {
        -1
    } else if s[0] == b {
        0
    } else {
        let r = spec_first_byte(s.drop_first(), b);
        if r < 0 {
            -1
        } else {
            r + 1
        }
    }
}

proof fn lemma_first_byte_facts(s: Seq<u8>, b: u8)
    ensures
        spec_first_byte(s, b) >= 0 ==> {
            &&& spec_first_byte(s, b) < s.len()
            &&& s[spec_first_byte(s, b)] == b
            &&& forall|j: int| 0 <= j < spec_first_byte(s, b) ==> s[j] != b
        },
        spec_first_byte(s, b) < 0 ==> forall|j: int| 0 <= j < s.len() ==> s[j] != b,
    decreases s.len(),
{
    if s.len() > 0 && s[0] != b {
        lemma_first_byte_facts(s.drop_first(), b);
        assert(forall|j: int| 1 <= j < s.len() ==> s[j] == s.drop_first()[j - 1]);
    }
}

/// The position of the first occurrence of the byte, or the length when it
/// does not occur.
fn find_byte(s: &[u8], b: u8) -> (r: usize)
    ensures
        r <= s@.len(),
        spec_first_byte(s@, b) >= 0 ==> r == spec_first_byte(s@, b) && r < s@.len(),
        spec_first_byte(s@, b) < 0 ==> r == s@.len(),
{
    let len = s.len();
    let mut i: usize = 0;
    while i < len
        invariant
            len == s@.len(),
            i <= len,
            forall|j: int| 0 <= j < i ==> s@[j] != b,
        decreases len - i,
    {
        if s[i] == b {
            proof {
                lemma_first_byte_facts(s@, b);
            }
            return i;
        }
        i = i + 1;
    }
    proof {
        lemma_first_byte_facts(s@, b);
    }
    len
}

/// The bytes of the marker a status pseudo-header opens with.
pub open spec fn spec_status_marker() -> Seq<u8> {
    seq![83u8, 116u8, 97u8, 116u8, 117u8, 115u8, 58u8]
}

/// Whether the trimmed line opens with `Status:`.
pub open spec fn spec_is_status_line(t: Seq<u8>) -> bool {
    t.len() >= 7 && t.take(7) == spec_status_marker()
}

fn is_status_line(t: &Vec<u8>) -> (r: bool)
    ensures
        r == spec_is_status_line(t@),
{
    if t.len() < 7 {
        return false;
    }
    let r = t[0] == 83 && t[1] == 116 && t[2] == 97 && t[3] == 116 && t[4] == 117 && t[5] == 115
        && t[6] == 58;
    proof {
        if r {
            assert(t@.take(7) =~= spec_status_marker());
        } else {
            assert(t@.take(7) != spec_status_marker()) by {
                if t@.take(7) == spec_status_marker() {
                    assert(t@[0] == 83 && t@[1] == 116 && t@[2] == 97 && t@[3] == 116 && t@[4]
                        == 117 && t@[5] == 115 && t@[6] == 58) by {
                        assert(forall|j: int| 0 <= j < 7 ==> t@[j] == #[trigger] t@.take(7)[j]);
                    }
                }
            }
        }
    }
    r
}

/// The status code a `Status:` line carries: the second space-separated
/// piece after the marker, read as a decimal number.  A line of the shape
/// `Status: NNN reason` yields `NNN`.
pub open spec fn spec_parse_status(t: Seq<u8>) -> Option<u16>
    recommends
        spec_is_status_line(t),
{
    let rest = t.skip(7);
    let f = spec_first_byte(rest, 32);
    if f < 0 {
        None
    } else {
        let tail = rest.skip(f + 1);
        let g = spec_first_byte(tail, 32);
        let piece = if g < 0 {
            tail
        } else {
            tail.take(g)
        };
        spec_parse_u16(piece)
    }
}

fn parse_status(t: &Vec<u8>) -> (r: Option<u16>)
    requires
        t@.len() >= 7,
    ensures
        r == spec_parse_status(t@),
{
    let rest = slice_subrange(t.as_slice(), 7, t.len());
    proof {
        assert(rest@ =~= t@.skip(7));
    }
    let f = find_byte(rest, 32);
    proof {
        lemma_first_byte_facts(rest@, 32);
    }
    if f == rest.len() {
        proof {
            assert(spec_first_byte(rest@, 32) < 0);
        }
        return None;
    }
    let tail = slice_subrange(rest, f + 1, rest.len());
    proof {
        assert(tail@ =~= rest@.skip(f + 1));
    }
    let g = find_byte(tail, 32);
    proof {
        lemma_first_byte_facts(tail@, 32);
    }
    let piece = if g == tail.len() {
        slice_to_vec(tail)
    } else {
        slice_to_vec(slice_subrange(tail, 0, g))
    };
    proof {
        if spec_first_byte(tail@, 32) < 0 {
            assert(piece@ =~= tail@);
        } else {
            assert(piece@ =~= tail@.take(spec_first_byte(tail@, 32)));
        }
    }
    parse_u16(&piece)
}

/// What parsing the backend's remaining output comes to, carrying the
/// status and headers seen so far: each line up to the blank one is either
/// a `Status:` pseudo-header, which must parse and replaces the status, or
/// a `Key: value` header; anything else fails.  The blank line ends the
/// block and the rest is the body; output that ends without a blank line
/// has an empty body.
pub open spec fn spec_parse_cgi(
    s: Seq<u8>,
    code: u16,
    headers: Seq<(Seq<u8>, Seq<u8>)>,
) -> Option<(u16, Seq<(Seq<u8>, Seq<u8>)>, Seq<u8>)>
    decreases s.len(),
{
    if s.len() == 0 {
        Some((code, headers, Seq::empty()))
    } else {
        let nl = spec_first_byte(s, 10);
        let cut = if nl < 0 || nl + 1 > s.len() {
            s.len() as int
        } else {
            nl + 1
        };
        let line = if nl < 0 {
            s
        } else {
            s.take(nl)
        };
        let rest = if nl < 0 {
            Seq::empty()
        } else {
            s.skip(cut)
        };
        let t = spec_trim(line);
        if t.len() == 0 {
            Some((code, headers, rest))
        } else if spec_is_status_line(t) {
            match spec_parse_status(t) {
                Some(c) => spec_parse_cgi(rest, c, headers),
                None => None,
            }
        } else {
            let colon = spec_first_byte(t, 58);
            if colon < 0 {
                None
            } else {
                spec_parse_cgi(
                    rest,
                    code,
                    headers.push((t.take(colon), spec_trim(t.skip(colon + 1)))),
                )
            }
        }
    }
}

/// Parses the backend's raw output: an optional `Status:` pseudo-header
/// and `Key: value` lines up to a blank line, then the body.  A header
/// line without a colon, or an unreadable status, is an error.
pub fn parse_cgi_output(s: &[u8]) -> (r: Result<CgiResponse, RegistryError>)
    ensures
        match r {
            Ok(resp) => spec_parse_cgi(s@, 200, Seq::empty()) == Some(
                (resp.code, resp.headers.deep_view(), resp.body@),
            ),
            Err(e) => {
                &&& spec_parse_cgi(s@, 200, Seq::empty()) is None
                &&& e == RegistryError::Internal
            },
        },
{
    let len = s.len();
    let mut pos: usize = 0;
    let mut code: u16 = 200;
    let mut headers: Vec<(Vec<u8>, Vec<u8>)> = Vec::new();
    proof {
        assert(s@.skip(0) =~= s@);
        assert(headers.deep_view() =~= Seq::<(Seq<u8>, Seq<u8>)>::empty());
    }
    while pos < len
        invariant
            len == s@.len(),
            pos <= len,
            spec_parse_cgi(s@, 200, Seq::empty()) == spec_parse_cgi(
                s@.skip(pos as int),
                code,
                headers.deep_view(),
            ),
        decreases len - pos,
    {
        let ghost suffix = s@.skip(pos as int);
        let tail = slice_subrange(s, pos, len);
        proof {
            assert(tail@ =~= suffix);
        }
        let nl = find_byte(tail, 10);
        let ghost snl = spec_first_byte(suffix, 10);
        let line = slice_subrange(tail, 0, nl);
        let next_pos = if nl == tail.len() {
            len
        } else {
            pos + nl + 1
        };
        let ghost rest = if snl < 0 {
            Seq::<u8>::empty()
        } else {
            suffix.skip(snl + 1)
        };
        proof {
            lemma_first_byte_facts(suffix, 10);
            if snl < 0 {
                assert(line@ =~= suffix);
                assert(s@.skip(next_pos as int) =~= Seq::<u8>::empty());
            } else {
                assert(nl == snl && nl < tail@.len());
                assert(line@ =~= suffix.take(snl));
                assert(s@.skip(next_pos as int) =~= suffix.skip(snl + 1));
            }
            assert(s@.skip(next_pos as int) =~= rest);
        }
        let t = trim_bytes(line);
        if t.len() == 0 {
            let body = slice_to_vec(slice_subrange(s, next_pos, len));
            proof {
                assert(body@ =~= rest);
            }
            return Ok(CgiResponse { code, headers, body });
        }
        if is_status_line(&t) {
            match parse_status(&t) {
                Some(c) => {
                    code = c;
                },
                None => {
                    return Err(RegistryError::Internal);
                },
            }
        } else {
            let colon = find_byte(t.as_slice(), 58);
            proof {
                lemma_first_byte_facts(t@, 58);
            }
            if colon == t.len() {
                return Err(RegistryError::Internal);
            }
            let key = slice_to_vec(slice_subrange(t.as_slice(), 0, colon));
            let value = trim_bytes(slice_subrange(t.as_slice(), colon + 1, t.len()));
            proof {
                assert(key@ =~= t@.take(colon as int));
                assert(t@.skip(colon + 1) =~= slice_subrange_view(t@, colon + 1, t@.len() as int));
            }
            let ghost old_headers = headers.deep_view();
            headers.push((key, value));
            proof {
                assert(headers.deep_view() =~~= old_headers.push(
                    (t@.take(colon as int), spec_trim(t@.skip(colon + 1))),
                ));
            }
        }
        pos = next_pos;
        proof {
            assert(pos <= len);
        }
    }
    proof {
        assert(s@.skip(len as int) =~= Seq::<u8>::empty());
    }
    Ok(CgiResponse { code, headers, body: Vec::new() })
}

/// The subrange of a byte view; a helper for stating slice views.
pub open spec fn slice_subrange_view(s: Seq<u8>, i: int, j: int) -> Seq<u8> {
    s.subrange(i, j)
}

} // verus!
