//! Digests of artifact bytes and of credentials, and their lowercase hex
//! form.  The digests themselves come from outside crates; the hex encoding
//! is verified here.

use sha2::Digest;
use vstd::prelude::*;

verus! {

/// What SHA-256 returns on the given bytes.  The value is fixed by the input
/// alone.
pub uninterp spec fn sha256_of(data: Seq<u8>) -> Seq<u8>;

/// What MD5 returns on the given bytes.  The value is fixed by the input
/// alone.
pub uninterp spec fn md5_of(data: Seq<u8>) -> Seq<u8>;

/// Relies on sha2's `Sha256::digest`: the full SHA-256 digest of the input,
/// 32 bytes long.
#[verifier::external_body]
fn sha256_digest(data: &[u8]) -> (r: Vec<u8>)
    ensures
        r@ == sha256_of(data@),
        r@.len() == 32,
{
    sha2::Sha256::digest(data).to_vec()
}

/// Relies on the md5 crate's `compute`: the full MD5 digest of the input,
/// 16 bytes long.
#[verifier::external_body]
fn md5_digest(data: &[u8]) -> (r: Vec<u8>)
    ensures
        r@ == md5_of(data@),
        r@.len() == 16,
{
    md5::compute(data).0.to_vec()
}

/// Relies on `String::push`: appends the given char to the end of the string.
#[verifier::external_body]
pub fn push_char(s: &mut String, c: char)
    ensures
        final(s)@ == old(s)@.push(c),
{
    s.push(c);
}

/// The lowercase hex digit for a value below 16.
pub open spec fn spec_hex_char(n: u8) -> char
    recommends
        n < 16,
{
    if n == 0 {
        '0'
    } else if n == 1 {
        '1'
    } else if n == 2 {
        '2'
    } else if n == 3 {
        '3'
    } else if n == 4 {
        '4'
    } else if n == 5 {
        '5'
    } else if n == 6 {
        '6'
    } else if n == 7 {
        '7'
    } else if n == 8 {
        '8'
    } else if n == 9 {
        '9'
    } else if n == 10 {
        'a'
    } else if n == 11 {
        'b'
    } else if n == 12 {
        'c'
    } else if n == 13 {
        'd'
    } else if n == 14 {
        'e'
    } else {
        'f'
    }
}

/// The lowercase hex encoding of a byte sequence: two digits per byte, high
/// nibble first.
pub open spec fn spec_hex_of(data: Seq<u8>) -> Seq<char> {
    Seq::new(data.len() * 2, |i: int|
        if i % 2 == 0 {
            spec_hex_char(data[i / 2] / 16)
        } else {
            spec_hex_char(data[i / 2] % 16)
        }
    )
}

/// The lowercase hex form of the SHA-256 digest: this is the `cksum` of a
/// package's bytes.
pub open spec fn spec_sha256_hex(data: Seq<u8>) -> Seq<char> {
    spec_hex_of(sha256_of(data))
}

/// The lowercase hex form of the MD5 digest, as stored for passwords.
pub open spec fn spec_md5_hex(data: Seq<u8>) -> Seq<char> {
    spec_hex_of(md5_of(data))
}

pub fn hex_char(n: u8) -> (c: char)
    requires
        n < 16,
    ensures
        c == spec_hex_char(n),
{
    match n {
        0 => '0',
        1 => '1',
        2 => '2',
        3 => '3',
        4 => '4',
        5 => '5',
        6 => '6',
        7 => '7',
        8 => '8',
        9 => '9',
        10 => 'a',
        11 => 'b',
        12 => 'c',
        13 => 'd',
        14 => 'e',
        _ => 'f',
    }
}

/// Encodes bytes as lowercase hex, two digits per byte.
pub fn to_hex(data: &Vec<u8>) -> (r: String)
    requires
        data@.len() * 2 <= usize::MAX,
    ensures
        r@ == spec_hex_of(data@),
{
    let mut r = String::new();
    let len = data.len();
    for i in 0..len
        invariant
            len == data@.len(),
            len * 2 <= usize::MAX,
            r@.len() == i * 2,
            forall|j: int| 0 <= j < r@.len() ==> r@[j] == spec_hex_of(data@)[j],
    {
        let hi = data[i] / 16;
        let lo = data[i] % 16;
        push_char(&mut r, hex_char(hi));
        push_char(&mut r, hex_char(lo));
    }
    proof {
        assert(r@ =~= spec_hex_of(data@));
    }
    r
}

/// The lowercase hex SHA-256 of the input: the checksum recorded for every
/// artifact.
pub fn sha256_hex(data: &[u8]) -> (r: String)
    ensures
        r@ == spec_sha256_hex(data@),
{
    let digest = sha256_digest(data);
    to_hex(&digest)
}

/// The lowercase hex MD5 of the input.
pub fn md5_hex(data: &[u8]) -> (r: String)
    ensures
        r@ == spec_md5_hex(data@),
{
    let digest = md5_digest(data);
    to_hex(&digest)
}

} // verus!
