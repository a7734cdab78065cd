//! The publish wire frame: a little-endian `u32` length, the metadata JSON
//! bytes, another length, and the package bytes.  Whatever follows the
//! second payload is ignored, and a frame that promises more bytes than it
//! carries is refused.

use vstd::bytes::spec_u32_from_le_bytes;
use vstd::bytes::u32_from_le_bytes;
use vstd::prelude::*;
use vstd::slice::slice_subrange;
use vstd::slice::slice_to_vec;

use crate::errors::RegistryError;

verus! {

/// The metadata length the frame's first four bytes promise.
pub open spec fn spec_meta_len(bytes: Seq<u8>) -> int
    recommends
        bytes.len() >= 4,
{
    spec_u32_from_le_bytes(bytes.subrange(0, 4)) as int
}

/// The package length promised by the four bytes after the metadata.
pub open spec fn spec_data_len(bytes: Seq<u8>) -> int
    recommends
        bytes.len() >= 8 + spec_meta_len(bytes),
{
    let ml = spec_meta_len(bytes);
    spec_u32_from_le_bytes(bytes.subrange(4 + ml, 8 + ml)) as int
}

/// Whether the body holds a complete frame: both length words present and
/// both payloads as long as promised.
pub open spec fn spec_frame_wf(bytes: Seq<u8>) -> bool {
    &&& bytes.len() >= 4
    &&& bytes.len() >= 8 + spec_meta_len(bytes)
    &&& bytes.len() >= 8 + spec_meta_len(bytes) + spec_data_len(bytes)
}

/// The metadata JSON bytes of a well-formed frame.
pub open spec fn spec_frame_meta(bytes: Seq<u8>) -> Seq<u8>
    recommends
        spec_frame_wf(bytes),
{
    bytes.subrange(4, 4 + spec_meta_len(bytes))
}

/// The package bytes of a well-formed frame.
pub open spec fn spec_frame_data(bytes: Seq<u8>) -> Seq<u8>
    recommends
        spec_frame_wf(bytes),
{
    let ml = spec_meta_len(bytes);
    bytes.subrange(8 + ml, 8 + ml + spec_data_len(bytes))
}

/// Splits an uploaded publish body into its metadata JSON bytes and its
/// package bytes; a truncated frame is refused.
pub fn create_crate(bytes: &[u8]) -> (r: Result<(Vec<u8>, Vec<u8>), RegistryError>)
    ensures
        match r {
            Ok((meta, data)) => {
                &&& spec_frame_wf(bytes@)
                &&& meta@ == spec_frame_meta(bytes@)
                &&& data@ == spec_frame_data(bytes@)
            },
            Err(e) => {
                &&& e == RegistryError::InvalidRequest
                &&& !spec_frame_wf(bytes@)
            },
        },
{
    let len = bytes.len();
    if len < 4 {
        return Err(RegistryError::InvalidRequest);
    }
    let meta_len_bytes = slice_subrange(bytes, 0, 4);
    let meta_len = u32_from_le_bytes(meta_len_bytes) as usize;
    proof {
        assert(meta_len_bytes@ =~= bytes@.subrange(0, 4));
    }
    if len - 4 < meta_len || (len - 4) - meta_len < 4 {
        return Err(RegistryError::InvalidRequest);
    }
    let data_len_bytes = slice_subrange(bytes, 4 + meta_len, 8 + meta_len);
    let data_len = u32_from_le_bytes(data_len_bytes) as usize;
    proof {
        assert(data_len_bytes@ =~= bytes@.subrange(4 + meta_len, 8 + meta_len));
    }
    if ((len - 8) - meta_len) < data_len {
        return Err(RegistryError::InvalidRequest);
    }
    let meta = slice_to_vec(slice_subrange(bytes, 4, 4 + meta_len));
    let data = slice_to_vec(slice_subrange(bytes, 8 + meta_len, 8 + meta_len + data_len));
    proof {
        assert(meta@ =~= spec_frame_meta(bytes@));
        assert(data@ =~= spec_frame_data(bytes@));
    }
    Ok((meta, data))
}

} // verus!
