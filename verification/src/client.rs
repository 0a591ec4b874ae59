//! The transport client's envelope preparation.
//!
//! Sending a file means writing one envelope, then streaming exactly the
//! file's bytes. The functions here derive the artifact's name from its path
//! and build the envelope bytes; the surrounding program owns the connection,
//! checks that the path names a regular file, measures it, and streams it.

use vstd::prelude::*;

use crate::datetime::{dt_joined, DateTime};
use crate::errors::TransferError;
use crate::file_info::{envelope_bytes, FileInfo, FileInfoView, FILE_TAG};
use crate::text::{split_on, split_on_char};

verus! {

use vstd::utf8::encode_utf8;

/// The artifact name a source path yields: its final `/`-separated segment.
pub fn artifact_name_from_path(file_path: &str) -> (r: String)
    ensures
        r@ == split_on(file_path@, '/').last(),
{
    let segs = split_on_char(file_path, '/');
    proof {
        crate::text::lemma_split_on_len(file_path@, '/');
    }
    segs[segs.len() - 1].clone()
}

/// The envelope that announces a file of `file_len` bytes at `file_path`,
/// captured at `datetime`.
///
/// Fails with `InvalidInput` exactly where the derived name or the encoded
/// timestamp overflows its length field; otherwise the bytes are the exact
/// wire form, after which the file's raw bytes follow unframed.
pub fn file_header(file_len: u64, file_path: &str, datetime: DateTime) -> (r: Result<
    Vec<u8>,
    TransferError,
>)
    ensures
        ({
            let name = split_on(file_path@, '/').last();
            &&& (r is Ok <==> encode_utf8(name).len() <= u16::MAX && encode_utf8(
                dt_joined(datetime@),
            ).len() <= u32::MAX)
            &&& (r is Ok ==> r->Ok_0@ == envelope_bytes(
                FileInfoView {
                    _type: FILE_TAG,
                    f_len: file_len,
                    fn_len: encode_utf8(name).len() as u16,
                    filename: name,
                    dt_len: encode_utf8(dt_joined(datetime@)).len() as u32,
                    datetime: datetime@,
                },
            ))
            &&& (r is Err ==> r->Err_0 == TransferError::InvalidInput)
        }),
{
    let name = artifact_name_from_path(file_path);
    let name_byte_count = name.as_str().as_bytes_vec().len();
    if name_byte_count > 65535 {
        return Err(TransferError::InvalidInput);
    }
    let dt_byte_count = datetime.encode().len();
    if dt_byte_count > u32::MAX as usize {
        return Err(TransferError::InvalidInput);
    }
    let fi = FileInfo::new(file_len, name, datetime);
    Ok(fi.encode())
}

} // verus!
