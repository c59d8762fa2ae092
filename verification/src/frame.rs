//! Framing of requests: a big-endian `u32` length, then that many bytes of body.
//! Zero announces a request without body.
use vstd::prelude::*;
use byteorder::ByteOrder;
use crate::error::DbErr;

verus! {

/// The number that four bytes stand for, most significant byte first.
pub open spec fn be_u32(b: Seq<u8>) -> int {
    b[0] * 0x1000000 + b[1] * 0x10000 + b[2] * 0x100 + b[3]
}

/// `byteorder::BigEndian::read_u32`: the first four bytes of `buf`, read as a
/// big-endian number. It panics when `buf` is shorter, which `requires` rules out.
#[verifier::external_body]
fn read_u32_be(buf: &[u8]) -> (r: u32)
    requires
        buf@.len() >= 4,
    ensures
        r == be_u32(buf@),
{
    byteorder::BigEndian::read_u32(buf)
}

/// The announced length of a request body, from the frame's first four bytes.
pub fn request_body_size(header: &[u8]) -> (r: Result<u32, DbErr>)
    ensures
        match r {
            Ok(n) => header@.len() >= 4 && n == be_u32(header@),
            Err(e) => header@.len() < 4 && e is UnexpectedEof,
        },
{
    if header.len() < 4 {
        return Err(DbErr::UnexpectedEof);
    }
    Ok(read_u32_be(header))
}

} // verus!
