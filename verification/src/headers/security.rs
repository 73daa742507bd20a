//! The basic security header.

use crate::bytes;
use crate::headers::codes::BasicSecurityHeaderFlags;
use crate::headers::cursor;
use crate::headers::error;
use crate::headers::error::{DecodeResult, EncodeResult, Fault, PduError};
use ironrdp_core::{ReadCursor, WriteCursor};
use vstd::prelude::*;

verus! {

/// The size of a basic security header.
pub const BASIC_SECURITY_HEADER_SIZE: usize = 4;

/// The header of a PDU that is not sent over an encrypted channel.
#[derive(Clone, Copy, Debug, PartialEq, Eq, Structural)]
pub struct BasicSecurityHeader {
    pub flags: BasicSecurityHeaderFlags,
}

/// The header at the start of `s`: what is left behind it, and the header or the fault.
pub open spec fn security_header(s: Seq<u8>) -> (Seq<u8>, Result<BasicSecurityHeader, Fault>) {
    if s.len() < 4 {
        (s, Err(error::not_enough(s.len() as int, 4)))
    } else {
        let flags = BasicSecurityHeaderFlags { bits: bytes::le16(s, 0) as u16 };
        (s.skip(4), Ok(BasicSecurityHeader { flags }))
    }
}

impl BasicSecurityHeader {
    pub const FIXED_PART_SIZE: usize = BASIC_SECURITY_HEADER_SIZE;

    /// The header on the wire. The upper half of the flags is not used.
    pub open spec fn encoded(self) -> Seq<u8> {
        bytes::le16_bytes(self.flags.bits) + bytes::le16_bytes(0)
    }

    /// Writes the header. Where there is no room nothing is written.
    pub fn encode(&self, dst: &mut WriteCursor<'_>) -> (res: EncodeResult<()>)
        ensures
            ({
                let fits = cursor::ahead(*old(dst)).len() >= 4;
                &&& fits ==> {
                    &&& res is Ok
                    &&& cursor::written(*final(dst)) == cursor::written(*old(dst))
                        + self.encoded()
                    &&& cursor::ahead(*final(dst)) == cursor::ahead(*old(dst)).skip(4)
                }
                &&& !fits ==> {
                    &&& res matches Err(e) && e@ == error::not_enough(
                        cursor::ahead(*old(dst)).len() as int,
                        4,
                    )
                    &&& *final(dst) == *old(dst)
                }
            }),
    {
        let room: usize = dst.remaining().len();
        if room < Self::FIXED_PART_SIZE {
            return Err(
                PduError::NotEnoughBytes { received: room, expected: Self::FIXED_PART_SIZE },
            );
        }
        dst.write_u16(self.flags.bits());
        dst.write_u16(0);
        assert(cursor::written(*dst) =~= cursor::written(*old(dst)) + self.encoded());
        assert(cursor::ahead(*dst) =~= cursor::ahead(*old(dst)).skip(4));
        Ok(())
    }

    /// The name of the header.
    pub fn name(&self) -> (r: &'static str)
        ensures
            r@ == "BasicSecurityHeader"@,
    {
        "BasicSecurityHeader"
    }

    /// The size of the header.
    pub fn size(&self) -> (r: usize)
        ensures
            r == self.encoded().len(),
            r == 4,
    {
        Self::FIXED_PART_SIZE
    }

    /// Reads a header.
    pub fn decode(src: &mut ReadCursor<'_>) -> (res: DecodeResult<Self>)
        ensures
            ({
                let (rest, end) = security_header(cursor::unread(*old(src)));
                &&& cursor::unread(*final(src)) == rest
                &&& match end {
                    Ok(header) => res == Ok::<Self, PduError>(header),
                    Err(fault) => res matches Err(e) && e@ == fault,
                }
            }),
    {
        let left: usize = src.len();
        if left < Self::FIXED_PART_SIZE {
            return Err(
                PduError::NotEnoughBytes { received: left, expected: Self::FIXED_PART_SIZE },
            );
        }
        let bits: u16 = src.read_u16();
        let flags = match BasicSecurityHeaderFlags::from_bits(bits) {
            Some(flags) => flags,
            None => {
                return Err(
                    PduError::InvalidField {
                        field: "securityHeader",
                        reason: "invalid basic security header",
                    },
                );
            },
        };
        let _flags_hi: u16 = src.read_u16();
        assert(cursor::unread(*src) =~= cursor::unread(*old(src)).skip(4));
        Ok(BasicSecurityHeader { flags })
    }
}

/// A header that was written is read back, and what follows it is left.
pub proof fn law_security_header_is_read_back(header: BasicSecurityHeader, rest: Seq<u8>)
    ensures
        security_header(header.encoded() + rest) == (
            rest,
            Ok::<BasicSecurityHeader, Fault>(header),
        ),
{
    assert((header.encoded() + rest).skip(4) =~= rest);
}

} // verus!
