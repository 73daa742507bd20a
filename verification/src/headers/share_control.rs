//! Share control PDUs and their header.

use crate::bytes;
use crate::headers::codes::ShareControlPduType;
use crate::headers::cursor;
use crate::headers::error;
use crate::headers::error::{DecodeResult, EncodeResult, Fault, PduError};
use crate::headers::redirection;
use crate::headers::redirection::{RdpServerRedirectionPacket, Redirection};
use crate::headers::share_data;
use crate::headers::share_data::{
    DataHeader, Decoded, InnerPdu, PendingShareData, ShareDataHeader,
};
use ironrdp_core::{read_padding, write_padding, ReadCursor, WriteCursor};
use vstd::prelude::*;

verus! {

/// The version that stands above the type in a share control header.
pub const PROTOCOL_VERSION: u16 = 0x10;

/// The size of a share control header.
pub const SHARE_CONTROL_HEADER_SIZE: usize = 10;

/// The size of a share control header in front of a redirection packet, with its padding.
pub const REDIRECTION_HEADER_SIZE: usize = 8;

/// The server ends the share.
#[derive(Clone, Copy, Debug, PartialEq, Eq, Structural)]
pub struct ServerDeactivateAll;

/// The PDU at the start of `s`: what is left behind it, and how that ends. The source descriptor
/// may be missing.
pub open spec fn deactivate_all(s: Seq<u8>) -> (Seq<u8>, Result<(), Fault>) {
    if s.len() >= 3 {
        let n = bytes::le16(s, 0);
        let t = s.skip(2);
        if t.len() < n {
            (t, Err(error::not_enough(t.len() as int, n)))
        } else {
            (t.skip(n), Ok(()))
        }
    } else {
        (s, Ok(()))
    }
}

/// The PDU on the wire: an empty source descriptor of one byte.
pub open spec fn deactivate_all_encoded() -> Seq<u8> {
    bytes::le16_bytes(1).push(0)
}

impl ServerDeactivateAll {
    pub const FIXED_PART_SIZE: usize = 3;

    /// Reads the PDU.
    pub fn decode(src: &mut ReadCursor<'_>) -> (res: DecodeResult<Self>)
        ensures
            ({
                let (rest, end) = deactivate_all(cursor::unread(*old(src)));
                cursor::unread(*final(src)) == rest && error::ends(res, end)
            }),
    {
        if src.len() >= Self::FIXED_PART_SIZE {
            let length: usize = src.read_u16() as usize;
            let left: usize = src.len();
            if left < length {
                return Err(PduError::NotEnoughBytes { received: left, expected: length });
            }
            if length > 0 {
                let _descriptor = src.read_slice(length);
            }
            assert(length == 0 ==> cursor::unread(*src).skip(0) =~= cursor::unread(*src));
        }
        Ok(ServerDeactivateAll)
    }

    /// Writes the PDU. Where there is no room nothing is written.
    pub fn encode(&self, dst: &mut WriteCursor<'_>) -> (res: EncodeResult<()>)
        ensures
            ({
                let room = cursor::ahead(*old(dst)).len() as int;
                &&& room < 3 ==> {
                    &&& res matches Err(e) && e@ == error::not_enough(room, 3)
                    &&& *final(dst) == *old(dst)
                }
                &&& room >= 3 ==> {
                    &&& res is Ok
                    &&& cursor::written(*final(dst)) == cursor::written(*old(dst))
                        + deactivate_all_encoded()
                    &&& cursor::ahead(*final(dst)) == cursor::ahead(*old(dst)).skip(3)
                }
            }),
    {
        let room: usize = dst.remaining().len();
        if room < Self::FIXED_PART_SIZE {
            return Err(
                PduError::NotEnoughBytes { received: room, expected: Self::FIXED_PART_SIZE },
            );
        }
        dst.write_u16(1);
        dst.write_u8(0);
        assert(cursor::written(*dst) =~= cursor::written(*old(dst)) + deactivate_all_encoded());
        assert(cursor::ahead(*dst) =~= cursor::ahead(*old(dst)).skip(3));
        Ok(())
    }

    /// The name of the PDU.
    pub fn name(&self) -> (r: &'static str)
        ensures
            r@ == "Server Deactivate All"@,
    {
        "Server Deactivate All"
    }

    /// The size of the PDU.
    pub fn size(&self) -> (r: usize)
        ensures
            r == 3,
            r == deactivate_all_encoded().len(),
    {
        Self::FIXED_PART_SIZE
    }
}

/// A share control PDU.
#[derive(Clone, Debug, PartialEq, Eq)]
pub enum ShareControlPdu {
    ServerDemandActive(InnerPdu),
    ClientConfirmActive(InnerPdu),
    Data(ShareDataHeader),
    ServerDeactivateAll(ServerDeactivateAll),
    ServerRedirect(RdpServerRedirectionPacket),
}

/// A share control PDU as a value.
#[verifier::ext_equal]
pub enum ControlPdu {
    ServerDemandActive(Seq<u8>),
    ClientConfirmActive(Seq<u8>),
    Data(DataHeader),
    ServerDeactivateAll,
    ServerRedirect(Redirection),
}

impl View for ShareControlPdu {
    type V = ControlPdu;

    open spec fn view(&self) -> ControlPdu {
        match *self {
            ShareControlPdu::ServerDemandActive(pdu) => ControlPdu::ServerDemandActive(pdu.image@),
            ShareControlPdu::ClientConfirmActive(pdu) => ControlPdu::ClientConfirmActive(
                pdu.image@,
            ),
            ShareControlPdu::Data(header) => ControlPdu::Data(header@),
            ShareControlPdu::ServerDeactivateAll(_) => ControlPdu::ServerDeactivateAll,
            ShareControlPdu::ServerRedirect(packet) => ControlPdu::ServerRedirect(packet@),
        }
    }
}

/// A share control PDU that is still to be decoded.
#[derive(Clone, Copy, Debug, PartialEq, Eq, Structural)]
pub enum PendingControlPdu {
    ServerDemandActive,
    ClientConfirmActive,
    Data(PendingShareData),
}

impl PendingControlPdu {
    /// A data PDU is of a kind that has its own decoder.
    pub open spec fn wf(self) -> bool {
        self matches PendingControlPdu::Data(pending) ==> pending.kind.is_inner()
    }

    /// The PDU with its bytes.
    pub open spec fn with(self, body: Seq<u8>) -> ControlPdu {
        match self {
            PendingControlPdu::ServerDemandActive => ControlPdu::ServerDemandActive(body),
            PendingControlPdu::ClientConfirmActive => ControlPdu::ClientConfirmActive(body),
            PendingControlPdu::Data(pending) => ControlPdu::Data(pending.with(body)),
        }
    }

    /// Joins what is known with the PDU.
    pub fn complete(self, pdu: InnerPdu) -> (r: ShareControlPdu)
        requires
            self.wf(),
        ensures
            r@ == self.with(pdu.image@),
    {
        match self {
            PendingControlPdu::ServerDemandActive => ShareControlPdu::ServerDemandActive(pdu),
            PendingControlPdu::ClientConfirmActive => ShareControlPdu::ClientConfirmActive(pdu),
            PendingControlPdu::Data(pending) => ShareControlPdu::Data(pending.complete(pdu)),
        }
    }
}

/// The PDU of type `t` at the start of `s`: what is left, and the PDU, or what has to be decoded
/// further, or the fault.
pub open spec fn control_pdu(s: Seq<u8>, t: ShareControlPduType) -> (
    Seq<u8>,
    Result<Decoded<ControlPdu, PendingControlPdu>, Fault>,
) {
    match t {
        ShareControlPduType::DemandActivePdu => (
            s,
            Ok(Decoded::Inner(PendingControlPdu::ServerDemandActive)),
        ),
        ShareControlPduType::ConfirmActivePdu => (
            s,
            Ok(Decoded::Inner(PendingControlPdu::ClientConfirmActive)),
        ),
        ShareControlPduType::DataPdu => match share_data::data_header(s) {
            (rest, Err(fault)) => (rest, Err(fault)),
            (rest, Ok(Decoded::Inner(pending))) => (
                rest,
                Ok(Decoded::Inner(PendingControlPdu::Data(pending))),
            ),
            (rest, Ok(Decoded::Complete(header))) => (
                rest,
                Ok(Decoded::Complete(ControlPdu::Data(header))),
            ),
        },
        ShareControlPduType::DeactivateAllPdu => match deactivate_all(s) {
            (rest, Err(fault)) => (rest, Err(fault)),
            (rest, Ok(_)) => (rest, Ok(Decoded::Complete(ControlPdu::ServerDeactivateAll))),
        },
        ShareControlPduType::ServerRedirect => match redirection::redirection(s) {
            (rest, Err(fault)) => (rest, Err(fault)),
            (rest, Ok(packet)) => (
                rest,
                Ok(Decoded::Complete(ControlPdu::ServerRedirect(packet))),
            ),
        },
    }
}

impl ControlPdu {
    /// The type that stands for the PDU on the wire.
    pub open spec fn pdu_type(self) -> ShareControlPduType {
        match self {
            ControlPdu::ServerDemandActive(_) => ShareControlPduType::DemandActivePdu,
            ControlPdu::ClientConfirmActive(_) => ShareControlPduType::ConfirmActivePdu,
            ControlPdu::Data(_) => ShareControlPduType::DataPdu,
            ControlPdu::ServerDeactivateAll => ShareControlPduType::DeactivateAllPdu,
            ControlPdu::ServerRedirect(_) => ShareControlPduType::ServerRedirect,
        }
    }

    /// The name of the PDU.
    pub open spec fn short_name(self) -> Seq<char> {
        match self {
            ControlPdu::ServerDemandActive(_) => "Server Demand Active PDU"@,
            ControlPdu::ClientConfirmActive(_) => "Client Confirm Active PDU"@,
            ControlPdu::Data(_) => "Data PDU"@,
            ControlPdu::ServerDeactivateAll => "Server Deactivate All PDU"@,
            ControlPdu::ServerRedirect(_) => "Server Redirection PDU"@,
        }
    }

    /// The size of the PDU.
    pub open spec fn wire_size(self) -> int {
        match self {
            ControlPdu::ServerDemandActive(body) => body.len() as int,
            ControlPdu::ClientConfirmActive(body) => body.len() as int,
            ControlPdu::Data(header) => header.wire_size(),
            ControlPdu::ServerDeactivateAll => 3,
            ControlPdu::ServerRedirect(packet) => packet.wire_size(),
        }
    }

    /// What is written of the PDU, and how that ends.
    pub open spec fn encoded(self) -> (Seq<u8>, Result<(), Fault>) {
        match self {
            ControlPdu::ServerDemandActive(body) => (body, Ok(())),
            ControlPdu::ClientConfirmActive(body) => (body, Ok(())),
            ControlPdu::Data(header) => header.encoded(),
            ControlPdu::ServerDeactivateAll => (deactivate_all_encoded(), Ok(())),
            ControlPdu::ServerRedirect(packet) => packet.encoded(),
        }
    }
}

/// No more is written of a PDU than its size says.
pub proof fn lemma_control_size(pdu: ControlPdu)
    ensures
        0 <= pdu.encoded().0.len() <= pdu.wire_size(),
{
    if let ControlPdu::ServerRedirect(packet) = pdu {
        redirection::lemma_fields_size(packet.fields, 11);
    }
}

impl ShareControlPdu {
    /// The name of the PDU.
    pub fn as_short_name(&self) -> (r: &'static str)
        ensures
            r@ == self@.short_name(),
    {
        match self {
            ShareControlPdu::ServerDemandActive(_) => "Server Demand Active PDU",
            ShareControlPdu::ClientConfirmActive(_) => "Client Confirm Active PDU",
            ShareControlPdu::Data(_) => "Data PDU",
            ShareControlPdu::ServerDeactivateAll(_) => "Server Deactivate All PDU",
            ShareControlPdu::ServerRedirect(_) => "Server Redirection PDU",
        }
    }

    /// The type of the PDU.
    pub fn share_header_type(&self) -> (r: ShareControlPduType)
        ensures
            r == self@.pdu_type(),
    {
        match self {
            ShareControlPdu::ServerDemandActive(_) => ShareControlPduType::DemandActivePdu,
            ShareControlPdu::ClientConfirmActive(_) => ShareControlPduType::ConfirmActivePdu,
            ShareControlPdu::Data(_) => ShareControlPduType::DataPdu,
            ShareControlPdu::ServerDeactivateAll(_) => ShareControlPduType::DeactivateAllPdu,
            ShareControlPdu::ServerRedirect(_) => ShareControlPduType::ServerRedirect,
        }
    }

    /// Reads a PDU of the given type, or tells what has to be decoded further.
    pub fn from_type(src: &mut ReadCursor<'_>, share_type: ShareControlPduType) -> (res:
        DecodeResult<Decoded<Self, PendingControlPdu>>)
        ensures
            ({
                let (rest, end) = control_pdu(cursor::unread(*old(src)), share_type);
                &&& cursor::unread(*final(src)) == rest
                &&& match end {
                    Ok(Decoded::Complete(pdu)) => res matches Ok(Decoded::Complete(r)) && r@ == pdu,
                    Ok(Decoded::Inner(pending)) => res matches Ok(Decoded::Inner(r)) && r == pending
                        && pending.wf(),
                    Err(fault) => res matches Err(e) && e@ == fault,
                }
            }),
    {
        match share_type {
            ShareControlPduType::DemandActivePdu => Ok(
                Decoded::Inner(PendingControlPdu::ServerDemandActive),
            ),
            ShareControlPduType::ConfirmActivePdu => Ok(
                Decoded::Inner(PendingControlPdu::ClientConfirmActive),
            ),
            ShareControlPduType::DataPdu => match ShareDataHeader::decode(src)? {
                Decoded::Complete(header) => Ok(Decoded::Complete(ShareControlPdu::Data(header))),
                Decoded::Inner(pending) => Ok(Decoded::Inner(PendingControlPdu::Data(pending))),
            },
            ShareControlPduType::DeactivateAllPdu => {
                let pdu = ServerDeactivateAll::decode(src)?;
                Ok(Decoded::Complete(ShareControlPdu::ServerDeactivateAll(pdu)))
            },
            ShareControlPduType::ServerRedirect => {
                let packet = RdpServerRedirectionPacket::decode(src)?;
                Ok(Decoded::Complete(ShareControlPdu::ServerRedirect(packet)))
            },
        }
    }

    /// Writes the PDU. Where there is no room nothing is written.
    pub fn encode(&self, dst: &mut WriteCursor<'_>) -> (res: EncodeResult<()>)
        requires
            self@.wire_size() <= usize::MAX,
        ensures
            ({
                let room = cursor::ahead(*old(dst)).len() as int;
                let (image, end) = self@.encoded();
                &&& room < self@.wire_size() ==> {
                    &&& res matches Err(e) && e@ == error::not_enough(room, self@.wire_size())
                    &&& *final(dst) == *old(dst)
                }
                &&& room >= self@.wire_size() ==> {
                    &&& error::ends(res, end)
                    &&& cursor::written(*final(dst)) == cursor::written(*old(dst)) + image
                    &&& cursor::ahead(*final(dst)) == cursor::ahead(*old(dst)).skip(
                        image.len() as int,
                    )
                }
            }),
    {
        match self {
            ShareControlPdu::ServerDemandActive(pdu) => pdu.encode(dst),
            ShareControlPdu::ClientConfirmActive(pdu) => pdu.encode(dst),
            ShareControlPdu::Data(header) => header.encode(dst),
            ShareControlPdu::ServerDeactivateAll(pdu) => pdu.encode(dst),
            ShareControlPdu::ServerRedirect(packet) => packet.encode(dst),
        }
    }

    /// The name of share control PDUs.
    pub fn name(&self) -> (r: &'static str)
        ensures
            r@ == "ShareControlPdu"@,
    {
        "ShareControlPdu"
    }

    /// The size of the PDU.
    pub fn size(&self) -> (r: usize)
        requires
            self@.wire_size() <= usize::MAX,
        ensures
            r == self@.wire_size(),
    {
        match self {
            ShareControlPdu::ServerDemandActive(pdu) => pdu.image.len(),
            ShareControlPdu::ClientConfirmActive(pdu) => pdu.image.len(),
            ShareControlPdu::Data(header) => header.size(),
            ShareControlPdu::ServerDeactivateAll(pdu) => pdu.size(),
            ShareControlPdu::ServerRedirect(packet) => packet.size(),
        }
    }
}

/// A share control PDU with its header.
#[derive(Clone, Debug, PartialEq, Eq)]
pub struct ShareControlHeader {
    pub share_control_pdu: ShareControlPdu,
    pub pdu_source: u16,
    pub share_id: u32,
}

/// A share control PDU with its header, as a value.
#[verifier::ext_equal]
pub struct ControlHeader {
    pub pdu: ControlPdu,
    pub pdu_source: u16,
    pub share_id: u32,
}

impl View for ShareControlHeader {
    type V = ControlHeader;

    open spec fn view(&self) -> ControlHeader {
        ControlHeader {
            pdu: self.share_control_pdu@,
            pdu_source: self.pdu_source,
            share_id: self.share_id,
        }
    }
}

/// The header of a share control PDU that is still to be decoded.
#[derive(Clone, Copy, Debug, PartialEq, Eq, Structural)]
pub struct PendingShareControl {
    pub pdu: PendingControlPdu,
    pub total_length: u16,
    pub pdu_source: u16,
    pub share_id: u32,
}

/// The end of a header whose PDU has been read: what is left of `s`, and the header or the fault.
/// Behind a data PDU there can be padding, up to the length that the header gave.
pub open spec fn past_padding(s: Seq<u8>, header: ControlHeader, total_length: int) -> (
    Seq<u8>,
    Result<ControlHeader, Fault>,
) {
    let size = header.wire_size();
    if header.pdu is Data && size != total_length {
        if total_length < size {
            (s, Err(error::not_enough(total_length, size)))
        } else if s.len() < total_length - size {
            (s, Err(error::not_enough(s.len() as int, total_length - size)))
        } else {
            (s.skip(total_length - size), Ok(header))
        }
    } else {
        (s, Ok(header))
    }
}

/// The header at the start of `s`: what is left, and the header with its PDU, or the header whose
/// PDU has to be decoded further, or the fault. A redirection packet comes without a share id.
pub open spec fn control_header(s: Seq<u8>) -> (
    Seq<u8>,
    Result<Decoded<ControlHeader, PendingShareControl>, Fault>,
) {
    if s.len() < 10 {
        (s, Err(error::not_enough(s.len() as int, 10)))
    } else {
        let total_length = bytes::le16(s, 0);
        let type_and_version = bytes::le16(s, 2);
        let pdu_source = bytes::le16(s, 4) as u16;
        match ShareControlPduType::of((type_and_version % 16) as u16) {
            None => (
                s.skip(6),
                Err(share_data::invalid_field("pdu_type"@, "invalid pdu type"@)),
            ),
            Some(t) => if type_and_version / 16 != 1 {
                (
                    s.skip(6),
                    Err(share_data::invalid_field("pdu_version"@, "invalid PDU version"@)),
                )
            } else {
                let redirected = t == ShareControlPduType::ServerRedirect;
                let share_id = if redirected {
                    0
                } else {
                    bytes::le32(s, 6) as u32
                };
                let body = if redirected {
                    s.skip(8)
                } else {
                    s.skip(10)
                };
                match control_pdu(body, t) {
                    (rest, Err(fault)) => (rest, Err(fault)),
                    (rest, Ok(Decoded::Inner(pdu))) => (
                        rest,
                        Ok(
                            Decoded::Inner(
                                PendingShareControl {
                                    pdu,
                                    total_length: total_length as u16,
                                    pdu_source,
                                    share_id,
                                },
                            ),
                        ),
                    ),
                    (rest, Ok(Decoded::Complete(pdu))) => {
                        let header = ControlHeader { pdu, pdu_source, share_id };
                        match past_padding(rest, header, total_length) {
                            (rest, Err(fault)) => (rest, Err(fault)),
                            (rest, Ok(header)) => (rest, Ok(Decoded::Complete(header))),
                        }
                    },
                }
            },
        }
    }
}

impl ControlHeader {
    /// The size of the header alone. A redirection packet comes without a share id: there are two
    /// bytes of padding in its place.
    pub open spec fn fixed_size(self) -> int {
        if self.pdu is ServerRedirect {
            8
        } else {
            10
        }
    }

    /// What stands between the source and the PDU.
    pub open spec fn share_id_bytes(self) -> Seq<u8> {
        if self.pdu is ServerRedirect {
            cursor::zeros(2)
        } else {
            bytes::le32_bytes(self.share_id)
        }
    }

    /// The size of the header with its PDU.
    pub open spec fn wire_size(self) -> int {
        self.fixed_size() + self.pdu.wire_size()
    }

    /// What is written, and how that ends. The size does not fit its field where it needs more
    /// than 16 bits.
    pub open spec fn encoded(self) -> (Seq<u8>, Result<(), Fault>) {
        if self.wire_size() > 0xFFFF {
            (Seq::empty(), Err(share_data::invalid_field("len"@, "too many elements"@)))
        } else {
            let (image, end) = self.pdu.encoded();
            (
                bytes::le16_bytes(self.wire_size() as u16) + bytes::le16_bytes(
                    (PROTOCOL_VERSION + self.pdu.pdu_type().code()) as u16,
                ) + bytes::le16_bytes(self.pdu_source) + self.share_id_bytes() + image,
                end,
            )
        }
    }
}

impl PendingShareControl {
    /// The header with the bytes of its PDU.
    pub open spec fn with(self, body: Seq<u8>) -> ControlHeader {
        ControlHeader {
            pdu: self.pdu.with(body),
            pdu_source: self.pdu_source,
            share_id: self.share_id,
        }
    }

    /// Joins the header with its PDU, once the PDU's decoder has taken the PDU from `src`, and
    /// takes the padding behind it. The decoder's error is passed on.
    pub fn complete(self, src: &mut ReadCursor<'_>, pdu: DecodeResult<InnerPdu>) -> (res:
        DecodeResult<ShareControlHeader>)
        requires
            self.pdu.wf(),
            pdu matches Ok(inner) ==> self.with(inner.image@).wire_size() <= usize::MAX,
        ensures
            match pdu {
                Err(error) => {
                    &&& res == Err::<ShareControlHeader, PduError>(error)
                    &&& *final(src) == *old(src)
                },
                Ok(inner) => {
                    let (rest, end) = past_padding(
                        cursor::unread(*old(src)),
                        self.with(inner.image@),
                        self.total_length as int,
                    );
                    &&& cursor::unread(*final(src)) == rest
                    &&& match end {
                        Ok(header) => res matches Ok(r) && r@ == header,
                        Err(fault) => res matches Err(e) && e@ == fault,
                    }
                },
            },
    {
        let pdu: InnerPdu = pdu?;
        let header = ShareControlHeader {
            share_control_pdu: self.pdu.complete(pdu),
            pdu_source: self.pdu_source,
            share_id: self.share_id,
        };
        header.take_padding(src, self.total_length as usize)?;
        Ok(header)
    }
}

impl ShareControlHeader {
    pub const FIXED_PART_SIZE: usize = SHARE_CONTROL_HEADER_SIZE;

    /// Writes the header and its PDU. Where there is no room nothing is written.
    pub fn encode(&self, dst: &mut WriteCursor<'_>) -> (res: EncodeResult<()>)
        requires
            self@.wire_size() <= usize::MAX,
        ensures
            ({
                let room = cursor::ahead(*old(dst)).len() as int;
                let (image, end) = self@.encoded();
                &&& room < self@.wire_size() ==> {
                    &&& res matches Err(e) && e@ == error::not_enough(room, self@.wire_size())
                    &&& *final(dst) == *old(dst)
                }
                &&& room >= self@.wire_size() ==> {
                    &&& error::ends(res, end)
                    &&& cursor::written(*final(dst)) == cursor::written(*old(dst)) + image
                    &&& cursor::ahead(*final(dst)) == cursor::ahead(*old(dst)).skip(
                        image.len() as int,
                    )
                }
            }),
    {
        let size: usize = self.size();
        let room: usize = dst.remaining().len();
        if room < size {
            return Err(PduError::NotEnoughBytes { received: room, expected: size });
        }
        let pdu_type_with_version: u16 = PROTOCOL_VERSION
            + self.share_control_pdu.share_header_type().as_u16();
        if size > 0xFFFF {
            assert(cursor::written(*dst) + Seq::<u8>::empty() =~= cursor::written(*dst));
            assert(cursor::ahead(*dst).skip(0) =~= cursor::ahead(*dst));
            return Err(PduError::InvalidField { field: "len", reason: "too many elements" });
        }
        proof {
            lemma_control_size(self@.pdu);
        }
        dst.write_u16(size as u16);
        dst.write_u16(pdu_type_with_version);
        dst.write_u16(self.pdu_source);
        if let ShareControlPdu::ServerRedirect(_) = &self.share_control_pdu {
            write_padding(dst, 2);
        } else {
            dst.write_u32(self.share_id);
        }
        let ghost fixed = bytes::le16_bytes(size as u16) + bytes::le16_bytes(pdu_type_with_version)
            + bytes::le16_bytes(self.pdu_source) + self@.share_id_bytes();
        assert(cursor::written(*dst) =~= cursor::written(*old(dst)) + fixed);
        assert(cursor::ahead(*dst) =~= cursor::ahead(*old(dst)).skip(self@.fixed_size()));
        let res = self.share_control_pdu.encode(dst);
        assert(cursor::written(*dst) =~= cursor::written(*old(dst)) + self@.encoded().0);
        assert(cursor::ahead(*dst) =~= cursor::ahead(*old(dst)).skip(
            self@.encoded().0.len() as int,
        ));
        res
    }

    /// The name of the header.
    pub fn name(&self) -> (r: &'static str)
        ensures
            r@ == "ShareControlHeader"@,
    {
        "ShareControlHeader"
    }

    /// The size of the header with its PDU.
    pub fn size(&self) -> (r: usize)
        requires
            self@.wire_size() <= usize::MAX,
        ensures
            r == self@.wire_size(),
    {
        if let ShareControlPdu::ServerRedirect(packet) = &self.share_control_pdu {
            REDIRECTION_HEADER_SIZE + packet.size()
        } else {
            Self::FIXED_PART_SIZE + self.share_control_pdu.size()
        }
    }

    /// Takes the padding behind a data PDU.
    fn take_padding(&self, src: &mut ReadCursor<'_>, total_length: usize) -> (res: DecodeResult<()>)
        requires
            self@.wire_size() <= usize::MAX,
        ensures
            ({
                let (rest, end) = past_padding(
                    cursor::unread(*old(src)),
                    self@,
                    total_length as int,
                );
                &&& cursor::unread(*final(src)) == rest
                &&& match end {
                    Ok(_) => res is Ok,
                    Err(fault) => res matches Err(e) && e@ == fault,
                }
            }),
    {
        if let ShareControlPdu::Data(_) = &self.share_control_pdu {
            let header_length: usize = self.size();
            if header_length != total_length {
                if total_length < header_length {
                    return Err(
                        PduError::NotEnoughBytes {
                            received: total_length,
                            expected: header_length,
                        },
                    );
                }
                let padding: usize = total_length - header_length;
                let left: usize = src.len();
                if left < padding {
                    return Err(PduError::NotEnoughBytes { received: left, expected: padding });
                }
                read_padding(src, padding);
            }
        }
        Ok(())
    }

    /// Reads a header and its PDU, or the header of a PDU that has to be decoded further.
    pub fn decode(src: &mut ReadCursor<'_>) -> (res: DecodeResult<
        Decoded<Self, PendingShareControl>,
    >)
        ensures
            ({
                let (rest, end) = control_header(cursor::unread(*old(src)));
                &&& cursor::unread(*final(src)) == rest
                &&& match end {
                    Ok(Decoded::Complete(header)) => res matches Ok(Decoded::Complete(r)) && r@
                        == header,
                    Ok(Decoded::Inner(pending)) => res matches Ok(Decoded::Inner(r)) && r == pending
                        && pending.pdu.wf(),
                    Err(fault) => res matches Err(e) && e@ == fault,
                }
            }),
    {
        let ghost s = cursor::unread(*src);
        let left: usize = src.len();
        if left < Self::FIXED_PART_SIZE {
            return Err(
                PduError::NotEnoughBytes { received: left, expected: Self::FIXED_PART_SIZE },
            );
        }
        let total_length: u16 = src.read_u16();
        let type_and_version: u16 = src.read_u16();
        let pdu_source: u16 = src.read_u16();
        assert(cursor::unread(*src) =~= s.skip(6));
        let pdu_type = match ShareControlPduType::from_u16(type_and_version % 16) {
            Some(pdu_type) => pdu_type,
            None => {
                return Err(
                    PduError::InvalidField { field: "pdu_type", reason: "invalid pdu type" },
                );
            },
        };
        if type_and_version - type_and_version % 16 != PROTOCOL_VERSION {
            return Err(
                PduError::InvalidField { field: "pdu_version", reason: "invalid PDU version" },
            );
        }
        let share_id: u32 = if pdu_type == ShareControlPduType::ServerRedirect {
            read_padding(src, 2);
            assert(cursor::unread(*src) =~= s.skip(8));
            0
        } else {
            let share_id: u32 = src.read_u32();
            assert(cursor::unread(*src) =~= s.skip(10));
            share_id
        };
        match ShareControlPdu::from_type(src, pdu_type)? {
            Decoded::Inner(pdu) => Ok(
                Decoded::Inner(PendingShareControl { pdu, total_length, pdu_source, share_id }),
            ),
            Decoded::Complete(share_control_pdu) => {
                let header = ShareControlHeader { share_control_pdu, pdu_source, share_id };
                if let ShareControlPdu::Data(_) = &header.share_control_pdu {
                    header.take_padding(src, total_length as usize)?;
                }
                Ok(Decoded::Complete(header))
            },
        }
    }
}

} // verus!
