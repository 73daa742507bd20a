//! What holds of the headers as a whole.

use crate::bytes;
use crate::headers::codes::{CompressionFlags, RedirectionFlags, ShareControlPduType};
use crate::headers::cursor;
use crate::headers::error::Fault;
use crate::headers::redirection;
use crate::headers::redirection::{Redirection, SEC_REDIRECTION_PKT_MARKER};
use crate::headers::share_control;
use crate::headers::share_control::{
    ControlHeader, ControlPdu, PendingControlPdu, PendingShareControl, PROTOCOL_VERSION,
};
use crate::headers::share_data;
use crate::headers::share_data::{DataHeader, Decoded, PendingShareData, ShareDataPduKind};
use vstd::prelude::*;

verus! {

/// The fields from the `k`-th on, on the wire.
spec fn encoded_tail(fields: Seq<Option<Seq<u8>>>, k: int) -> Seq<u8>
    decreases 11 - k,
{
    if k >= 11 {
        Seq::empty()
    } else {
        redirection::encoded_field(fields[k]) + encoded_tail(fields, k + 1)
    }
}

proof fn lemma_tail(fields: Seq<Option<Seq<u8>>>, k: int)
    requires
        0 <= k <= 11,
    ensures
        redirection::encoded_fields(fields, k) + encoded_tail(fields, k)
            == redirection::encoded_fields(fields, 11),
    decreases 11 - k,
{
    if k < 11 {
        lemma_tail(fields, k + 1);
        assert(redirection::encoded_fields(fields, k) + encoded_tail(fields, k) =~= (
        redirection::encoded_fields(fields, k) + redirection::encoded_field(fields[k]))
            + encoded_tail(fields, k + 1));
    } else {
        assert(redirection::encoded_fields(fields, 11) + Seq::<u8>::empty()
            =~= redirection::encoded_fields(fields, 11));
    }
}

proof fn lemma_fields_read_back(
    fields: Seq<Option<Seq<u8>>>,
    flags: RedirectionFlags,
    k: int,
    rest: Seq<u8>,
)
    requires
        0 <= k <= 11,
        fields.len() == 11,
        forall|k: int|
            0 <= k < 11 ==> (#[trigger] fields[k] is Some <==> flags.has(
                redirection::field_flag(k),
            )),
        redirection::fields_size(fields, 11) <= 0xFFFF,
    ensures
        redirection::optional_fields(encoded_tail(fields, k) + rest, flags, k, fields.take(k)) == (
            rest,
            Ok::<Seq<Option<Seq<u8>>>, Fault>(fields),
        ),
    decreases 11 - k,
{
    let s = encoded_tail(fields, k) + rest;
    if k == 11 {
        assert(s =~= rest);
        assert(fields.take(11) =~= fields);
    } else {
        lemma_fields_read_back(fields, flags, k + 1, rest);
        assert(fields.take(k + 1) =~= fields.take(k).push(fields[k]));
        let behind = encoded_tail(fields, k + 1) + rest;
        match fields[k] {
            None => {
                assert(s =~= behind);
            },
            Some(field) => {
                redirection::lemma_fields_size(fields, k);
                redirection::lemma_fields_size_grows(fields, k + 1, 11);
                assert(s.subrange(0, 4) =~= bytes::le32_bytes(field.len() as u32));
                bytes::lemma_le32_read_back(field.len() as u32, s, 0);
                assert(s.skip(4).take(field.len() as int) =~= field);
                assert(s.skip(4).skip(field.len() as int) =~= behind);
            },
        }
    }
}

/// A redirection packet that was written is read back, and what follows it is left. Its flags must
/// tell which fields it has.
pub proof fn law_redirection_is_read_back(packet: Redirection, rest: Seq<u8>)
    requires
        packet.flags_tell_fields(),
        packet.encoded().1 is Ok,
    ensures
        redirection::redirection(packet.encoded().0 + rest) == (
            rest,
            Ok::<Redirection, Fault>(packet),
        ),
{
    let s = packet.encoded().0 + rest;
    redirection::lemma_fields_size(packet.fields, 11);
    assert(s.subrange(0, 2) =~= bytes::le16_bytes(SEC_REDIRECTION_PKT_MARKER));
    bytes::lemma_le16_read_back(SEC_REDIRECTION_PKT_MARKER, s, 0);
    assert(s.subrange(4, 8) =~= bytes::le32_bytes(packet.session_id));
    bytes::lemma_le32_read_back(packet.session_id, s, 4);
    assert(s.subrange(8, 12) =~= bytes::le32_bytes(packet.flags.bits));
    bytes::lemma_le32_read_back(packet.flags.bits, s, 8);
    lemma_tail(packet.fields, 0);
    assert(redirection::encoded_fields(packet.fields, 0) + encoded_tail(packet.fields, 0)
        =~= encoded_tail(packet.fields, 0));
    assert(s.skip(12) =~= encoded_tail(packet.fields, 0) + rest);
    lemma_fields_read_back(packet.fields, packet.flags, 0, rest);
    assert(packet.fields.take(0) =~= Seq::empty());
}

/// A PDU for the end of the share that was written is read back, and what follows it is left.
pub proof fn law_deactivate_all_is_read_back(rest: Seq<u8>)
    ensures
        share_control::deactivate_all(share_control::deactivate_all_encoded() + rest) == (
            rest,
            Ok::<(), Fault>(()),
        ),
{
    let s = share_control::deactivate_all_encoded() + rest;
    assert(s.skip(2).skip(1) =~= rest);
}

/// A source descriptor that is missing altogether is accepted.
pub proof fn law_short_deactivate_all_is_accepted(s: Seq<u8>)
    requires
        s.len() < 3,
    ensures
        share_control::deactivate_all(s) == (s, Ok::<(), Fault>(())),
{
}

/// What reading a data header that was written leads to: the header itself where the PDU has no
/// decoder of its own, and else the header without the PDU, with the PDU next in line.
pub open spec fn data_header_read_back(h: DataHeader, rest: Seq<u8>) -> (
    Seq<u8>,
    Result<Decoded<DataHeader, PendingShareData>, Fault>,
) {
    if h.pdu.kind.is_bare() {
        (rest, Ok(Decoded::Complete(h)))
    } else {
        (
            h.pdu.body + rest,
            Ok(
                Decoded::Inner(
                    PendingShareData {
                        kind: h.pdu.kind,
                        stream_priority: h.stream_priority,
                        compression_flags: h.compression_flags,
                        compression_type: h.compression_type,
                    },
                ),
            ),
        )
    }
}

/// A data header that was written is read back.
pub proof fn law_data_header_is_read_back(h: DataHeader, rest: Seq<u8>)
    requires
        h.pdu.wf(),
        h.encoded().1 is Ok,
    ensures
        share_data::data_header(h.encoded().0 + rest) == data_header_read_back(h, rest),
{
    let s = h.encoded().0 + rest;
    let kind = h.pdu.kind;
    assert(s[1] == h.stream_priority.code());
    assert(s[4] == kind.pdu_type().code());
    assert(s[5] == h.compression_type.code());
    assert(h.compression_type.code() < 4);
    assert(s[5] % 16 == s[5]);
    assert(s.skip(8) =~= h.pdu.body + rest);
    assert(h.compression_flags == (CompressionFlags { bits: 0 }));
    if kind == ShareDataPduKind::AutoDetectReq || kind == ShareDataPduKind::AutoDetectRsp {
        assert(s.skip(8)[1] == h.pdu.body[1]);
    } else {
        assert(share_data::kind_of(kind.pdu_type()) == kind);
    }
    if kind.is_bare() {
        assert(h.pdu.body =~= Seq::empty());
        assert(h.pdu.body + rest =~= rest);
    }
}

/// What reading a share control header that was written leads to, in the same way.
pub open spec fn control_header_read_back(h: ControlHeader, rest: Seq<u8>) -> (
    Seq<u8>,
    Result<Decoded<ControlHeader, PendingShareControl>, Fault>,
) {
    let pending = |pdu: PendingControlPdu|
        PendingShareControl {
            pdu,
            total_length: h.wire_size() as u16,
            pdu_source: h.pdu_source,
            share_id: h.share_id,
        };
    match h.pdu {
        ControlPdu::ServerDemandActive(body) => (
            body + rest,
            Ok(Decoded::Inner(pending(PendingControlPdu::ServerDemandActive))),
        ),
        ControlPdu::ClientConfirmActive(body) => (
            body + rest,
            Ok(Decoded::Inner(pending(PendingControlPdu::ClientConfirmActive))),
        ),
        ControlPdu::Data(header) => match data_header_read_back(header, rest) {
            (left, Ok(Decoded::Inner(p))) => (
                left,
                Ok(Decoded::Inner(pending(PendingControlPdu::Data(p)))),
            ),
            (left, _) => (left, Ok(Decoded::Complete(h))),
        },
        _ => (rest, Ok(Decoded::Complete(h))),
    }
}

/// A share control header that was written is read back. In front of a redirection packet, which
/// has no share id on the wire, the share id must be zero.
pub proof fn law_control_header_is_read_back(h: ControlHeader, rest: Seq<u8>)
    requires
        h.pdu matches ControlPdu::Data(header) ==> header.pdu.wf(),
        h.pdu matches ControlPdu::ServerRedirect(packet) ==> packet.flags_tell_fields()
            && h.share_id == 0,
        h.encoded().1 is Ok,
    ensures
        share_control::control_header(h.encoded().0 + rest) == control_header_read_back(h, rest),
{
    if let ControlPdu::ServerRedirect(packet) = h.pdu {
        law_redirection_comes_without_share_id(
            h.wire_size() as u16,
            h.pdu_source,
            0,
            packet,
            rest,
        );
        assert(cursor::zeros(2) =~= bytes::le16_bytes(0));
    } else {
        lemma_control_header_read_back(h, rest);
    }
}

proof fn lemma_control_header_read_back(h: ControlHeader, rest: Seq<u8>)
    requires
        h.pdu !is ServerRedirect,
        h.pdu matches ControlPdu::Data(header) ==> header.pdu.wf(),
        h.encoded().1 is Ok,
    ensures
        share_control::control_header(h.encoded().0 + rest) == control_header_read_back(h, rest),
{
    let (image, end) = h.pdu.encoded();
    let s = h.encoded().0 + rest;
    let t = h.pdu.pdu_type();
    let type_and_version = (PROTOCOL_VERSION + t.code()) as u16;
    share_control::lemma_control_size(h.pdu);
    assert(s.subrange(0, 2) =~= bytes::le16_bytes(h.wire_size() as u16));
    bytes::lemma_le16_read_back(h.wire_size() as u16, s, 0);
    assert(s.subrange(2, 4) =~= bytes::le16_bytes(type_and_version));
    bytes::lemma_le16_read_back(type_and_version, s, 2);
    assert(s.subrange(4, 6) =~= bytes::le16_bytes(h.pdu_source));
    bytes::lemma_le16_read_back(h.pdu_source, s, 4);
    assert(s.subrange(6, 10) =~= bytes::le32_bytes(h.share_id));
    bytes::lemma_le32_read_back(h.share_id, s, 6);
    assert(t.code() < 16);
    assert(type_and_version as int % 16 == t.code());
    assert(s.skip(10) =~= image + rest);
    match h.pdu {
        ControlPdu::Data(header) => {
            law_data_header_is_read_back(header, rest);
        },
        ControlPdu::ServerDeactivateAll => {
            law_deactivate_all_is_read_back(rest);
        },
        _ => {},
    }
}

/// Once the decoder of an inner PDU has taken the bytes of its PDU, the header that was written is
/// whole again.
pub proof fn law_control_header_is_completed(h: ControlHeader, body: Seq<u8>, rest: Seq<u8>)
    requires
        h.pdu matches ControlPdu::Data(header) ==> header.pdu.wf(),
        h.encoded().1 is Ok,
        control_header_read_back(h, rest).1->Ok_0 is Inner,
        control_header_read_back(h, rest).0 == body + rest,
    ensures
        ({
            let pending = control_header_read_back(h, rest).1->Ok_0->Inner_0;
            share_control::past_padding(rest, pending.with(body), pending.total_length as int) == (
                rest,
                Ok::<ControlHeader, Fault>(h),
            )
        }),
{
    let left = control_header_read_back(h, rest).0;
    let own = match h.pdu {
        ControlPdu::ServerDemandActive(b) => b,
        ControlPdu::ClientConfirmActive(b) => b,
        ControlPdu::Data(header) => header.pdu.body,
        _ => Seq::empty(),
    };
    assert(left == own + rest);
    assert(own.len() == body.len());
    assert(own =~= body) by {
        assert forall|i: int| 0 <= i < own.len() implies own[i] == body[i] by {
            assert((own + rest)[i] == own[i]);
            assert((body + rest)[i] == body[i]);
        }
    }
}

/// A redirection packet is read behind six bytes of header and two of padding. There is no share
/// id, and the length that the header gives is not looked at.
pub proof fn law_redirection_comes_without_share_id(
    total_length: u16,
    pdu_source: u16,
    padding: u16,
    packet: Redirection,
    rest: Seq<u8>,
)
    requires
        packet.flags_tell_fields(),
        packet.encoded().1 is Ok,
    ensures
        ({
            let type_and_version = (PROTOCOL_VERSION + ShareControlPduType::ServerRedirect.code())
                as u16;
            let wire = bytes::le16_bytes(total_length) + bytes::le16_bytes(type_and_version)
                + bytes::le16_bytes(pdu_source) + bytes::le16_bytes(padding) + packet.encoded().0;
            let header = ControlHeader {
                pdu: ControlPdu::ServerRedirect(packet),
                pdu_source,
                share_id: 0,
            };
            share_control::control_header(wire + rest) == (
                rest,
                Ok::<Decoded<ControlHeader, PendingShareControl>, Fault>(
                    Decoded::Complete(header),
                ),
            )
        }),
{
    let type_and_version = (PROTOCOL_VERSION + ShareControlPduType::ServerRedirect.code()) as u16;
    let wire = bytes::le16_bytes(total_length) + bytes::le16_bytes(type_and_version)
        + bytes::le16_bytes(pdu_source) + bytes::le16_bytes(padding) + packet.encoded().0;
    let s = wire + rest;
    redirection::lemma_fields_size(packet.fields, 11);
    assert(s.subrange(2, 4) =~= bytes::le16_bytes(type_and_version));
    bytes::lemma_le16_read_back(type_and_version, s, 2);
    assert(s.subrange(4, 6) =~= bytes::le16_bytes(pdu_source));
    bytes::lemma_le16_read_back(pdu_source, s, 4);
    assert(s.skip(8) =~= packet.encoded().0 + rest);
    law_redirection_is_read_back(packet, rest);
}

/// A data PDU takes as many bytes as its header announced: padding behind it is taken too. This is
/// of PDUs without a body; those that are kept as they came are not passed over.
pub proof fn law_data_pdu_takes_the_announced_length(s: Seq<u8>)
    requires
        share_control::control_header(s).1 matches Ok(Decoded::Complete(h)) && (h.pdu matches
            ControlPdu::Data(header) && header.pdu.kind.is_bare()),
    ensures
        share_control::control_header(s).0 == s.skip(bytes::le16(s, 0)),
{
    let total_length = bytes::le16(s, 0);
    let behind = s.skip(10).skip(8);
    assert(behind =~= s.skip(18));
    assert(behind.skip(total_length - 18) =~= s.skip(total_length));
}

/// The same of a data PDU that has a decoder of its own, once that has taken the PDU's bytes.
pub proof fn law_completed_data_pdu_takes_the_announced_length(s: Seq<u8>, body: Seq<u8>)
    requires
        share_control::control_header(s).1 matches Ok(Decoded::Inner(pending)) && {
            &&& pending.pdu is Data
            &&& share_control::past_padding(
                share_control::control_header(s).0.skip(body.len() as int),
                pending.with(body),
                pending.total_length as int,
            ).1 is Ok
        },
        body.len() <= share_control::control_header(s).0.len(),
    ensures
        ({
            let (left, end) = share_control::control_header(s);
            let pending = end->Ok_0->Inner_0;
            share_control::past_padding(
                left.skip(body.len() as int),
                pending.with(body),
                pending.total_length as int,
            ).0 == s.skip(bytes::le16(s, 0))
        }),
{
    let (left, end) = share_control::control_header(s);
    let total_length = bytes::le16(s, 0);
    let n = body.len() as int;
    assert(s.skip(10).skip(8) =~= s.skip(18));
    assert(left.skip(n) =~= s.skip(18 + n));
    assert(left.skip(n).skip(total_length - 18 - n) =~= s.skip(total_length));
}

/// What is written of a header, where that ends well, is as long as its size says.
pub proof fn law_size_is_what_is_written(h: ControlHeader)
    requires
        h.encoded().1 is Ok,
    ensures
        h.encoded().0.len() == h.wire_size(),
{
    if let ControlPdu::ServerRedirect(packet) = h.pdu {
        redirection::lemma_fields_size(packet.fields, 11);
    }
}

/// A data PDU is refused where the header gave a length that cannot hold it.
pub proof fn law_too_short_a_length_is_refused(s: Seq<u8>, h: ControlHeader, total_length: int)
    requires
        h.pdu is Data,
        total_length < h.wire_size(),
    ensures
        share_control::past_padding(s, h, total_length).1 is Err,
{
}

} // verus!
