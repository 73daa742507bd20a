//! Where the fields of the headers stand on the wire.
//!
//! What is said here is said of the bytes themselves: every field by its place, and every code by
//! its number.

use crate::bytes;
use crate::headers::codes::{
    BasicSecurityHeaderFlags, CompressionFlags, CompressionType, RedirectionFlags,
    ShareControlPduType, StreamPriority,
};
use crate::headers::error::Fault;
use crate::headers::redirection::{RdpServerRedirectionPacket, Redirection};
use crate::headers::security::BasicSecurityHeader;
use crate::headers::share_control::{
    ControlHeader, ControlPdu, PendingControlPdu, PendingShareControl, ShareControlHeader,
};
use crate::headers::share_data::{
    DataHeader, Decoded, PendingShareData, ShareDataHeader, ShareDataPduKind,
};
use crate::headers::{redirection, security, share_control, share_data};
use vstd::prelude::*;

verus! {

/// Two bytes as a number, the lower one first.
pub open spec fn number16(low: u8, high: u8) -> int {
    low + 0x100 * high
}

/// Four bytes as a number, the lowest one first.
pub open spec fn number32(b0: u8, b1: u8, b2: u8, b3: u8) -> int {
    b0 + 0x100 * b1 + 0x1_0000 * b2 + 0x100_0000 * b3
}

/// The numbers of the kinds of data PDUs.
pub open spec fn data_number(kind: ShareDataPduKind) -> int {
    match kind {
        ShareDataPduKind::Update => 0x02,
        ShareDataPduKind::Control => 0x14,
        ShareDataPduKind::Pointer => 0x1B,
        ShareDataPduKind::Input => 0x1C,
        ShareDataPduKind::Synchronize => 0x1F,
        ShareDataPduKind::RefreshRectangle => 0x21,
        ShareDataPduKind::PlaySound => 0x22,
        ShareDataPduKind::SuppressOutput => 0x23,
        ShareDataPduKind::ShutdownRequest => 0x24,
        ShareDataPduKind::ShutdownDenied => 0x25,
        ShareDataPduKind::SaveSessionInfo => 0x26,
        ShareDataPduKind::FontList => 0x27,
        ShareDataPduKind::FontMap => 0x28,
        ShareDataPduKind::SetKeyboardIndicators => 0x29,
        ShareDataPduKind::BitmapCachePersistentList => 0x2B,
        ShareDataPduKind::BitmapCacheErrorPdu => 0x2C,
        ShareDataPduKind::SetKeyboardImeStatus => 0x2D,
        ShareDataPduKind::OffscreenCacheErrorPdu => 0x2E,
        ShareDataPduKind::ServerSetErrorInfo => 0x2F,
        ShareDataPduKind::DrawNineGridErrorPdu => 0x30,
        ShareDataPduKind::DrawGdiPusErrorPdu => 0x31,
        ShareDataPduKind::ArcStatusPdu => 0x32,
        ShareDataPduKind::StatusInfoPdu => 0x36,
        ShareDataPduKind::MonitorLayout => 0x37,
        ShareDataPduKind::FrameAcknowledge => 0x38,
        ShareDataPduKind::AutoDetectReq => 0x3B,
        ShareDataPduKind::AutoDetectRsp => 0x3B,
    }
}

/// A number is that of a kind of data PDUs.
pub open spec fn is_data_number(n: int) -> bool {
    ||| n == 0x02 || n == 0x14 || n == 0x1B || n == 0x1C || n == 0x1F
    ||| 0x21 <= n <= 0x29
    ||| 0x2B <= n <= 0x32
    ||| 0x36 <= n <= 0x38
    ||| n == 0x3B
}

/// PDUs of these kinds are kept as they came.
pub open spec fn is_kept_number(n: int) -> bool {
    ||| n == 0x02 || n == 0x1B || n == 0x22
    ||| n == 0x29
    ||| 0x2B <= n <= 0x2E
    ||| 0x30 <= n <= 0x32
    ||| n == 0x36
}

/// The numbers of the priorities.
pub open spec fn priority_number(v: StreamPriority) -> int {
    match v {
        StreamPriority::Undefined => 0,
        StreamPriority::Low => 1,
        StreamPriority::Medium => 2,
        StreamPriority::High => 4,
    }
}

/// The numbers of the kinds of compression.
pub open spec fn compression_number(v: CompressionType) -> int {
    match v {
        CompressionType::K8 => 0,
        CompressionType::K64 => 1,
        CompressionType::Rdp6 => 2,
        CompressionType::Rdp61 => 3,
    }
}

/// The fields of a data header agree with the bytes of `s`: the priority is the second byte, the
/// kind the fifth, and the sixth is the kind of compression in its lower half and the flags in its
/// upper one.
pub open spec fn data_fields_agree(
    s: Seq<u8>,
    kind: ShareDataPduKind,
    priority: StreamPriority,
    flags: CompressionFlags,
    compression: CompressionType,
) -> bool {
    &&& s[1] == priority_number(priority)
    &&& s[4] == data_number(kind)
    &&& s[5] == flags.bits + compression_number(compression)
    &&& flags.bits % 16 == 0
    &&& flags.bits & 0x10 == s[5] & 0x10
    &&& flags.bits & 0x20 == s[5] & 0x20
    &&& flags.bits & 0x40 == s[5] & 0x40
    &&& flags.bits & 0x80 == s[5] & 0x80
}

/// Reading a data header succeeds where it is whole, its codes are known, and, for auto-detection,
/// the two bytes are there that tell which way the PDU goes. What is read agrees with the bytes,
/// and the PDU starts behind them: it is still to be decoded, or has no body, or is kept as it
/// came. The bytes of the padding and of the two lengths play no part.
pub proof fn law_data_header_fields_stand_in_their_places(s: Seq<u8>)
    ensures
        share_data::data_header(s).1 is Ok <==> {
            &&& s.len() >= 8
            &&& s[1] == 0 || s[1] == 1 || s[1] == 2 || s[1] == 4
            &&& is_data_number(s[4] as int)
            &&& s[5] % 16 <= 3
            &&& s[4] == 0x3B ==> s.len() >= 10
        },
        share_data::data_header(s).1 is Ok ==> share_data::data_header(s).0 == s.skip(8),
        share_data::data_header(s).1 matches Ok(Decoded::Complete(h)) ==> {
            &&& data_fields_agree(
                s,
                h.pdu.kind,
                h.stream_priority,
                h.compression_flags,
                h.compression_type,
            )
            &&& s[4] == 0x24 || s[4] == 0x25 || is_kept_number(s[4] as int)
            &&& h.pdu.body == if is_kept_number(s[4] as int) {
                s.skip(8)
            } else {
                Seq::empty()
            }
        },
        share_data::data_header(s).1 matches Ok(Decoded::Inner(p)) ==> {
            &&& data_fields_agree(
                s,
                p.kind,
                p.stream_priority,
                p.compression_flags,
                p.compression_type,
            )
            &&& s[4] != 0x24 && s[4] != 0x25 && !is_kept_number(s[4] as int)
            &&& p.kind is AutoDetectReq <==> s[4] == 0x3B && s[9] == 0
            &&& p.kind is AutoDetectRsp <==> s[4] == 0x3B && s[9] != 0
        },
{
    if s.len() >= 8 {
        let b = s[5];
        let high = (b - b % 16) as u8;
        lemma_upper_half(b, high);
        if s.len() >= 10 {
            assert(s.skip(8)[1] == s[9]);
        }
    }
}

proof fn lemma_upper_half(b: u8, high: u8)
    requires
        high == b - b % 16,
    ensures
        high & 0x10 == b & 0x10,
        high & 0x20 == b & 0x20,
        high & 0x40 == b & 0x40,
        high & 0x80 == b & 0x80,
{
    assert(high & 0x10 == b & 0x10 && high & 0x20 == b & 0x20 && high & 0x40 == b & 0x40 && high
        & 0x80 == b & 0x80) by (bit_vector)
        requires
            high == b - b % 16,
    ;
}

/// The numbers of the codes.
pub proof fn law_codes_have_their_numbers(
    priority: StreamPriority,
    compression: CompressionType,
    control: ShareControlPduType,
    kind: ShareDataPduKind,
)
    ensures
        priority.code() == priority_number(priority),
        compression.code() == compression_number(compression),
        control.code() == match control {
            ShareControlPduType::DemandActivePdu => 1int,
            ShareControlPduType::ConfirmActivePdu => 3,
            ShareControlPduType::DeactivateAllPdu => 6,
            ShareControlPduType::DataPdu => 7,
            ShareControlPduType::ServerRedirect => 10,
        },
        kind.pdu_type().code() == data_number(kind),
{
}

/// What is written of a data header, where that ends well: padding, the priority, the length of the
/// PDU, its kind, the kind of compression, no compressed length, and the PDU. It ends well unless
/// there are flags, the PDU is too long for its length, or is of a kind that is kept as it came.
pub proof fn law_data_header_is_written_in_its_places(h: DataHeader)
    ensures
        h.encoded().1 is Ok <==> {
            &&& h.compression_flags.bits == 0
            &&& h.pdu.body.len() <= 0xFFFF
            &&& !is_kept_number(data_number(h.pdu.kind))
        },
        h.encoded().1 is Ok ==> {
            let s = h.encoded().0;
            &&& s.len() == 8 + h.pdu.body.len() == h.wire_size()
            &&& s[0] == 0
            &&& s[1] == priority_number(h.stream_priority)
            &&& number16(s[2], s[3]) == h.pdu.body.len()
            &&& s[4] == data_number(h.pdu.kind)
            &&& s[5] == compression_number(h.compression_type)
            &&& s[6] == 0 && s[7] == 0
            &&& s.skip(8) == h.pdu.body
        },
        h.wire_size() == 8 + h.pdu.body.len(),
{
    if h.compression_flags.bits == 0 && h.pdu.body.len() <= 0xFFFF {
        let s = h.encoded().0;
        if h.encoded().1 is Ok {
            assert(s.skip(8) =~= h.pdu.body);
        }
    }
}

/// Why a data header is not read: the bytes that are missing, or the first of its codes that is not
/// known. What is then left to read starts behind that code.
pub proof fn law_data_header_is_refused_for_its_first_fault(s: Seq<u8>)
    requires
        share_data::data_header(s).1 is Err,
    ensures
        share_data::data_header(s).1->Err_0 == if s.len() < 8 {
            Fault::NotEnoughBytes { received: s.len() as int, expected: 8 }
        } else if s[1] != 0 && s[1] != 1 && s[1] != 2 && s[1] != 4 {
            Fault::InvalidField { field: "streamPriority"@, reason: "Invalid stream priority"@ }
        } else if !is_data_number(s[4] as int) {
            Fault::InvalidField { field: "pduType"@, reason: "Invalid pdu type"@ }
        } else if s[5] % 16 > 3 {
            Fault::InvalidField { field: "compressionType"@, reason: "Invalid compression type"@ }
        } else {
            Fault::NotEnoughBytes { received: s.len() - 8, expected: 2 }
        },
        share_data::data_header(s).0 == if s.len() < 8 {
            s
        } else if s[1] != 0 && s[1] != 1 && s[1] != 2 && s[1] != 4 {
            s.skip(2)
        } else if !is_data_number(s[4] as int) {
            s.skip(5)
        } else if s[5] % 16 > 3 {
            s.skip(6)
        } else {
            s.skip(8)
        },
{
}

/// The number of a share control PDU.
pub open spec fn control_number(pdu: ControlPdu) -> int {
    match pdu {
        ControlPdu::ServerDemandActive(_) => 1,
        ControlPdu::ClientConfirmActive(_) => 3,
        ControlPdu::ServerDeactivateAll => 6,
        ControlPdu::Data(_) => 7,
        ControlPdu::ServerRedirect(_) => 10,
    }
}

/// The third and fourth bytes of a share control header hold the version above the given number.
pub open spec fn is_control_of(s: Seq<u8>, n: int) -> bool {
    s.len() >= 10 && s[2] == 0x10 + n && s[3] == 0
}

/// Which bytes a share control header of a PDU that is read whole or still to be decoded goes by:
/// the first two give the length, the next two the version and the kind, the next two the source,
/// and the next four, but for redirection, the share id.
pub proof fn law_control_header_fields_stand_in_their_places(s: Seq<u8>)
    ensures
        share_control::control_header(s).1 matches Ok(Decoded::Complete(h)) ==> {
            &&& is_control_of(s, control_number(h.pdu))
            &&& h.pdu_source == number16(s[4], s[5])
            &&& h.share_id == if h.pdu is ServerRedirect {
                0
            } else {
                number32(s[6], s[7], s[8], s[9])
            }
            &&& h.pdu !is ServerDemandActive && h.pdu !is ClientConfirmActive
        },
        share_control::control_header(s).1 matches Ok(Decoded::Inner(p)) ==> {
            &&& is_control_of(
                s,
                match p.pdu {
                    PendingControlPdu::ServerDemandActive => 1,
                    PendingControlPdu::ClientConfirmActive => 3,
                    PendingControlPdu::Data(_) => 7,
                },
            )
            &&& p.total_length == number16(s[0], s[1])
            &&& p.pdu_source == number16(s[4], s[5])
            &&& p.share_id == number32(s[6], s[7], s[8], s[9])
        },
{
}

/// What is read behind a share control header, kind by kind: a PDU with its own decoder is next in
/// line, a data header stands at the tenth byte, the end of the share too, and a redirection packet
/// stands at the eighth.
pub proof fn law_control_pdu_stands_behind_its_header(s: Seq<u8>)
    ensures
        is_control_of(s, 1) ==> share_control::control_header(s).0 == s.skip(10) && (
        share_control::control_header(s).1 matches Ok(Decoded::Inner(p)) && p.pdu
            is ServerDemandActive),
        is_control_of(s, 3) ==> share_control::control_header(s).0 == s.skip(10) && (
        share_control::control_header(s).1 matches Ok(Decoded::Inner(p)) && p.pdu
            is ClientConfirmActive),
        is_control_of(s, 6) ==> (share_control::control_header(s).1 is Ok <==> s.len() < 13
            || number16(s[10], s[11]) <= s.len() - 12),
        is_control_of(s, 6) && share_control::control_header(s).1 is Ok
            ==> share_control::control_header(s).0 == if s.len() < 13 {
            s.skip(10)
        } else {
            s.skip(12 + number16(s[10], s[11]))
        },
        is_control_of(s, 7) ==> match share_data::data_header(s.skip(10)).1 {
            Err(fault) => share_control::control_header(s).1->Err_0 == fault,
            Ok(Decoded::Inner(p)) => {
                &&& share_control::control_header(s).1 matches Ok(Decoded::Inner(pending))
                    && pending.pdu == PendingControlPdu::Data(p)
                &&& share_control::control_header(s).0 == s.skip(18)
            },
            Ok(Decoded::Complete(h)) => {
                let size = 18 + h.pdu.body.len();
                let length = number16(s[0], s[1]);
                &&& share_control::control_header(s).1 is Ok <==> size <= length <= size + s.len()
                    - 18
                &&& share_control::control_header(s).1 matches Ok(end) ==> {
                    &&& end matches Decoded::Complete(whole) && whole.pdu == ControlPdu::Data(h)
                    &&& share_control::control_header(s).0 == s.skip(18 + length - size)
                }
            },
        },
        is_control_of(s, 10) ==> match redirection::redirection(s.skip(8)) {
            (left, Err(fault)) => share_control::control_header(s).1->Err_0 == fault,
            (left, Ok(packet)) => {
                &&& share_control::control_header(s).0 == left
                &&& share_control::control_header(s).1 matches Ok(Decoded::Complete(h)) && h.pdu
                    == ControlPdu::ServerRedirect(packet)
            },
        },
{
    if s.len() >= 10 {
        lemma_behind(s);
    }
}

/// What is left to read, and why, where the end of a share is not read behind its header: its
/// descriptor is not all there.
pub proof fn law_cut_deactivation_is_refused(s: Seq<u8>)
    requires
        is_control_of(s, 6),
        share_control::control_header(s).1 is Err,
    ensures
        share_control::control_header(s).0 == s.skip(12),
        share_control::control_header(s).1->Err_0 == (Fault::NotEnoughBytes {
            received: s.len() - 12,
            expected: number16(s[10], s[11]),
        }),
{
    assert(s.skip(10).skip(2) =~= s.skip(12));
}

/// What is left to read, and why, where a data PDU is not read behind its header: as it would be by
/// itself, or, where its length does not reach beyond what has been read, or not enough follows,
/// everything behind the data header.
pub proof fn law_failed_data_is_refused(s: Seq<u8>)
    requires
        is_control_of(s, 7),
        share_control::control_header(s).1 is Err,
    ensures
        match share_data::data_header(s.skip(10)).1 {
            Err(fault) => {
                &&& share_control::control_header(s).0 == share_data::data_header(s.skip(10)).0
                &&& share_control::control_header(s).1->Err_0 == fault
            },
            Ok(Decoded::Inner(_)) => false,
            Ok(Decoded::Complete(h)) => {
                let size = 18 + h.pdu.body.len() as int;
                let length = number16(s[0], s[1]);
                &&& share_control::control_header(s).0 == s.skip(18)
                &&& share_control::control_header(s).1->Err_0 == if length < size {
                    Fault::NotEnoughBytes { received: length, expected: size }
                } else {
                    Fault::NotEnoughBytes { received: s.len() - 18, expected: length - size }
                }
            },
        },
{
    if s.len() >= 18 {
        assert(s.skip(10).skip(8) =~= s.skip(18));
    }
}

/// What is left to read, and why, where a redirection packet is not read behind its header: as it
/// would be by itself.
pub proof fn law_failed_redirection_is_refused(s: Seq<u8>)
    requires
        is_control_of(s, 10),
        share_control::control_header(s).1 is Err,
    ensures
        share_control::control_header(s).0 == redirection::redirection(s.skip(8)).0,
        redirection::redirection(s.skip(8)).1 is Err,
        share_control::control_header(s).1->Err_0 == redirection::redirection(
            s.skip(8),
        ).1->Err_0,
{
}

proof fn lemma_behind(s: Seq<u8>)
    requires
        s.len() >= 10,
    ensures
        forall|n: int| 0 <= n && 10 + n <= s.len() ==> #[trigger] s.skip(10).skip(n) == s.skip(
            10 + n,
        ),
        s.len() >= 12 ==> forall|n: int|
            0 <= n && 12 + n <= s.len() ==> #[trigger] s.skip(12).skip(n) == s.skip(12 + n),
        s.len() >= 18 ==> forall|n: int|
            0 <= n && 18 + n <= s.len() ==> #[trigger] s.skip(18).skip(n) == s.skip(18 + n),
{
    assert forall|n: int| 0 <= n && 10 + n <= s.len() implies #[trigger] s.skip(10).skip(n)
        == s.skip(10 + n) by {
        assert(s.skip(10).skip(n) =~= s.skip(10 + n));
    }
    if s.len() >= 12 {
        assert forall|n: int| 0 <= n && 12 + n <= s.len() implies #[trigger] s.skip(12).skip(n)
            == s.skip(12 + n) by {
            assert(s.skip(12).skip(n) =~= s.skip(12 + n));
        }
    }
    if s.len() >= 18 {
        assert forall|n: int| 0 <= n && 18 + n <= s.len() implies #[trigger] s.skip(18).skip(n)
            == s.skip(18 + n) by {
            assert(s.skip(18).skip(n) =~= s.skip(18 + n));
        }
    }
}

/// Why a share control header is not read by itself: the bytes that are missing, a kind that is not
/// known, or another version. What is then left to read starts behind the source.
pub proof fn law_control_header_is_refused(s: Seq<u8>)
    requires
        !is_control_of(s, 1) && !is_control_of(s, 3) && !is_control_of(s, 6) && !is_control_of(s, 7)
            && !is_control_of(s, 10),
    ensures
        share_control::control_header(s).1 is Err,
        share_control::control_header(s).1->Err_0 == if s.len() < 10 {
            Fault::NotEnoughBytes { received: s.len() as int, expected: 10 }
        } else if s[2] % 16 != 1 && s[2] % 16 != 3 && s[2] % 16 != 6 && s[2] % 16 != 7 && s[2] % 16
            != 10 {
            Fault::InvalidField { field: "pdu_type"@, reason: "invalid pdu type"@ }
        } else {
            Fault::InvalidField { field: "pdu_version"@, reason: "invalid PDU version"@ }
        },
        share_control::control_header(s).0 == if s.len() < 10 {
            s
        } else {
            s.skip(6)
        },
{
}

/// What completing a header takes from behind its PDU: the padding up to the length that the header
/// gave, if the PDU is data, and nothing else. The header is handed back as it is.
pub proof fn law_padding_reaches_to_the_announced_length(
    s: Seq<u8>,
    h: ControlHeader,
    total_length: int,
)
    ensures
        ({
            let (left, end) = share_control::past_padding(s, h, total_length);
            let padding = if h.pdu is Data {
                total_length - h.wire_size()
            } else {
                0
            };
            &&& end is Ok <==> 0 <= padding <= s.len()
            &&& end matches Ok(whole) ==> whole == h && left == s.skip(padding)
            &&& end matches Err(fault) ==> fault == if padding < 0 {
                Fault::NotEnoughBytes { received: total_length, expected: h.wire_size() }
            } else {
                Fault::NotEnoughBytes { received: s.len() as int, expected: padding }
            }
        }),
{
    assert(s.skip(0) =~= s);
}

/// What is written of a share control header, where that ends well: the length of the whole, the
/// version and the kind, the source, the share id or, for redirection, two bytes of padding, and
/// the PDU as it is written by itself.
pub proof fn law_control_header_is_written_in_its_places(h: ControlHeader)
    requires
        h.encoded().1 is Ok,
    ensures
        ({
            let s = h.encoded().0;
            &&& s.len() == h.wire_size() == number16(s[0], s[1])
            &&& s[2] == 0x10 + control_number(h.pdu) && s[3] == 0
            &&& number16(s[4], s[5]) == h.pdu_source
            &&& match h.pdu {
                ControlPdu::ServerDemandActive(body) => s.skip(10) == body,
                ControlPdu::ClientConfirmActive(body) => s.skip(10) == body,
                ControlPdu::Data(header) => header.encoded() == (s.skip(10), Ok::<(), Fault>(())),
                ControlPdu::ServerDeactivateAll => s.skip(10) == seq![1u8, 0, 0],
                ControlPdu::ServerRedirect(packet) => packet.encoded() == (
                    s.skip(8),
                    Ok::<(), Fault>(()),
                ),
            }
            &&& if h.pdu is ServerRedirect {
                s[6] == 0 && s[7] == 0
            } else {
                number32(s[6], s[7], s[8], s[9]) == h.share_id
            }
        }),
{
    let image = h.pdu.encoded().0;
    let size = bytes::le16_bytes(h.wire_size() as u16);
    let code = share_control::PROTOCOL_VERSION + h.pdu.pdu_type().code();
    let kind = bytes::le16_bytes(code as u16);
    let source = bytes::le16_bytes(h.pdu_source);
    lemma_parts(size, kind, source, h.share_id_bytes(), image);
    lemma_two_bytes(h.wire_size() as u16);
    lemma_two_bytes(h.pdu_source);
    lemma_four_bytes(h.share_id);
    lemma_control_image(h.pdu);
}

proof fn lemma_parts(a: Seq<u8>, b: Seq<u8>, c: Seq<u8>, d: Seq<u8>, image: Seq<u8>)
    requires
        a.len() == 2 && b.len() == 2 && c.len() == 2 && d.len() <= 4,
    ensures
        ({
            let s = a + b + c + d + image;
            &&& s.len() == 6 + d.len() + image.len()
            &&& s[0] == a[0] && s[1] == a[1]
            &&& s[2] == b[0] && s[3] == b[1]
            &&& s[4] == c[0] && s[5] == c[1]
            &&& forall|i: int| 0 <= i < d.len() ==> s[6 + i] == #[trigger] d[i]
            &&& s.skip(6 + d.len() as int) == image
        }),
{
    let s = a + b + c + d + image;
    assert(s.skip(6 + d.len() as int) =~= image);
}

proof fn lemma_control_image(pdu: ControlPdu)
    ensures
        pdu.encoded().1 is Ok ==> pdu.encoded().0.len() == pdu.wire_size(),
        pdu is ServerDeactivateAll ==> pdu.encoded().0 == seq![1u8, 0, 0],
{
    if let ControlPdu::ServerRedirect(packet) = pdu {
        redirection::lemma_fields_size(packet.fields, 11);
    } else if pdu is ServerDeactivateAll {
        assert(pdu.encoded().0 =~= seq![1u8, 0, 0]);
    }
}

/// When a share control header is written: where its size has 16 bits and its PDU is one that is
/// written.
pub proof fn law_control_header_is_written(h: ControlHeader)
    ensures
        h.encoded().1 is Ok <==> h.wire_size() <= 0xFFFF && match h.pdu {
            ControlPdu::Data(header) => header.encoded().1 is Ok,
            ControlPdu::ServerRedirect(packet) => packet.encoded().1 is Ok,
            _ => true,
        },
        h.wire_size() == match h.pdu {
            ControlPdu::ServerDemandActive(body) => 10 + body.len() as int,
            ControlPdu::ClientConfirmActive(body) => 10 + body.len() as int,
            ControlPdu::Data(header) => 18 + header.pdu.body.len() as int,
            ControlPdu::ServerDeactivateAll => 13,
            ControlPdu::ServerRedirect(packet) => 8 + packet.wire_size(),
        },
{
}

/// The flags that announce the optional fields of a redirection packet, in the order in which the
/// fields stand.
pub open spec fn announcing_bit(k: int) -> u32 {
    seq![
        0x1u32,
        0x2,
        0x4,
        0x8,
        0x10,
        0x100,
        0x200,
        0x1000,
        0x8000,
        0x1_0000,
        0x800,
    ][k]
}

/// The length of a field, in four bytes, the lowest one first.
pub open spec fn length_in_front(field: Seq<u8>) -> Seq<u8> {
    seq![
        (field.len() % 0x100) as u8,
        (field.len() / 0x100 % 0x100) as u8,
        (field.len() / 0x1_0000 % 0x100) as u8,
        (field.len() / 0x100_0000) as u8,
    ]
}

/// The fields of a redirection packet from the `k`-th on, each with its length in front of it.
pub open spec fn fields_on_the_wire(fields: Seq<Option<Seq<u8>>>, k: int) -> Seq<u8>
    decreases fields.len() - k,
{
    if k >= fields.len() {
        Seq::empty()
    } else {
        match fields[k] {
            None => fields_on_the_wire(fields, k + 1),
            Some(field) => length_in_front(field) + field + fields_on_the_wire(fields, k + 1),
        }
    }
}

/// What a redirection packet that was read has taken is itself, byte by byte, and a field is there
/// if and only if its bit is set: nothing is lost and nothing is added.
pub proof fn law_redirection_is_taken_byte_by_byte(s: Seq<u8>)
    requires
        redirection::redirection(s).1 is Ok,
    ensures
        ({
            let (left, end) = redirection::redirection(s);
            let packet = end->Ok_0;
            &&& s.len() >= 12
            &&& s[0] == 0 && s[1] == 4
            &&& packet.session_id == number32(s[4], s[5], s[6], s[7])
            &&& packet.flags.bits == number32(s[8], s[9], s[10], s[11])
            &&& packet.fields.len() == 11
            &&& forall|k: int|
                0 <= k < 11 ==> (#[trigger] packet.fields[k] is Some <==> packet.flags.bits
                    & announcing_bit(k) != 0)
            &&& s.skip(12) == fields_on_the_wire(packet.fields, 0) + left
        }),
{
    let flags = RedirectionFlags { bits: bytes::le32(s, 8) as u32 };
    lemma_fields_taken(s.skip(12), flags, 0, Seq::empty());
}

proof fn lemma_fields_taken(
    s: Seq<u8>,
    flags: RedirectionFlags,
    k: int,
    done: Seq<Option<Seq<u8>>>,
)
    requires
        0 <= k <= 11,
        done.len() == k,
        redirection::optional_fields(s, flags, k, done).1 is Ok,
        forall|j: int|
            0 <= j < k ==> (#[trigger] done[j] is Some <==> flags.bits & announcing_bit(j) != 0),
    ensures
        ({
            let (left, end) = redirection::optional_fields(s, flags, k, done);
            let fields = end->Ok_0;
            &&& fields.len() == 11
            &&& fields.take(k) == done
            &&& forall|j: int|
                0 <= j < 11 ==> (#[trigger] fields[j] is Some <==> flags.bits & announcing_bit(j)
                    != 0)
            &&& s == fields_on_the_wire(fields, k) + left
        }),
    decreases 11 - k,
{
    let (left, end) = redirection::optional_fields(s, flags, k, done);
    let fields = end->Ok_0;
    if k == 11 {
        assert(fields.take(11) =~= done);
        assert(s =~= fields_on_the_wire(fields, 11) + left);
    } else {
        lemma_bit_is_flag(flags.bits, k);
        if !flags.has(redirection::field_flag(k)) {
            lemma_fields_taken(s, flags, k + 1, done.push(None));
            assert(fields[k] == fields.take(k + 1)[k]);
            assert(fields.take(k) =~= fields.take(k + 1).take(k));
            assert(done.push(None).take(k) =~= done);
        } else {
            let (rest, one) = redirection::prefixed_field(s);
            let field = one->Ok_0;
            lemma_fields_taken(rest, flags, k + 1, done.push(Some(field)));
            assert(fields[k] == fields.take(k + 1)[k]);
            assert(fields.take(k) =~= fields.take(k + 1).take(k));
            assert(done.push(Some(field)).take(k) =~= done);
            lemma_prefixed(s, rest, field);
            let tail = fields_on_the_wire(fields, k + 1);
            let head = length_in_front(field);
            assert(head + field + (tail + left) =~= head + field + tail + left);
        }
    }
}

proof fn lemma_prefixed(s: Seq<u8>, rest: Seq<u8>, field: Seq<u8>)
    requires
        redirection::prefixed_field(s) == (rest, Ok::<Seq<u8>, Fault>(field)),
    ensures
        s == length_in_front(field) + field + rest,
{
    let n = field.len() as int;
    assert(s.len() >= 4 && field.len() == number32(s[0], s[1], s[2], s[3]));
    lemma_bytes_of_number(s[0], s[1], s[2], s[3], n);
    assert(length_in_front(field) =~= s.take(4));
    lemma_cut_in_three(s, n);
}

proof fn lemma_bytes_of_number(b0: u8, b1: u8, b2: u8, b3: u8, n: int)
    requires
        n == number32(b0, b1, b2, b3),
    ensures
        (n % 0x100) as u8 == b0,
        (n / 0x100 % 0x100) as u8 == b1,
        (n / 0x1_0000 % 0x100) as u8 == b2,
        (n / 0x100_0000) as u8 == b3,
{
}

proof fn lemma_cut_in_three(s: Seq<u8>, n: int)
    requires
        0 <= n,
        4 + n <= s.len(),
    ensures
        s == s.take(4) + s.skip(4).take(n) + s.skip(4).skip(n),
{
    assert(s =~= s.take(4) + s.skip(4).take(n) + s.skip(4).skip(n));
}

proof fn lemma_regroup(a: Seq<u8>, b: Seq<u8>, c: Seq<u8>)
    ensures
        a + b + c == a + (b + c),
{
    assert(a + b + c =~= a + (b + c));
}

proof fn lemma_field_found(field: Seq<u8>, behind: Seq<u8>)
    requires
        field.len() <= u32::MAX,
    ensures
        redirection::prefixed_field(length_in_front(field) + field + behind) == (
            behind,
            Ok::<Seq<u8>, Fault>(field),
        ),
{
    let s = length_in_front(field) + field + behind;
    let n = field.len() as int;
    assert(s[0] == (n % 0x100) as u8 && s[1] == (n / 0x100 % 0x100) as u8);
    assert(s[2] == (n / 0x1_0000 % 0x100) as u8 && s[3] == (n / 0x100_0000) as u8);
    assert(bytes::le32(s, 0) == n);
    assert(s.skip(4).take(n) =~= field);
    assert(s.skip(4).skip(n) =~= behind);
}

proof fn lemma_bit_is_flag(bits: u32, k: int)
    requires
        0 <= k < 11,
    ensures
        bits & announcing_bit(k) != 0 <==> bits & redirection::field_flag(k)
            == redirection::field_flag(k),
{
    assert(bits & 0x1 != 0 <==> bits & 0x1 == 0x1) by (bit_vector);
    assert(bits & 0x2 != 0 <==> bits & 0x2 == 0x2) by (bit_vector);
    assert(bits & 0x4 != 0 <==> bits & 0x4 == 0x4) by (bit_vector);
    assert(bits & 0x8 != 0 <==> bits & 0x8 == 0x8) by (bit_vector);
    assert(bits & 0x10 != 0 <==> bits & 0x10 == 0x10) by (bit_vector);
    assert(bits & 0x100 != 0 <==> bits & 0x100 == 0x100) by (bit_vector);
    assert(bits & 0x200 != 0 <==> bits & 0x200 == 0x200) by (bit_vector);
    assert(bits & 0x1000 != 0 <==> bits & 0x1000 == 0x1000) by (bit_vector);
    assert(bits & 0x8000 != 0 <==> bits & 0x8000 == 0x8000) by (bit_vector);
    assert(bits & 0x1_0000 != 0 <==> bits & 0x1_0000 == 0x1_0000) by (bit_vector);
    assert(bits & 0x800 != 0 <==> bits & 0x800 == 0x800) by (bit_vector);
}

/// A redirection packet is read wherever its bytes stand, whatever its length field holds and
/// whatever follows.
pub proof fn law_redirection_is_read_where_it_stands(
    session_id: u32,
    flags: RedirectionFlags,
    fields: Seq<Option<Seq<u8>>>,
    s: Seq<u8>,
    rest: Seq<u8>,
)
    requires
        fields.len() == 11,
        forall|k: int|
            0 <= k < 11 ==> (#[trigger] fields[k] is Some <==> flags.bits & announcing_bit(k) != 0),
        forall|k: int|
            0 <= k < 11 ==> (#[trigger] fields[k] matches Some(field) ==> field.len() <= u32::MAX),
        s.len() >= 12,
        s[0] == 0 && s[1] == 4,
        session_id == number32(s[4], s[5], s[6], s[7]),
        flags.bits == number32(s[8], s[9], s[10], s[11]),
        s.skip(12) == fields_on_the_wire(fields, 0) + rest,
    ensures
        redirection::redirection(s) == (
            rest,
            Ok::<Redirection, Fault>(Redirection { session_id, flags, fields }),
        ),
{
    lemma_fields_found(fields, flags, 0, rest);
    assert(fields.take(0) =~= Seq::empty());
}

proof fn lemma_fields_found(
    fields: Seq<Option<Seq<u8>>>,
    flags: RedirectionFlags,
    k: int,
    rest: Seq<u8>,
)
    requires
        0 <= k <= 11,
        fields.len() == 11,
        forall|k: int|
            0 <= k < 11 ==> (#[trigger] fields[k] is Some <==> flags.bits & announcing_bit(k) != 0),
        forall|k: int|
            0 <= k < 11 ==> (#[trigger] fields[k] matches Some(field) ==> field.len() <= u32::MAX),
    ensures
        redirection::optional_fields(
            fields_on_the_wire(fields, k) + rest,
            flags,
            k,
            fields.take(k),
        ) == (rest, Ok::<Seq<Option<Seq<u8>>>, Fault>(fields)),
    decreases 11 - k,
{
    let s = fields_on_the_wire(fields, k) + rest;
    if k == 11 {
        assert(s =~= rest);
        assert(fields.take(11) =~= fields);
    } else {
        lemma_fields_found(fields, flags, k + 1, rest);
        lemma_bit_is_flag(flags.bits, k);
        assert(fields.take(k + 1) =~= fields.take(k).push(fields[k]));
        let behind = fields_on_the_wire(fields, k + 1) + rest;
        if let Some(field) = fields[k] {
            let tail = fields_on_the_wire(fields, k + 1);
            lemma_regroup(length_in_front(field) + field, tail, rest);
            lemma_field_found(field, behind);
        }
    }
}

/// Why a redirection packet is not read: the bytes that are missing in front of its fields, or
/// another marker.
pub proof fn law_redirection_is_refused(s: Seq<u8>)
    requires
        s.len() < 12 || s[0] != 0 || s[1] != 4,
    ensures
        redirection::redirection(s) == if s.len() < 12 {
            (
                s,
                Err::<Redirection, Fault>(
                    Fault::NotEnoughBytes { received: s.len() as int, expected: 12 },
                ),
            )
        } else {
            (
                s.skip(2),
                Err::<Redirection, Fault>(
                    Fault::InvalidField {
                        field: "flags"@,
                        reason: "expected SEC_REDIRECTION_PKT (0x0400)"@,
                    },
                ),
            )
        },
{
}

/// A redirection packet is refused where one of its fields is not all there: the length in front of
/// it, or the bytes that the length counts. The fields in front of it are passed over.
pub proof fn law_cut_redirection_is_refused(s: Seq<u8>, fields: Seq<Option<Seq<u8>>>, tail: Seq<u8>)
    requires
        s.len() >= 12,
        s[0] == 0 && s[1] == 4,
        fields.len() < 11,
        ({
            let bits = number32(s[8], s[9], s[10], s[11]) as u32;
            &&& forall|j: int|
                0 <= j < fields.len() ==> (#[trigger] fields[j] is Some <==> bits
                    & announcing_bit(j) != 0)
            &&& bits & announcing_bit(fields.len() as int) != 0
        }),
        forall|j: int|
            0 <= j < fields.len() ==> (#[trigger] fields[j] matches Some(field) ==> field.len()
                <= u32::MAX),
        s.skip(12) == fields_on_the_wire(fields, 0) + tail,
        tail.len() < 4 || tail.len() - 4 < number32(tail[0], tail[1], tail[2], tail[3]),
    ensures
        redirection::redirection(s) == if tail.len() < 4 {
            (
                tail,
                Err::<Redirection, Fault>(
                    Fault::NotEnoughBytes { received: tail.len() as int, expected: 4 },
                ),
            )
        } else {
            (
                tail.skip(4),
                Err::<Redirection, Fault>(
                    Fault::NotEnoughBytes {
                        received: tail.len() - 4,
                        expected: number32(tail[0], tail[1], tail[2], tail[3]),
                    },
                ),
            )
        },
{
    let flags = RedirectionFlags { bits: bytes::le32(s, 8) as u32 };
    assert(fields.take(0) =~= Seq::empty());
    lemma_fields_passed(fields, flags, 0, tail);
    lemma_bit_is_flag(flags.bits, fields.len() as int);
}

proof fn lemma_fields_passed(
    fields: Seq<Option<Seq<u8>>>,
    flags: RedirectionFlags,
    k: int,
    tail: Seq<u8>,
)
    requires
        0 <= k <= fields.len() <= 11,
        forall|j: int|
            0 <= j < fields.len() ==> (#[trigger] fields[j] is Some <==> flags.bits
                & announcing_bit(j) != 0),
        forall|j: int|
            0 <= j < fields.len() ==> (#[trigger] fields[j] matches Some(field) ==> field.len()
                <= u32::MAX),
    ensures
        redirection::optional_fields(
            fields_on_the_wire(fields, k) + tail,
            flags,
            k,
            fields.take(k),
        ) == redirection::optional_fields(tail, flags, fields.len() as int, fields),
    decreases fields.len() - k,
{
    let s = fields_on_the_wire(fields, k) + tail;
    if k == fields.len() {
        assert(s =~= tail);
        assert(fields.take(k) =~= fields);
    } else {
        lemma_fields_passed(fields, flags, k + 1, tail);
        lemma_bit_is_flag(flags.bits, k);
        assert(fields.take(k + 1) =~= fields.take(k).push(fields[k]));
        let behind = fields_on_the_wire(fields, k + 1) + tail;
        if let Some(field) = fields[k] {
            let more = fields_on_the_wire(fields, k + 1);
            lemma_regroup(length_in_front(field) + field, more, tail);
            lemma_field_found(field, behind);
        }
    }
}

/// What is written of a redirection packet, where that ends well: the marker, the length of the
/// whole, the session, the flags, and the fields that it has, in order. It ends well where the
/// length has 16 bits.
#[verifier::rlimit(30)]
pub proof fn law_redirection_is_written_in_its_places(packet: Redirection)
    requires
        packet.fields.len() == 11,
    ensures
        packet.encoded().1 is Ok <==> packet.wire_size() <= 0xFFFF,
        packet.wire_size() == 12 + fields_on_the_wire(packet.fields, 0).len(),
        packet.encoded().1 is Ok ==> {
            let s = packet.encoded().0;
            &&& s.len() == packet.wire_size() == number16(s[2], s[3])
            &&& s[0] == 0 && s[1] == 4
            &&& packet.session_id == number32(s[4], s[5], s[6], s[7])
            &&& packet.flags.bits == number32(s[8], s[9], s[10], s[11])
            &&& s.skip(12) == fields_on_the_wire(packet.fields, 0)
        },
{
    let marker = bytes::le16_bytes(redirection::SEC_REDIRECTION_PKT_MARKER);
    let size = bytes::le16_bytes(packet.wire_size() as u16);
    let session = bytes::le32_bytes(packet.session_id);
    let flags = bytes::le32_bytes(packet.flags.bits);
    let fields = redirection::encoded_fields(packet.fields, 11);
    redirection::lemma_fields_size(packet.fields, 11);
    lemma_sizes_agree(packet.fields, 0);
    assert(redirection::fields_size(packet.fields, 0) == 0);
    if packet.wire_size() <= 0xFFFF {
        lemma_fields_agree(packet.fields, 0);
        assert(redirection::encoded_fields(packet.fields, 0) + fields_on_the_wire(
            packet.fields,
            0,
        ) =~= fields_on_the_wire(packet.fields, 0));
        lemma_packet_parts(marker, size, session, flags, fields);
        lemma_two_bytes(packet.wire_size() as u16);
        lemma_four_bytes(packet.session_id);
        lemma_four_bytes(packet.flags.bits);
    }
}

proof fn lemma_two_bytes(v: u16)
    ensures
        bytes::le16_bytes(v).len() == 2,
        number16(bytes::le16_bytes(v)[0], bytes::le16_bytes(v)[1]) == v,
{
}

proof fn lemma_four_bytes(v: u32)
    ensures
        ({
            let s = bytes::le32_bytes(v);
            s.len() == 4 && number32(s[0], s[1], s[2], s[3]) == v
        }),
{
}

proof fn lemma_packet_parts(
    marker: Seq<u8>,
    size: Seq<u8>,
    session: Seq<u8>,
    flags: Seq<u8>,
    fields: Seq<u8>,
)
    requires
        marker.len() == 2 && size.len() == 2 && session.len() == 4 && flags.len() == 4,
    ensures
        ({
            let s = marker + size + session + flags + fields;
            &&& s.len() == 12 + fields.len()
            &&& s[0] == marker[0] && s[1] == marker[1]
            &&& s[2] == size[0] && s[3] == size[1]
            &&& s[4] == session[0] && s[5] == session[1] && s[6] == session[2] && s[7] == session[3]
            &&& s[8] == flags[0] && s[9] == flags[1] && s[10] == flags[2] && s[11] == flags[3]
            &&& s.skip(12) == fields
        }),
{
    let s = marker + size + session + flags + fields;
    assert(s.skip(12) =~= fields);
}

proof fn lemma_sizes_agree(fields: Seq<Option<Seq<u8>>>, k: int)
    requires
        fields.len() == 11,
        0 <= k <= 11,
    ensures
        redirection::fields_size(fields, k) + fields_on_the_wire(fields, k).len()
            == redirection::fields_size(fields, 11),
    decreases 11 - k,
{
    if k < 11 {
        lemma_sizes_agree(fields, k + 1);
    }
}

proof fn lemma_fields_agree(fields: Seq<Option<Seq<u8>>>, k: int)
    requires
        fields.len() == 11,
        0 <= k <= 11,
        redirection::fields_size(fields, 11) <= 0xFFFF,
    ensures
        redirection::encoded_fields(fields, k) + fields_on_the_wire(fields, k)
            == redirection::encoded_fields(fields, 11),
    decreases 11 - k,
{
    if k < 11 {
        lemma_fields_agree(fields, k + 1);
        redirection::lemma_fields_size(fields, k);
        redirection::lemma_fields_size_grows(fields, k + 1, 11);
        let here = redirection::encoded_field(fields[k]);
        assert(fields_on_the_wire(fields, k) =~= here + fields_on_the_wire(fields, k + 1));
        assert(redirection::encoded_fields(fields, k) + (here + fields_on_the_wire(fields, k + 1))
            =~= (redirection::encoded_fields(fields, k) + here) + fields_on_the_wire(
            fields,
            k + 1,
        ));
    } else {
        assert(redirection::encoded_fields(fields, 11) + Seq::<u8>::empty()
            =~= redirection::encoded_fields(fields, 11));
    }
}

/// A basic security header is four bytes: sixteen flags, every one of which is kept, and two bytes
/// that are not looked at and are written as zero.
pub proof fn law_security_header_stands_in_its_places(s: Seq<u8>, header: BasicSecurityHeader)
    ensures
        security::security_header(s).1 is Ok <==> s.len() >= 4,
        security::security_header(s).1 matches Ok(h) ==> {
            &&& h.flags.bits == number16(s[0], s[1])
            &&& security::security_header(s).0 == s.skip(4)
        },
        security::security_header(s).1 matches Err(fault) ==> fault == (Fault::NotEnoughBytes {
            received: s.len() as int,
            expected: 4,
        }),
        header.encoded().len() == 4,
        number16(header.encoded()[0], header.encoded()[1]) == header.flags.bits,
        header.encoded()[2] == 0 && header.encoded()[3] == 0,
{
}

/// The flags have their bits.
pub proof fn law_flags_have_their_bits()
    ensures
        CompressionFlags::COMPRESSED == 0x20,
        CompressionFlags::AT_FRONT == 0x40,
        CompressionFlags::FLUSHED == 0x80,
        BasicSecurityHeaderFlags::EXCHANGE_PKT == 0x1,
        BasicSecurityHeaderFlags::TRANSPORT_REQ == 0x2,
        BasicSecurityHeaderFlags::TRANSPORT_RSP == 0x4,
        BasicSecurityHeaderFlags::ENCRYPT == 0x8,
        BasicSecurityHeaderFlags::RESET_SEQNO == 0x10,
        BasicSecurityHeaderFlags::IGNORE_SEQNO == 0x20,
        BasicSecurityHeaderFlags::INFO_PKT == 0x40,
        BasicSecurityHeaderFlags::LICENSE_PKT == 0x80,
        BasicSecurityHeaderFlags::LICENSE_ENCRYPT_CS == 0x100,
        BasicSecurityHeaderFlags::LICENSE_ENCRYPT_SC == 0x200,
        BasicSecurityHeaderFlags::REDIRECTION_PKT == 0x400,
        BasicSecurityHeaderFlags::SECURE_CHECKSUM == 0x800,
        BasicSecurityHeaderFlags::AUTODETECT_REQ == 0x1000,
        BasicSecurityHeaderFlags::AUTODETECT_RSP == 0x2000,
        BasicSecurityHeaderFlags::HEARTBEAT == 0x4000,
        BasicSecurityHeaderFlags::FLAGSHI_VALID == 0x8000,
{
}

/// A header that is completed is the one that was read, with the bytes of its PDU.
pub proof fn law_completed_header_keeps_what_was_read(
    data: PendingShareData,
    control: PendingShareControl,
    body: Seq<u8>,
)
    ensures
        ({
            let h = data.with(body);
            &&& h.pdu.kind == data.kind
            &&& h.pdu.body == body
            &&& h.stream_priority == data.stream_priority
            &&& h.compression_flags.bits == data.compression_flags.bits
            &&& h.compression_type == data.compression_type
        }),
        ({
            let h = control.with(body);
            &&& h.pdu_source == control.pdu_source
            &&& h.share_id == control.share_id
            &&& match control.pdu {
                PendingControlPdu::ServerDemandActive => h.pdu == ControlPdu::ServerDemandActive(
                    body,
                ),
                PendingControlPdu::ClientConfirmActive => h.pdu == ControlPdu::ClientConfirmActive(
                    body,
                ),
                PendingControlPdu::Data(pending) => h.pdu == ControlPdu::Data(pending.with(body)),
            }
        }),
{
}

/// The values that stand for the headers hold every field of them.
pub proof fn law_values_hold_every_field(
    data: ShareDataHeader,
    control: ShareControlHeader,
    packet: RdpServerRedirectionPacket,
)
    ensures
        data@.pdu == data.share_data_pdu@,
        data@.stream_priority == data.stream_priority,
        data@.compression_flags.bits == data.compression_flags.bits,
        data@.compression_type == data.compression_type,
        control@.pdu == control.share_control_pdu@,
        control@.pdu_source == control.pdu_source,
        control@.share_id == control.share_id,
        packet@.session_id == packet.session_id,
        packet@.flags.bits == packet.flags.bits,
        packet@.fields.len() == 11,
        packet@.fields[0] == value_of(packet.target_net_address),
        packet@.fields[1] == value_of(packet.load_balance_info),
        packet@.fields[2] == value_of(packet.user_name),
        packet@.fields[3] == value_of(packet.domain),
        packet@.fields[4] == value_of(packet.password),
        packet@.fields[5] == value_of(packet.target_fqdn),
        packet@.fields[6] == value_of(packet.target_netbios_name),
        packet@.fields[7] == value_of(packet.tsv_url),
        packet@.fields[8] == value_of(packet.redirection_guid),
        packet@.fields[9] == value_of(packet.target_certificate),
        packet@.fields[10] == value_of(packet.target_net_addresses),
{
}

/// An optional field's bytes.
pub open spec fn value_of(field: Option<Vec<u8>>) -> Option<Seq<u8>> {
    match field {
        Some(v) => Some(v@),
        None => None,
    }
}

/// Flags are contained together if and only if each is.
pub proof fn law_flags_are_contained_one_by_one(flags: RedirectionFlags, a: u32, b: u32)
    ensures
        flags.has(a | b) <==> flags.has(a) && flags.has(b),
        flags.has(0),
        flags.has(flags.bits),
        (RedirectionFlags { bits: 0 }).has(a) <==> a == 0,
{
    let bits = flags.bits;
    assert(bits & (a | b) == (a | b) <==> bits & a == a && bits & b == b) by (bit_vector);
    assert(bits & 0 == 0) by (bit_vector);
    assert(bits & bits == bits) by (bit_vector);
    assert(0 & a == 0) by (bit_vector);
}

} // verus!
