//! What PDUs are called, and what is left of one that could not be written.

use crate::bytes;
use crate::headers::error::Fault;
use crate::headers::redirection::Redirection;
use crate::headers::share_control::{ControlHeader, ControlPdu};
use crate::headers::share_data::{DataHeader, ShareDataPduKind};
use crate::headers::{redirection, share_control, wire};
use vstd::prelude::*;

verus! {

/// The names of the data PDUs, by the number of their kind. Number 0x3B stands for two kinds, which
/// have names of their own.
pub open spec fn name_of_number(number: int) -> Seq<char> {
    if number == 0x02 {
        "Update PDU"@
    } else if number == 0x14 {
        "Control PDU"@
    } else if number == 0x1B {
        "Pointer PDU"@
    } else if number == 0x1C {
        "Server Input PDU"@
    } else if number == 0x1F {
        "Synchronize PDU"@
    } else if number == 0x21 {
        "Refresh Rectangle PDU"@
    } else if number == 0x22 {
        "Play Sound PDU"@
    } else if number == 0x23 {
        "Suppress Output PDU"@
    } else if number == 0x24 {
        "Shutdown Request PDU"@
    } else if number == 0x25 {
        "Shutdown Denied PDU"@
    } else if number == 0x26 {
        "Save session info PDU"@
    } else if number == 0x27 {
        "FontList PDU"@
    } else if number == 0x28 {
        "Font Map PDU"@
    } else if number == 0x29 {
        "Set Keyboard Indicators PDU"@
    } else if number == 0x2B {
        "Bitmap Cache Persistent List PDU"@
    } else if number == 0x2C {
        "Bitmap Cache Error PDU"@
    } else if number == 0x2D {
        "Set Keyboard IME Status PDU"@
    } else if number == 0x2E {
        "Offscreen Cache Error PDU"@
    } else if number == 0x2F {
        "Server Set Error Info PDU"@
    } else if number == 0x30 {
        "Draw Nine Grid Error PDU"@
    } else if number == 0x31 {
        "Draw GDI PUS Error PDU"@
    } else if number == 0x32 {
        "Arc Status PDU"@
    } else if number == 0x36 {
        "Status Info PDU"@
    } else if number == 0x37 {
        "Monitor Layout PDU"@
    } else if number == 0x38 {
        "Frame Acknowledge PDU"@
    } else {
        "Auto-Detect Request PDU"@
    }
}

/// What the PDUs are called.
pub proof fn law_pdus_have_their_names(kind: ShareDataPduKind, pdu: ControlPdu)
    ensures
        kind.short_name() == if kind is AutoDetectRsp {
            "Auto-Detect Response PDU"@
        } else {
            name_of_number(wire::data_number(kind))
        },
        pdu.short_name() == match pdu {
            ControlPdu::ServerDemandActive(_) => "Server Demand Active PDU"@,
            ControlPdu::ClientConfirmActive(_) => "Client Confirm Active PDU"@,
            ControlPdu::ServerDeactivateAll => "Server Deactivate All PDU"@,
            ControlPdu::Data(_) => "Data PDU"@,
            ControlPdu::ServerRedirect(_) => "Server Redirection PDU"@,
        },
{
}

/// Why a data header is not written, and what has been written of it by then: nothing where it has
/// compression flags, the first two bytes where the PDU is too long, and the eight bytes in front
/// of the PDU where the PDU is of a kind that is kept as it came.
pub proof fn law_unwritten_data_header_is_begun(h: DataHeader)
    requires
        h.encoded().1 is Err,
    ensures
        ({
            let (s, end) = h.encoded();
            if h.compression_flags.bits != 0 {
                &&& s.len() == 0
                &&& end->Err_0 == (Fault::Other { description: "Compression is not implemented"@ })
            } else if h.pdu.body.len() > 0xFFFF {
                &&& s == seq![0u8, wire::priority_number(h.stream_priority) as u8]
                &&& end->Err_0 == (Fault::InvalidField {
                    field: "uncompressedLength"@,
                    reason: "too many elements"@,
                })
            } else {
                &&& s.len() == 8
                &&& s[0] == 0
                &&& s[1] == wire::priority_number(h.stream_priority)
                &&& wire::number16(s[2], s[3]) == h.pdu.body.len()
                &&& s[4] == wire::data_number(h.pdu.kind)
                &&& s[5] == wire::compression_number(h.compression_type)
                &&& s[6] == 0 && s[7] == 0
                &&& end->Err_0 == (Fault::Other { description: "Encoding not implemented"@ })
            }
        }),
{
}

/// Why a redirection packet is not written, and what has been written of it by then: its marker.
pub proof fn law_unwritten_redirection_is_begun(packet: Redirection)
    requires
        packet.encoded().1 is Err,
    ensures
        packet.wire_size() > 0xFFFF,
        packet.encoded().0 == seq![0x00u8, 0x04u8],
        packet.encoded().1->Err_0 == (Fault::InvalidField {
            field: "length"@,
            reason: "too many elements"@,
        }),
{
    assert(bytes::le16_bytes(redirection::SEC_REDIRECTION_PKT_MARKER) =~= seq![0x00u8, 0x04u8]);
}

/// Why a share control header is not written, and what has been written of it by then: nothing
/// where the whole is too long, and else the header, and what is written of the PDU.
pub proof fn law_unwritten_control_header_is_begun(h: ControlHeader)
    requires
        h.encoded().1 is Err,
    ensures
        ({
            let (s, end) = h.encoded();
            if h.wire_size() > 0xFFFF {
                &&& s.len() == 0
                &&& end->Err_0 == (Fault::InvalidField {
                    field: "len"@,
                    reason: "too many elements"@,
                })
            } else {
                &&& h.pdu matches ControlPdu::Data(data) && data.encoded() == (s.skip(10), end)
                &&& wire::number16(s[0], s[1]) == h.wire_size()
                &&& s[2] == 0x17 && s[3] == 0
                &&& wire::number16(s[4], s[5]) == h.pdu_source
                &&& wire::number32(s[6], s[7], s[8], s[9]) == h.share_id
            }
        }),
{
    let s = h.encoded().0;
    if h.wire_size() <= 0xFFFF {
        share_control::lemma_control_size(h.pdu);
        if h.pdu is Data {
            assert(s.skip(10) =~= h.pdu.encoded().0);
        }
    }
}

} // verus!
