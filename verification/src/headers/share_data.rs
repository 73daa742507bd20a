//! Data PDUs and their header.

use crate::bytes;
use crate::headers::codes::{
    CompressionFlags, CompressionType, ShareDataPduType, StreamPriority,
};
use crate::headers::cursor;
use crate::headers::cursor::put;
use crate::headers::error;
use crate::headers::error::{DecodeResult, EncodeResult, Fault, PduError};
use ironrdp_core::{read_padding, write_padding, ReadCursor, WriteCursor};
use vstd::prelude::*;
use vstd::slice::slice_to_vec;

verus! {

/// The low four bits of the byte that holds the compression flags: the kind of compression.
pub const SHARE_DATA_HEADER_COMPRESSION_MASK: u8 = 0xF;

/// A PDU that has a decoder and an encoder of its own, as it is on the wire.
#[derive(Clone, Debug, PartialEq, Eq)]
pub struct InnerPdu {
    pub image: Vec<u8>,
}

/// What decoding leads to: a value, or the point where the decoder of an inner PDU has to go on.
#[derive(Clone, Debug, PartialEq, Eq)]
pub enum Decoded<T, P> {
    Complete(T),
    Inner(P),
}

/// The kinds of data PDUs. Auto-detect requests and responses are of one type.
#[derive(Clone, Copy, Debug, PartialEq, Eq, Structural)]
pub enum ShareDataPduKind {
    Synchronize,
    Control,
    FontList,
    FontMap,
    MonitorLayout,
    SaveSessionInfo,
    FrameAcknowledge,
    ServerSetErrorInfo,
    Input,
    ShutdownRequest,
    ShutdownDenied,
    SuppressOutput,
    RefreshRectangle,
    Update,
    Pointer,
    PlaySound,
    SetKeyboardIndicators,
    BitmapCachePersistentList,
    BitmapCacheErrorPdu,
    SetKeyboardImeStatus,
    OffscreenCacheErrorPdu,
    DrawNineGridErrorPdu,
    DrawGdiPusErrorPdu,
    ArcStatusPdu,
    StatusInfoPdu,
    AutoDetectReq,
    AutoDetectRsp,
}

impl ShareDataPduKind {
    /// The type that stands for the kind on the wire.
    pub open spec fn pdu_type(self) -> ShareDataPduType {
        match self {
            ShareDataPduKind::Synchronize => ShareDataPduType::Synchronize,
            ShareDataPduKind::Control => ShareDataPduType::Control,
            ShareDataPduKind::FontList => ShareDataPduType::FontList,
            ShareDataPduKind::FontMap => ShareDataPduType::FontMap,
            ShareDataPduKind::MonitorLayout => ShareDataPduType::MonitorLayoutPdu,
            ShareDataPduKind::SaveSessionInfo => ShareDataPduType::SaveSessionInfo,
            ShareDataPduKind::FrameAcknowledge => ShareDataPduType::FrameAcknowledgePdu,
            ShareDataPduKind::ServerSetErrorInfo => ShareDataPduType::SetErrorInfoPdu,
            ShareDataPduKind::Input => ShareDataPduType::Input,
            ShareDataPduKind::ShutdownRequest => ShareDataPduType::ShutdownRequest,
            ShareDataPduKind::ShutdownDenied => ShareDataPduType::ShutdownDenied,
            ShareDataPduKind::SuppressOutput => ShareDataPduType::SuppressOutput,
            ShareDataPduKind::RefreshRectangle => ShareDataPduType::RefreshRectangle,
            ShareDataPduKind::Update => ShareDataPduType::Update,
            ShareDataPduKind::Pointer => ShareDataPduType::Pointer,
            ShareDataPduKind::PlaySound => ShareDataPduType::PlaySound,
            ShareDataPduKind::SetKeyboardIndicators => ShareDataPduType::SetKeyboardIndicators,
            ShareDataPduKind::BitmapCachePersistentList => {
                ShareDataPduType::BitmapCachePersistentList
            },
            ShareDataPduKind::BitmapCacheErrorPdu => ShareDataPduType::BitmapCacheErrorPdu,
            ShareDataPduKind::SetKeyboardImeStatus => ShareDataPduType::SetKeyboardImeStatus,
            ShareDataPduKind::OffscreenCacheErrorPdu => ShareDataPduType::OffscreenCacheErrorPdu,
            ShareDataPduKind::DrawNineGridErrorPdu => ShareDataPduType::DrawNineGridErrorPdu,
            ShareDataPduKind::DrawGdiPusErrorPdu => ShareDataPduType::DrawGdiPusErrorPdu,
            ShareDataPduKind::ArcStatusPdu => ShareDataPduType::ArcStatusPdu,
            ShareDataPduKind::StatusInfoPdu => ShareDataPduType::StatusInfoPdu,
            ShareDataPduKind::AutoDetectReq => ShareDataPduType::AutoDetect,
            ShareDataPduKind::AutoDetectRsp => ShareDataPduType::AutoDetect,
        }
    }

    /// PDUs of the kind have a decoder of their own.
    pub open spec fn is_inner(self) -> bool {
        match self {
            ShareDataPduKind::ShutdownRequest => false,
            ShareDataPduKind::ShutdownDenied => false,
            ShareDataPduKind::Update => false,
            ShareDataPduKind::Pointer => false,
            ShareDataPduKind::PlaySound => false,
            ShareDataPduKind::SetKeyboardIndicators => false,
            ShareDataPduKind::BitmapCachePersistentList => false,
            ShareDataPduKind::BitmapCacheErrorPdu => false,
            ShareDataPduKind::SetKeyboardImeStatus => false,
            ShareDataPduKind::OffscreenCacheErrorPdu => false,
            ShareDataPduKind::DrawNineGridErrorPdu => false,
            ShareDataPduKind::DrawGdiPusErrorPdu => false,
            ShareDataPduKind::ArcStatusPdu => false,
            ShareDataPduKind::StatusInfoPdu => false,
            _ => true,
        }
    }

    /// PDUs of the kind have no body.
    pub open spec fn is_bare(self) -> bool {
        self == ShareDataPduKind::ShutdownRequest || self == ShareDataPduKind::ShutdownDenied
    }

    /// PDUs of the kind are kept as they came, and are not written.
    pub open spec fn is_raw(self) -> bool {
        !self.is_inner() && !self.is_bare()
    }

    /// The kind's name.
    pub open spec fn short_name(self) -> Seq<char> {
        match self {
            ShareDataPduKind::Synchronize => "Synchronize PDU"@,
            ShareDataPduKind::Control => "Control PDU"@,
            ShareDataPduKind::FontList => "FontList PDU"@,
            ShareDataPduKind::FontMap => "Font Map PDU"@,
            ShareDataPduKind::MonitorLayout => "Monitor Layout PDU"@,
            ShareDataPduKind::SaveSessionInfo => "Save session info PDU"@,
            ShareDataPduKind::FrameAcknowledge => "Frame Acknowledge PDU"@,
            ShareDataPduKind::ServerSetErrorInfo => "Server Set Error Info PDU"@,
            ShareDataPduKind::Input => "Server Input PDU"@,
            ShareDataPduKind::ShutdownRequest => "Shutdown Request PDU"@,
            ShareDataPduKind::ShutdownDenied => "Shutdown Denied PDU"@,
            ShareDataPduKind::SuppressOutput => "Suppress Output PDU"@,
            ShareDataPduKind::RefreshRectangle => "Refresh Rectangle PDU"@,
            ShareDataPduKind::Update => "Update PDU"@,
            ShareDataPduKind::Pointer => "Pointer PDU"@,
            ShareDataPduKind::PlaySound => "Play Sound PDU"@,
            ShareDataPduKind::SetKeyboardIndicators => "Set Keyboard Indicators PDU"@,
            ShareDataPduKind::BitmapCachePersistentList => "Bitmap Cache Persistent List PDU"@,
            ShareDataPduKind::BitmapCacheErrorPdu => "Bitmap Cache Error PDU"@,
            ShareDataPduKind::SetKeyboardImeStatus => "Set Keyboard IME Status PDU"@,
            ShareDataPduKind::OffscreenCacheErrorPdu => "Offscreen Cache Error PDU"@,
            ShareDataPduKind::DrawNineGridErrorPdu => "Draw Nine Grid Error PDU"@,
            ShareDataPduKind::DrawGdiPusErrorPdu => "Draw GDI PUS Error PDU"@,
            ShareDataPduKind::ArcStatusPdu => "Arc Status PDU"@,
            ShareDataPduKind::StatusInfoPdu => "Status Info PDU"@,
            ShareDataPduKind::AutoDetectReq => "Auto-Detect Request PDU"@,
            ShareDataPduKind::AutoDetectRsp => "Auto-Detect Response PDU"@,
        }
    }

    /// Makes a PDU of the kind from the bytes of an inner PDU.
    pub fn wrap(self, pdu: InnerPdu) -> (r: ShareDataPdu)
        requires
            self.is_inner(),
        ensures
            r@ == (DataPdu { kind: self, body: pdu.image@ }),
    {
        match self {
            ShareDataPduKind::Synchronize => ShareDataPdu::Synchronize(pdu),
            ShareDataPduKind::Control => ShareDataPdu::Control(pdu),
            ShareDataPduKind::FontList => ShareDataPdu::FontList(pdu),
            ShareDataPduKind::FontMap => ShareDataPdu::FontMap(pdu),
            ShareDataPduKind::MonitorLayout => ShareDataPdu::MonitorLayout(pdu),
            ShareDataPduKind::SaveSessionInfo => ShareDataPdu::SaveSessionInfo(pdu),
            ShareDataPduKind::FrameAcknowledge => ShareDataPdu::FrameAcknowledge(pdu),
            ShareDataPduKind::ServerSetErrorInfo => ShareDataPdu::ServerSetErrorInfo(pdu),
            ShareDataPduKind::Input => ShareDataPdu::Input(pdu),
            ShareDataPduKind::SuppressOutput => ShareDataPdu::SuppressOutput(pdu),
            ShareDataPduKind::RefreshRectangle => ShareDataPdu::RefreshRectangle(pdu),
            ShareDataPduKind::AutoDetectReq => ShareDataPdu::AutoDetectReq(pdu),
            _ => ShareDataPdu::AutoDetectRsp(pdu),
        }
    }
}

/// A data PDU.
#[derive(Clone, Debug, PartialEq, Eq)]
pub enum ShareDataPdu {
    Synchronize(InnerPdu),
    Control(InnerPdu),
    FontList(InnerPdu),
    FontMap(InnerPdu),
    MonitorLayout(InnerPdu),
    SaveSessionInfo(InnerPdu),
    FrameAcknowledge(InnerPdu),
    ServerSetErrorInfo(InnerPdu),
    Input(InnerPdu),
    ShutdownRequest,
    ShutdownDenied,
    SuppressOutput(InnerPdu),
    RefreshRectangle(InnerPdu),
    Update(Vec<u8>),
    Pointer(Vec<u8>),
    PlaySound(Vec<u8>),
    SetKeyboardIndicators(Vec<u8>),
    BitmapCachePersistentList(Vec<u8>),
    BitmapCacheErrorPdu(Vec<u8>),
    SetKeyboardImeStatus(Vec<u8>),
    OffscreenCacheErrorPdu(Vec<u8>),
    DrawNineGridErrorPdu(Vec<u8>),
    DrawGdiPusErrorPdu(Vec<u8>),
    ArcStatusPdu(Vec<u8>),
    StatusInfoPdu(Vec<u8>),
    AutoDetectReq(InnerPdu),
    AutoDetectRsp(InnerPdu),
}

/// A data PDU as a value.
#[verifier::ext_equal]
pub struct DataPdu {
    pub kind: ShareDataPduKind,
    pub body: Seq<u8>,
}

impl View for ShareDataPdu {
    type V = DataPdu;

    open spec fn view(&self) -> DataPdu {
        DataPdu { kind: self.kind(), body: self.body() }
    }
}

impl ShareDataPdu {
    /// The kind of the PDU.
    pub open spec fn kind(&self) -> ShareDataPduKind {
        match *self {
            ShareDataPdu::Synchronize(_) => ShareDataPduKind::Synchronize,
            ShareDataPdu::Control(_) => ShareDataPduKind::Control,
            ShareDataPdu::FontList(_) => ShareDataPduKind::FontList,
            ShareDataPdu::FontMap(_) => ShareDataPduKind::FontMap,
            ShareDataPdu::MonitorLayout(_) => ShareDataPduKind::MonitorLayout,
            ShareDataPdu::SaveSessionInfo(_) => ShareDataPduKind::SaveSessionInfo,
            ShareDataPdu::FrameAcknowledge(_) => ShareDataPduKind::FrameAcknowledge,
            ShareDataPdu::ServerSetErrorInfo(_) => ShareDataPduKind::ServerSetErrorInfo,
            ShareDataPdu::Input(_) => ShareDataPduKind::Input,
            ShareDataPdu::ShutdownRequest => ShareDataPduKind::ShutdownRequest,
            ShareDataPdu::ShutdownDenied => ShareDataPduKind::ShutdownDenied,
            ShareDataPdu::SuppressOutput(_) => ShareDataPduKind::SuppressOutput,
            ShareDataPdu::RefreshRectangle(_) => ShareDataPduKind::RefreshRectangle,
            ShareDataPdu::Update(_) => ShareDataPduKind::Update,
            ShareDataPdu::Pointer(_) => ShareDataPduKind::Pointer,
            ShareDataPdu::PlaySound(_) => ShareDataPduKind::PlaySound,
            ShareDataPdu::SetKeyboardIndicators(_) => ShareDataPduKind::SetKeyboardIndicators,
            ShareDataPdu::BitmapCachePersistentList(_) => {
                ShareDataPduKind::BitmapCachePersistentList
            },
            ShareDataPdu::BitmapCacheErrorPdu(_) => ShareDataPduKind::BitmapCacheErrorPdu,
            ShareDataPdu::SetKeyboardImeStatus(_) => ShareDataPduKind::SetKeyboardImeStatus,
            ShareDataPdu::OffscreenCacheErrorPdu(_) => ShareDataPduKind::OffscreenCacheErrorPdu,
            ShareDataPdu::DrawNineGridErrorPdu(_) => ShareDataPduKind::DrawNineGridErrorPdu,
            ShareDataPdu::DrawGdiPusErrorPdu(_) => ShareDataPduKind::DrawGdiPusErrorPdu,
            ShareDataPdu::ArcStatusPdu(_) => ShareDataPduKind::ArcStatusPdu,
            ShareDataPdu::StatusInfoPdu(_) => ShareDataPduKind::StatusInfoPdu,
            ShareDataPdu::AutoDetectReq(_) => ShareDataPduKind::AutoDetectReq,
            ShareDataPdu::AutoDetectRsp(_) => ShareDataPduKind::AutoDetectRsp,
        }
    }

    /// The bytes of the PDU.
    pub open spec fn body(&self) -> Seq<u8> {
        match *self {
            ShareDataPdu::Synchronize(pdu) => pdu.image@,
            ShareDataPdu::Control(pdu) => pdu.image@,
            ShareDataPdu::FontList(pdu) => pdu.image@,
            ShareDataPdu::FontMap(pdu) => pdu.image@,
            ShareDataPdu::MonitorLayout(pdu) => pdu.image@,
            ShareDataPdu::SaveSessionInfo(pdu) => pdu.image@,
            ShareDataPdu::FrameAcknowledge(pdu) => pdu.image@,
            ShareDataPdu::ServerSetErrorInfo(pdu) => pdu.image@,
            ShareDataPdu::Input(pdu) => pdu.image@,
            ShareDataPdu::ShutdownRequest => Seq::empty(),
            ShareDataPdu::ShutdownDenied => Seq::empty(),
            ShareDataPdu::SuppressOutput(pdu) => pdu.image@,
            ShareDataPdu::RefreshRectangle(pdu) => pdu.image@,
            ShareDataPdu::Update(body) => body@,
            ShareDataPdu::Pointer(body) => body@,
            ShareDataPdu::PlaySound(body) => body@,
            ShareDataPdu::SetKeyboardIndicators(body) => body@,
            ShareDataPdu::BitmapCachePersistentList(body) => body@,
            ShareDataPdu::BitmapCacheErrorPdu(body) => body@,
            ShareDataPdu::SetKeyboardImeStatus(body) => body@,
            ShareDataPdu::OffscreenCacheErrorPdu(body) => body@,
            ShareDataPdu::DrawNineGridErrorPdu(body) => body@,
            ShareDataPdu::DrawGdiPusErrorPdu(body) => body@,
            ShareDataPdu::ArcStatusPdu(body) => body@,
            ShareDataPdu::StatusInfoPdu(body) => body@,
            ShareDataPdu::AutoDetectReq(pdu) => pdu.image@,
            ShareDataPdu::AutoDetectRsp(pdu) => pdu.image@,
        }
    }
}

/// Copies what a cursor has left, and leaves it.
fn rest_of(src: &ReadCursor<'_>) -> (r: Vec<u8>)
    ensures
        r@ == cursor::unread(*src),
{
    slice_to_vec(src.remaining())
}

/// The kind of a PDU whose type stands for one kind.
pub open spec fn kind_of(t: ShareDataPduType) -> ShareDataPduKind {
    match t {
        ShareDataPduType::Synchronize => ShareDataPduKind::Synchronize,
        ShareDataPduType::Control => ShareDataPduKind::Control,
        ShareDataPduType::FontList => ShareDataPduKind::FontList,
        ShareDataPduType::FontMap => ShareDataPduKind::FontMap,
        ShareDataPduType::MonitorLayoutPdu => ShareDataPduKind::MonitorLayout,
        ShareDataPduType::SaveSessionInfo => ShareDataPduKind::SaveSessionInfo,
        ShareDataPduType::FrameAcknowledgePdu => ShareDataPduKind::FrameAcknowledge,
        ShareDataPduType::SetErrorInfoPdu => ShareDataPduKind::ServerSetErrorInfo,
        ShareDataPduType::Input => ShareDataPduKind::Input,
        ShareDataPduType::ShutdownRequest => ShareDataPduKind::ShutdownRequest,
        ShareDataPduType::ShutdownDenied => ShareDataPduKind::ShutdownDenied,
        ShareDataPduType::SuppressOutput => ShareDataPduKind::SuppressOutput,
        ShareDataPduType::RefreshRectangle => ShareDataPduKind::RefreshRectangle,
        ShareDataPduType::Update => ShareDataPduKind::Update,
        ShareDataPduType::Pointer => ShareDataPduKind::Pointer,
        ShareDataPduType::PlaySound => ShareDataPduKind::PlaySound,
        ShareDataPduType::SetKeyboardIndicators => ShareDataPduKind::SetKeyboardIndicators,
        ShareDataPduType::BitmapCachePersistentList => ShareDataPduKind::BitmapCachePersistentList,
        ShareDataPduType::BitmapCacheErrorPdu => ShareDataPduKind::BitmapCacheErrorPdu,
        ShareDataPduType::SetKeyboardImeStatus => ShareDataPduKind::SetKeyboardImeStatus,
        ShareDataPduType::OffscreenCacheErrorPdu => ShareDataPduKind::OffscreenCacheErrorPdu,
        ShareDataPduType::DrawNineGridErrorPdu => ShareDataPduKind::DrawNineGridErrorPdu,
        ShareDataPduType::DrawGdiPusErrorPdu => ShareDataPduKind::DrawGdiPusErrorPdu,
        ShareDataPduType::ArcStatusPdu => ShareDataPduKind::ArcStatusPdu,
        ShareDataPduType::StatusInfoPdu => ShareDataPduKind::StatusInfoPdu,
        ShareDataPduType::AutoDetect => ShareDataPduKind::AutoDetectReq,
    }
}

/// The PDU of type `t` at the start of `s`: what is left, and the PDU, or the kind whose decoder
/// goes on, or the fault. What is kept as it came is not passed over.
pub open spec fn data_pdu(s: Seq<u8>, t: ShareDataPduType) -> (
    Seq<u8>,
    Result<Decoded<DataPdu, ShareDataPduKind>, Fault>,
) {
    if t == ShareDataPduType::AutoDetect {
        if s.len() < 2 {
            (s, Err(error::not_enough(s.len() as int, 2)))
        } else if s[1] == 0 {
            (s, Ok(Decoded::Inner(ShareDataPduKind::AutoDetectReq)))
        } else {
            (s, Ok(Decoded::Inner(ShareDataPduKind::AutoDetectRsp)))
        }
    } else {
        let kind = kind_of(t);
        if kind.is_inner() {
            (s, Ok(Decoded::Inner(kind)))
        } else if kind.is_bare() {
            (s, Ok(Decoded::Complete(DataPdu { kind, body: Seq::empty() })))
        } else {
            (s, Ok(Decoded::Complete(DataPdu { kind, body: s })))
        }
    }
}

impl DataPdu {
    /// What is written of the PDU, and how that ends.
    pub open spec fn encoded(self) -> (Seq<u8>, Result<(), Fault>) {
        if self.kind.is_raw() {
            (Seq::empty(), Err(Fault::Other { description: "Encoding not implemented"@ }))
        } else {
            (self.body, Ok(()))
        }
    }

    /// The PDU is one that is told from the others when it is read: one without a body has none,
    /// and the second byte of an auto-detect PDU says which way it goes.
    pub open spec fn wf(self) -> bool {
        &&& self.kind.is_bare() ==> self.body.len() == 0
        &&& self.kind == ShareDataPduKind::AutoDetectReq ==> self.body.len() >= 2 && self.body[1]
            == 0
        &&& self.kind == ShareDataPduKind::AutoDetectRsp ==> self.body.len() >= 2 && self.body[1]
            != 0
    }
}

impl ShareDataPdu {
    /// The name of the PDU.
    pub fn as_short_name(&self) -> (r: &'static str)
        ensures
            r@ == self@.kind.short_name(),
    {
        match self {
            ShareDataPdu::Synchronize(_) => "Synchronize PDU",
            ShareDataPdu::Control(_) => "Control PDU",
            ShareDataPdu::FontList(_) => "FontList PDU",
            ShareDataPdu::FontMap(_) => "Font Map PDU",
            ShareDataPdu::MonitorLayout(_) => "Monitor Layout PDU",
            ShareDataPdu::SaveSessionInfo(_) => "Save session info PDU",
            ShareDataPdu::FrameAcknowledge(_) => "Frame Acknowledge PDU",
            ShareDataPdu::ServerSetErrorInfo(_) => "Server Set Error Info PDU",
            ShareDataPdu::Input(_) => "Server Input PDU",
            ShareDataPdu::ShutdownRequest => "Shutdown Request PDU",
            ShareDataPdu::ShutdownDenied => "Shutdown Denied PDU",
            ShareDataPdu::SuppressOutput(_) => "Suppress Output PDU",
            ShareDataPdu::RefreshRectangle(_) => "Refresh Rectangle PDU",
            ShareDataPdu::Update(_) => "Update PDU",
            ShareDataPdu::Pointer(_) => "Pointer PDU",
            ShareDataPdu::PlaySound(_) => "Play Sound PDU",
            ShareDataPdu::SetKeyboardIndicators(_) => "Set Keyboard Indicators PDU",
            ShareDataPdu::BitmapCachePersistentList(_) => "Bitmap Cache Persistent List PDU",
            ShareDataPdu::BitmapCacheErrorPdu(_) => "Bitmap Cache Error PDU",
            ShareDataPdu::SetKeyboardImeStatus(_) => "Set Keyboard IME Status PDU",
            ShareDataPdu::OffscreenCacheErrorPdu(_) => "Offscreen Cache Error PDU",
            ShareDataPdu::DrawNineGridErrorPdu(_) => "Draw Nine Grid Error PDU",
            ShareDataPdu::DrawGdiPusErrorPdu(_) => "Draw GDI PUS Error PDU",
            ShareDataPdu::ArcStatusPdu(_) => "Arc Status PDU",
            ShareDataPdu::StatusInfoPdu(_) => "Status Info PDU",
            ShareDataPdu::AutoDetectReq(_) => "Auto-Detect Request PDU",
            ShareDataPdu::AutoDetectRsp(_) => "Auto-Detect Response PDU",
        }
    }

    /// The type of the PDU.
    pub fn share_header_type(&self) -> (r: ShareDataPduType)
        ensures
            r == self@.kind.pdu_type(),
    {
        match self {
            ShareDataPdu::Synchronize(_) => ShareDataPduType::Synchronize,
            ShareDataPdu::Control(_) => ShareDataPduType::Control,
            ShareDataPdu::FontList(_) => ShareDataPduType::FontList,
            ShareDataPdu::FontMap(_) => ShareDataPduType::FontMap,
            ShareDataPdu::MonitorLayout(_) => ShareDataPduType::MonitorLayoutPdu,
            ShareDataPdu::SaveSessionInfo(_) => ShareDataPduType::SaveSessionInfo,
            ShareDataPdu::FrameAcknowledge(_) => ShareDataPduType::FrameAcknowledgePdu,
            ShareDataPdu::ServerSetErrorInfo(_) => ShareDataPduType::SetErrorInfoPdu,
            ShareDataPdu::Input(_) => ShareDataPduType::Input,
            ShareDataPdu::ShutdownRequest => ShareDataPduType::ShutdownRequest,
            ShareDataPdu::ShutdownDenied => ShareDataPduType::ShutdownDenied,
            ShareDataPdu::SuppressOutput(_) => ShareDataPduType::SuppressOutput,
            ShareDataPdu::RefreshRectangle(_) => ShareDataPduType::RefreshRectangle,
            ShareDataPdu::Update(_) => ShareDataPduType::Update,
            ShareDataPdu::Pointer(_) => ShareDataPduType::Pointer,
            ShareDataPdu::PlaySound(_) => ShareDataPduType::PlaySound,
            ShareDataPdu::SetKeyboardIndicators(_) => ShareDataPduType::SetKeyboardIndicators,
            ShareDataPdu::BitmapCachePersistentList(_) => {
                ShareDataPduType::BitmapCachePersistentList
            },
            ShareDataPdu::BitmapCacheErrorPdu(_) => ShareDataPduType::BitmapCacheErrorPdu,
            ShareDataPdu::SetKeyboardImeStatus(_) => ShareDataPduType::SetKeyboardImeStatus,
            ShareDataPdu::OffscreenCacheErrorPdu(_) => ShareDataPduType::OffscreenCacheErrorPdu,
            ShareDataPdu::DrawNineGridErrorPdu(_) => ShareDataPduType::DrawNineGridErrorPdu,
            ShareDataPdu::DrawGdiPusErrorPdu(_) => ShareDataPduType::DrawGdiPusErrorPdu,
            ShareDataPdu::ArcStatusPdu(_) => ShareDataPduType::ArcStatusPdu,
            ShareDataPdu::StatusInfoPdu(_) => ShareDataPduType::StatusInfoPdu,
            ShareDataPdu::AutoDetectReq(_) => ShareDataPduType::AutoDetect,
            ShareDataPdu::AutoDetectRsp(_) => ShareDataPduType::AutoDetect,
        }
    }

    /// Reads a PDU of the given type, or tells which decoder has to go on.
    pub fn from_type(src: &mut ReadCursor<'_>, share_type: ShareDataPduType) -> (res: DecodeResult<
        Decoded<Self, ShareDataPduKind>,
    >)
        ensures
            ({
                let (rest, end) = data_pdu(cursor::unread(*old(src)), share_type);
                &&& cursor::unread(*final(src)) == rest
                &&& match end {
                    Ok(Decoded::Complete(pdu)) => res matches Ok(Decoded::Complete(r)) && r@ == pdu,
                    Ok(Decoded::Inner(kind)) => res matches Ok(Decoded::Inner(r)) && r == kind
                        && kind.is_inner(),
                    Err(fault) => res matches Err(e) && e@ == fault,
                }
            }),
    {
        let r = match share_type {
            ShareDataPduType::Synchronize => Decoded::Inner(ShareDataPduKind::Synchronize),
            ShareDataPduType::Control => Decoded::Inner(ShareDataPduKind::Control),
            ShareDataPduType::FontList => Decoded::Inner(ShareDataPduKind::FontList),
            ShareDataPduType::FontMap => Decoded::Inner(ShareDataPduKind::FontMap),
            ShareDataPduType::MonitorLayoutPdu => Decoded::Inner(ShareDataPduKind::MonitorLayout),
            ShareDataPduType::SaveSessionInfo => Decoded::Inner(ShareDataPduKind::SaveSessionInfo),
            ShareDataPduType::FrameAcknowledgePdu => {
                Decoded::Inner(ShareDataPduKind::FrameAcknowledge)
            },
            ShareDataPduType::SetErrorInfoPdu => {
                Decoded::Inner(ShareDataPduKind::ServerSetErrorInfo)
            },
            ShareDataPduType::Input => Decoded::Inner(ShareDataPduKind::Input),
            ShareDataPduType::ShutdownRequest => Decoded::Complete(ShareDataPdu::ShutdownRequest),
            ShareDataPduType::ShutdownDenied => Decoded::Complete(ShareDataPdu::ShutdownDenied),
            ShareDataPduType::SuppressOutput => Decoded::Inner(ShareDataPduKind::SuppressOutput),
            ShareDataPduType::RefreshRectangle => {
                Decoded::Inner(ShareDataPduKind::RefreshRectangle)
            },
            ShareDataPduType::Update => Decoded::Complete(ShareDataPdu::Update(rest_of(src))),
            ShareDataPduType::Pointer => Decoded::Complete(ShareDataPdu::Pointer(rest_of(src))),
            ShareDataPduType::PlaySound => Decoded::Complete(ShareDataPdu::PlaySound(rest_of(src))),
            ShareDataPduType::SetKeyboardIndicators => {
                Decoded::Complete(ShareDataPdu::SetKeyboardIndicators(rest_of(src)))
            },
            ShareDataPduType::BitmapCachePersistentList => {
                Decoded::Complete(ShareDataPdu::BitmapCachePersistentList(rest_of(src)))
            },
            ShareDataPduType::BitmapCacheErrorPdu => {
                Decoded::Complete(ShareDataPdu::BitmapCacheErrorPdu(rest_of(src)))
            },
            ShareDataPduType::SetKeyboardImeStatus => {
                Decoded::Complete(ShareDataPdu::SetKeyboardImeStatus(rest_of(src)))
            },
            ShareDataPduType::OffscreenCacheErrorPdu => {
                Decoded::Complete(ShareDataPdu::OffscreenCacheErrorPdu(rest_of(src)))
            },
            ShareDataPduType::DrawNineGridErrorPdu => {
                Decoded::Complete(ShareDataPdu::DrawNineGridErrorPdu(rest_of(src)))
            },
            ShareDataPduType::DrawGdiPusErrorPdu => {
                Decoded::Complete(ShareDataPdu::DrawGdiPusErrorPdu(rest_of(src)))
            },
            ShareDataPduType::ArcStatusPdu => {
                Decoded::Complete(ShareDataPdu::ArcStatusPdu(rest_of(src)))
            },
            ShareDataPduType::StatusInfoPdu => {
                Decoded::Complete(ShareDataPdu::StatusInfoPdu(rest_of(src)))
            },
            ShareDataPduType::AutoDetect => {
                let left: usize = src.len();
                if left < 2 {
                    return Err(PduError::NotEnoughBytes { received: left, expected: 2 });
                }
                if src.remaining()[1] == 0 {
                    Decoded::Inner(ShareDataPduKind::AutoDetectReq)
                } else {
                    Decoded::Inner(ShareDataPduKind::AutoDetectRsp)
                }
            },
        };
        Ok(r)
    }

    /// Writes the PDU. Where there is no room, or the kind is not written, nothing is written.
    pub fn encode(&self, dst: &mut WriteCursor<'_>) -> (res: EncodeResult<()>)
        ensures
            ({
                let room = cursor::ahead(*old(dst)).len() as int;
                let (image, end) = self@.encoded();
                &&& room < image.len() ==> {
                    &&& res matches Err(e) && e@ == error::not_enough(room, image.len() as int)
                    &&& *final(dst) == *old(dst)
                }
                &&& room >= image.len() ==> {
                    &&& error::ends(res, end)
                    &&& cursor::written(*final(dst)) == cursor::written(*old(dst)) + image
                    &&& cursor::ahead(*final(dst)) == cursor::ahead(*old(dst)).skip(
                        image.len() as int,
                    )
                }
            }),
    {
        assert(cursor::written(*dst) + Seq::<u8>::empty() =~= cursor::written(*dst));
        assert(cursor::ahead(*dst).skip(0) =~= cursor::ahead(*dst));
        let pdu: &InnerPdu = match self {
            ShareDataPdu::Synchronize(pdu) => pdu,
            ShareDataPdu::Control(pdu) => pdu,
            ShareDataPdu::FontList(pdu) => pdu,
            ShareDataPdu::FontMap(pdu) => pdu,
            ShareDataPdu::MonitorLayout(pdu) => pdu,
            ShareDataPdu::SaveSessionInfo(pdu) => pdu,
            ShareDataPdu::FrameAcknowledge(pdu) => pdu,
            ShareDataPdu::ServerSetErrorInfo(pdu) => pdu,
            ShareDataPdu::Input(pdu) => pdu,
            ShareDataPdu::SuppressOutput(pdu) => pdu,
            ShareDataPdu::RefreshRectangle(pdu) => pdu,
            ShareDataPdu::AutoDetectReq(pdu) => pdu,
            ShareDataPdu::AutoDetectRsp(pdu) => pdu,
            ShareDataPdu::ShutdownRequest => {
                return Ok(());
            },
            ShareDataPdu::ShutdownDenied => {
                return Ok(());
            },
            _ => {
                return Err(PduError::Other { description: "Encoding not implemented" });
            },
        };
        pdu.encode(dst)
    }

    /// The name of data PDUs.
    pub fn name(&self) -> (r: &'static str)
        ensures
            r@ == "ShareDataPdu"@,
    {
        "ShareDataPdu"
    }

    /// The size of the PDU.
    pub fn size(&self) -> (r: usize)
        ensures
            r == self@.body.len(),
    {
        match self {
            ShareDataPdu::Synchronize(pdu) => pdu.image.len(),
            ShareDataPdu::Control(pdu) => pdu.image.len(),
            ShareDataPdu::FontList(pdu) => pdu.image.len(),
            ShareDataPdu::FontMap(pdu) => pdu.image.len(),
            ShareDataPdu::MonitorLayout(pdu) => pdu.image.len(),
            ShareDataPdu::SaveSessionInfo(pdu) => pdu.image.len(),
            ShareDataPdu::FrameAcknowledge(pdu) => pdu.image.len(),
            ShareDataPdu::ServerSetErrorInfo(pdu) => pdu.image.len(),
            ShareDataPdu::Input(pdu) => pdu.image.len(),
            ShareDataPdu::ShutdownRequest => 0,
            ShareDataPdu::ShutdownDenied => 0,
            ShareDataPdu::SuppressOutput(pdu) => pdu.image.len(),
            ShareDataPdu::RefreshRectangle(pdu) => pdu.image.len(),
            ShareDataPdu::Update(body) => body.len(),
            ShareDataPdu::Pointer(body) => body.len(),
            ShareDataPdu::PlaySound(body) => body.len(),
            ShareDataPdu::SetKeyboardIndicators(body) => body.len(),
            ShareDataPdu::BitmapCachePersistentList(body) => body.len(),
            ShareDataPdu::BitmapCacheErrorPdu(body) => body.len(),
            ShareDataPdu::SetKeyboardImeStatus(body) => body.len(),
            ShareDataPdu::OffscreenCacheErrorPdu(body) => body.len(),
            ShareDataPdu::DrawNineGridErrorPdu(body) => body.len(),
            ShareDataPdu::DrawGdiPusErrorPdu(body) => body.len(),
            ShareDataPdu::ArcStatusPdu(body) => body.len(),
            ShareDataPdu::StatusInfoPdu(body) => body.len(),
            ShareDataPdu::AutoDetectReq(pdu) => pdu.image.len(),
            ShareDataPdu::AutoDetectRsp(pdu) => pdu.image.len(),
        }
    }
}

impl InnerPdu {
    /// Writes the PDU. Where there is no room nothing is written.
    pub fn encode(&self, dst: &mut WriteCursor<'_>) -> (res: EncodeResult<()>)
        ensures
            ({
                let room = cursor::ahead(*old(dst)).len() as int;
                let image = self.image@;
                &&& room < image.len() ==> {
                    &&& res matches Err(e) && e@ == error::not_enough(room, image.len() as int)
                    &&& *final(dst) == *old(dst)
                }
                &&& room >= image.len() ==> {
                    &&& res is Ok
                    &&& cursor::written(*final(dst)) == cursor::written(*old(dst)) + image
                    &&& cursor::ahead(*final(dst)) == cursor::ahead(*old(dst)).skip(
                        image.len() as int,
                    )
                }
            }),
    {
        let room: usize = dst.remaining().len();
        if room < self.image.len() {
            return Err(
                PduError::NotEnoughBytes { received: room, expected: self.image.len() },
            );
        }
        put(dst, self.image.as_slice());
        Ok(())
    }
}

/// A data PDU with its header.
#[derive(Clone, Debug, PartialEq, Eq)]
pub struct ShareDataHeader {
    pub share_data_pdu: ShareDataPdu,
    pub stream_priority: StreamPriority,
    pub compression_flags: CompressionFlags,
    pub compression_type: CompressionType,
}

/// A data PDU with its header, as a value.
#[verifier::ext_equal]
pub struct DataHeader {
    pub pdu: DataPdu,
    pub stream_priority: StreamPriority,
    pub compression_flags: CompressionFlags,
    pub compression_type: CompressionType,
}

impl View for ShareDataHeader {
    type V = DataHeader;

    open spec fn view(&self) -> DataHeader {
        DataHeader {
            pdu: self.share_data_pdu@,
            stream_priority: self.stream_priority,
            compression_flags: self.compression_flags,
            compression_type: self.compression_type,
        }
    }
}

/// The header of a data PDU that is still to be decoded.
#[derive(Clone, Copy, Debug, PartialEq, Eq, Structural)]
pub struct PendingShareData {
    pub kind: ShareDataPduKind,
    pub stream_priority: StreamPriority,
    pub compression_flags: CompressionFlags,
    pub compression_type: CompressionType,
}

impl PendingShareData {
    /// The header with the bytes of its PDU.
    pub open spec fn with(self, body: Seq<u8>) -> DataHeader {
        DataHeader {
            pdu: DataPdu { kind: self.kind, body },
            stream_priority: self.stream_priority,
            compression_flags: self.compression_flags,
            compression_type: self.compression_type,
        }
    }

    /// Joins the header with its PDU.
    pub fn complete(self, pdu: InnerPdu) -> (r: ShareDataHeader)
        requires
            self.kind.is_inner(),
        ensures
            r@ == self.with(pdu.image@),
    {
        ShareDataHeader {
            share_data_pdu: self.kind.wrap(pdu),
            stream_priority: self.stream_priority,
            compression_flags: self.compression_flags,
            compression_type: self.compression_type,
        }
    }
}

/// The fault of a field that does not hold what it should.
pub open spec fn invalid_field(field: Seq<char>, reason: Seq<char>) -> Fault {
    Fault::InvalidField { field, reason }
}

/// The header at the start of `s`: what is left, and the header with its PDU, or the header whose
/// PDU is still to be decoded, or the fault.
pub open spec fn data_header(s: Seq<u8>) -> (
    Seq<u8>,
    Result<Decoded<DataHeader, PendingShareData>, Fault>,
) {
    if s.len() < 8 {
        (s, Err(error::not_enough(s.len() as int, 8)))
    } else if StreamPriority::of(s[1]) is None {
        (s.skip(2), Err(invalid_field("streamPriority"@, "Invalid stream priority"@)))
    } else if ShareDataPduType::of(s[4]) is None {
        (s.skip(5), Err(invalid_field("pduType"@, "Invalid pdu type"@)))
    } else if CompressionType::of(s[5] % 16) is None {
        (s.skip(6), Err(invalid_field("compressionType"@, "Invalid compression type"@)))
    } else {
        let stream_priority = StreamPriority::of(s[1])->0;
        let compression_flags = CompressionFlags { bits: (s[5] - s[5] % 16) as u8 };
        let compression_type = CompressionType::of(s[5] % 16)->0;
        match data_pdu(s.skip(8), ShareDataPduType::of(s[4])->0) {
            (rest, Err(fault)) => (rest, Err(fault)),
            (rest, Ok(Decoded::Inner(kind))) => (
                rest,
                Ok(
                    Decoded::Inner(
                        PendingShareData {
                            kind,
                            stream_priority,
                            compression_flags,
                            compression_type,
                        },
                    ),
                ),
            ),
            (rest, Ok(Decoded::Complete(pdu))) => (
                rest,
                Ok(
                    Decoded::Complete(
                        DataHeader { pdu, stream_priority, compression_flags, compression_type },
                    ),
                ),
            ),
        }
    }
}

impl DataHeader {
    /// The size of the header with its PDU.
    pub open spec fn wire_size(self) -> int {
        8 + self.pdu.body.len() as int
    }

    /// What is written, and how that ends. Compression is not written.
    pub open spec fn encoded(self) -> (Seq<u8>, Result<(), Fault>) {
        let start = seq![0u8, self.stream_priority.code()];
        if self.compression_flags.bits != 0 {
            (Seq::empty(), Err(Fault::Other { description: "Compression is not implemented"@ }))
        } else if self.pdu.body.len() > 0xFFFF {
            (start, Err(invalid_field("uncompressedLength"@, "too many elements"@)))
        } else {
            let (image, end) = self.pdu.encoded();
            (
                start + bytes::le16_bytes(self.pdu.body.len() as u16) + seq![
                    self.pdu.kind.pdu_type().code(),
                    self.compression_type.code(),
                ] + bytes::le16_bytes(0) + image,
                end,
            )
        }
    }
}

impl ShareDataHeader {
    pub const FIXED_PART_SIZE: usize = 8;

    /// Writes the header and its PDU. Where there is no room nothing is written.
    pub fn encode(&self, dst: &mut WriteCursor<'_>) -> (res: EncodeResult<()>)
        requires
            self@.wire_size() <= usize::MAX,
        ensures
            ({
                let room = cursor::ahead(*old(dst)).len() as int;
                let (image, end) = self@.encoded();
                &&& room < self@.wire_size() ==> {
                    &&& res matches Err(e) && e@ == error::not_enough(room, self@.wire_size())
                    &&& *final(dst) == *old(dst)
                }
                &&& room >= self@.wire_size() ==> {
                    &&& error::ends(res, end)
                    &&& cursor::written(*final(dst)) == cursor::written(*old(dst)) + image
                    &&& cursor::ahead(*final(dst)) == cursor::ahead(*old(dst)).skip(
                        image.len() as int,
                    )
                }
            }),
    {
        let size: usize = self.size();
        let room: usize = dst.remaining().len();
        if room < size {
            return Err(PduError::NotEnoughBytes { received: room, expected: size });
        }
        if !self.compression_flags.is_empty() {
            assert(cursor::written(*dst) + Seq::<u8>::empty() =~= cursor::written(*dst));
            assert(cursor::ahead(*dst).skip(0) =~= cursor::ahead(*dst));
            return Err(PduError::Other { description: "Compression is not implemented" });
        }
        write_padding(dst, 1);
        dst.write_u8(self.stream_priority.as_u8());
        let ghost start = seq![0u8, self.stream_priority.code()];
        assert(cursor::written(*dst) =~= cursor::written(*old(dst)) + start);
        assert(cursor::ahead(*dst) =~= cursor::ahead(*old(dst)).skip(2));
        let length: usize = self.share_data_pdu.size();
        if length > 0xFFFF {
            return Err(
                PduError::InvalidField {
                    field: "uncompressedLength",
                    reason: "too many elements",
                },
            );
        }
        dst.write_u16(length as u16);
        dst.write_u8(self.share_data_pdu.share_header_type().as_u8());
        dst.write_u8(self.compression_type.as_u8());
        dst.write_u16(0);
        let ghost fixed = start + bytes::le16_bytes(length as u16) + seq![
            self@.pdu.kind.pdu_type().code(),
            self.compression_type.code(),
        ] + bytes::le16_bytes(0);
        assert(cursor::written(*dst) =~= cursor::written(*old(dst)) + fixed);
        assert(cursor::ahead(*dst) =~= cursor::ahead(*old(dst)).skip(8));
        let res = self.share_data_pdu.encode(dst);
        assert(cursor::written(*dst) =~= cursor::written(*old(dst)) + self@.encoded().0);
        assert(cursor::ahead(*dst) =~= cursor::ahead(*old(dst)).skip(
            self@.encoded().0.len() as int,
        ));
        res
    }

    /// The name of the header.
    pub fn name(&self) -> (r: &'static str)
        ensures
            r@ == "ShareDataHeader"@,
    {
        "ShareDataHeader"
    }

    /// The size of the header with its PDU.
    pub fn size(&self) -> (r: usize)
        requires
            self@.wire_size() <= usize::MAX,
        ensures
            r == self@.wire_size(),
    {
        Self::FIXED_PART_SIZE + self.share_data_pdu.size()
    }

    /// Reads a header and its PDU, or the header of a PDU that is still to be decoded.
    pub fn decode(src: &mut ReadCursor<'_>) -> (res: DecodeResult<Decoded<Self, PendingShareData>>)
        ensures
            ({
                let (rest, end) = data_header(cursor::unread(*old(src)));
                &&& cursor::unread(*final(src)) == rest
                &&& match end {
                    Ok(Decoded::Complete(header)) => res matches Ok(Decoded::Complete(r)) && r@
                        == header,
                    Ok(Decoded::Inner(pending)) => res matches Ok(Decoded::Inner(r)) && r == pending
                        && pending.kind.is_inner(),
                    Err(fault) => res matches Err(e) && e@ == fault,
                }
            }),
    {
        let ghost s = cursor::unread(*src);
        let left: usize = src.len();
        if left < Self::FIXED_PART_SIZE {
            return Err(
                PduError::NotEnoughBytes { received: left, expected: Self::FIXED_PART_SIZE },
            );
        }
        read_padding(src, 1);
        let stream_priority = match StreamPriority::from_u8(src.read_u8()) {
            Some(stream_priority) => stream_priority,
            None => {
                assert(cursor::unread(*src) =~= s.skip(2));
                return Err(
                    PduError::InvalidField {
                        field: "streamPriority",
                        reason: "Invalid stream priority",
                    },
                );
            },
        };
        let _uncompressed_length: u16 = src.read_u16();
        let pdu_type = match ShareDataPduType::from_u8(src.read_u8()) {
            Some(pdu_type) => pdu_type,
            None => {
                assert(cursor::unread(*src) =~= s.skip(5));
                return Err(
                    PduError::InvalidField { field: "pduType", reason: "Invalid pdu type" },
                );
            },
        };
        let flags_with_type: u8 = src.read_u8();
        let low: u8 = flags_with_type % (SHARE_DATA_HEADER_COMPRESSION_MASK + 1);
        let compression_flags = CompressionFlags::from_bits_retain(flags_with_type - low);
        let compression_type = match CompressionType::from_u8(low) {
            Some(compression_type) => compression_type,
            None => {
                assert(cursor::unread(*src) =~= s.skip(6));
                return Err(
                    PduError::InvalidField {
                        field: "compressionType",
                        reason: "Invalid compression type",
                    },
                );
            },
        };
        let _compressed_length: u16 = src.read_u16();
        assert(cursor::unread(*src) =~= s.skip(8));
        match ShareDataPdu::from_type(src, pdu_type)? {
            Decoded::Complete(share_data_pdu) => Ok(
                Decoded::Complete(
                    ShareDataHeader {
                        share_data_pdu,
                        stream_priority,
                        compression_flags,
                        compression_type,
                    },
                ),
            ),
            Decoded::Inner(kind) => Ok(
                Decoded::Inner(
                    PendingShareData {
                        kind,
                        stream_priority,
                        compression_flags,
                        compression_type,
                    },
                ),
            ),
        }
    }
}

} // verus!
