//! Codes and flags.

use vstd::prelude::*;

verus! {

/// The priority of the stream that a data PDU came over.
#[derive(Clone, Copy, Debug, PartialEq, Eq, Structural)]
pub enum StreamPriority {
    Undefined,
    Low,
    Medium,
    High,
}

impl StreamPriority {
    /// The number on the wire.
    pub open spec fn code(self) -> u8 {
        match self {
            StreamPriority::Undefined => 0,
            StreamPriority::Low => 1,
            StreamPriority::Medium => 2,
            StreamPriority::High => 4,
        }
    }

    /// The value that has the given number.
    pub open spec fn of(n: u8) -> Option<Self> {
        match n {
            0 => Some(StreamPriority::Undefined),
            1 => Some(StreamPriority::Low),
            2 => Some(StreamPriority::Medium),
            4 => Some(StreamPriority::High),
            _ => None,
        }
    }

    /// Returns the number on the wire.
    pub fn as_u8(self) -> (r: u8)
        ensures
            r == self.code(),
    {
        match self {
            StreamPriority::Undefined => 0,
            StreamPriority::Low => 1,
            StreamPriority::Medium => 2,
            StreamPriority::High => 4,
        }
    }

    /// Returns the value that has the given number, if one has it.
    pub fn from_u8(n: u8) -> (r: Option<Self>)
        ensures
            r == Self::of(n),
    {
        match n {
            0 => Some(StreamPriority::Undefined),
            1 => Some(StreamPriority::Low),
            2 => Some(StreamPriority::Medium),
            4 => Some(StreamPriority::High),
            _ => None,
        }
    }
}

/// The numbers are read back: a value's number gives the value, and no other number gives it.
pub proof fn law_stream_priority_is_read_back(v: StreamPriority, n: u8)
    ensures
        StreamPriority::of(n) == Some(v) <==> n == v.code(),
{
}

/// The kinds of share control PDUs.
#[derive(Clone, Copy, Debug, PartialEq, Eq, Structural)]
pub enum ShareControlPduType {
    DemandActivePdu,
    ConfirmActivePdu,
    DeactivateAllPdu,
    DataPdu,
    ServerRedirect,
}

impl ShareControlPduType {
    /// The number on the wire.
    pub open spec fn code(self) -> u16 {
        match self {
            ShareControlPduType::DemandActivePdu => 0x01,
            ShareControlPduType::ConfirmActivePdu => 0x03,
            ShareControlPduType::DeactivateAllPdu => 0x06,
            ShareControlPduType::DataPdu => 0x07,
            ShareControlPduType::ServerRedirect => 0x0a,
        }
    }

    /// The value that has the given number.
    pub open spec fn of(n: u16) -> Option<Self> {
        match n {
            0x01 => Some(ShareControlPduType::DemandActivePdu),
            0x03 => Some(ShareControlPduType::ConfirmActivePdu),
            0x06 => Some(ShareControlPduType::DeactivateAllPdu),
            0x07 => Some(ShareControlPduType::DataPdu),
            0x0a => Some(ShareControlPduType::ServerRedirect),
            _ => None,
        }
    }

    /// Returns the number on the wire.
    pub fn as_u16(self) -> (r: u16)
        ensures
            r == self.code(),
    {
        match self {
            ShareControlPduType::DemandActivePdu => 0x01,
            ShareControlPduType::ConfirmActivePdu => 0x03,
            ShareControlPduType::DeactivateAllPdu => 0x06,
            ShareControlPduType::DataPdu => 0x07,
            ShareControlPduType::ServerRedirect => 0x0a,
        }
    }

    /// Returns the value that has the given number, if one has it.
    pub fn from_u16(n: u16) -> (r: Option<Self>)
        ensures
            r == Self::of(n),
    {
        match n {
            0x01 => Some(ShareControlPduType::DemandActivePdu),
            0x03 => Some(ShareControlPduType::ConfirmActivePdu),
            0x06 => Some(ShareControlPduType::DeactivateAllPdu),
            0x07 => Some(ShareControlPduType::DataPdu),
            0x0a => Some(ShareControlPduType::ServerRedirect),
            _ => None,
        }
    }
}

/// The numbers are read back: a value's number gives the value, and no other number gives it.
pub proof fn law_share_control_pdu_type_is_read_back(v: ShareControlPduType, n: u16)
    ensures
        ShareControlPduType::of(n) == Some(v) <==> n == v.code(),
{
}

/// The kinds of data PDUs.
#[derive(Clone, Copy, Debug, PartialEq, Eq, Structural)]
pub enum ShareDataPduType {
    Update,
    Control,
    Pointer,
    Input,
    Synchronize,
    RefreshRectangle,
    PlaySound,
    SuppressOutput,
    ShutdownRequest,
    ShutdownDenied,
    SaveSessionInfo,
    FontList,
    FontMap,
    SetKeyboardIndicators,
    BitmapCachePersistentList,
    BitmapCacheErrorPdu,
    SetKeyboardImeStatus,
    OffscreenCacheErrorPdu,
    SetErrorInfoPdu,
    DrawNineGridErrorPdu,
    DrawGdiPusErrorPdu,
    ArcStatusPdu,
    StatusInfoPdu,
    MonitorLayoutPdu,
    FrameAcknowledgePdu,
    /// A request or a response. The second byte of the PDU tells which: it is zero for a request.
    AutoDetect,
}

impl ShareDataPduType {
    /// The number on the wire.
    pub open spec fn code(self) -> u8 {
        match self {
            ShareDataPduType::Update => 0x02,
            ShareDataPduType::Control => 0x14,
            ShareDataPduType::Pointer => 0x1b,
            ShareDataPduType::Input => 0x1c,
            ShareDataPduType::Synchronize => 0x1f,
            ShareDataPduType::RefreshRectangle => 0x21,
            ShareDataPduType::PlaySound => 0x22,
            ShareDataPduType::SuppressOutput => 0x23,
            ShareDataPduType::ShutdownRequest => 0x24,
            ShareDataPduType::ShutdownDenied => 0x25,
            ShareDataPduType::SaveSessionInfo => 0x26,
            ShareDataPduType::FontList => 0x27,
            ShareDataPduType::FontMap => 0x28,
            ShareDataPduType::SetKeyboardIndicators => 0x29,
            ShareDataPduType::BitmapCachePersistentList => 0x2b,
            ShareDataPduType::BitmapCacheErrorPdu => 0x2c,
            ShareDataPduType::SetKeyboardImeStatus => 0x2d,
            ShareDataPduType::OffscreenCacheErrorPdu => 0x2e,
            ShareDataPduType::SetErrorInfoPdu => 0x2f,
            ShareDataPduType::DrawNineGridErrorPdu => 0x30,
            ShareDataPduType::DrawGdiPusErrorPdu => 0x31,
            ShareDataPduType::ArcStatusPdu => 0x32,
            ShareDataPduType::StatusInfoPdu => 0x36,
            ShareDataPduType::MonitorLayoutPdu => 0x37,
            ShareDataPduType::FrameAcknowledgePdu => 0x38,
            ShareDataPduType::AutoDetect => 0x3b,
        }
    }

    /// The value that has the given number.
    pub open spec fn of(n: u8) -> Option<Self> {
        match n {
            0x02 => Some(ShareDataPduType::Update),
            0x14 => Some(ShareDataPduType::Control),
            0x1b => Some(ShareDataPduType::Pointer),
            0x1c => Some(ShareDataPduType::Input),
            0x1f => Some(ShareDataPduType::Synchronize),
            0x21 => Some(ShareDataPduType::RefreshRectangle),
            0x22 => Some(ShareDataPduType::PlaySound),
            0x23 => Some(ShareDataPduType::SuppressOutput),
            0x24 => Some(ShareDataPduType::ShutdownRequest),
            0x25 => Some(ShareDataPduType::ShutdownDenied),
            0x26 => Some(ShareDataPduType::SaveSessionInfo),
            0x27 => Some(ShareDataPduType::FontList),
            0x28 => Some(ShareDataPduType::FontMap),
            0x29 => Some(ShareDataPduType::SetKeyboardIndicators),
            0x2b => Some(ShareDataPduType::BitmapCachePersistentList),
            0x2c => Some(ShareDataPduType::BitmapCacheErrorPdu),
            0x2d => Some(ShareDataPduType::SetKeyboardImeStatus),
            0x2e => Some(ShareDataPduType::OffscreenCacheErrorPdu),
            0x2f => Some(ShareDataPduType::SetErrorInfoPdu),
            0x30 => Some(ShareDataPduType::DrawNineGridErrorPdu),
            0x31 => Some(ShareDataPduType::DrawGdiPusErrorPdu),
            0x32 => Some(ShareDataPduType::ArcStatusPdu),
            0x36 => Some(ShareDataPduType::StatusInfoPdu),
            0x37 => Some(ShareDataPduType::MonitorLayoutPdu),
            0x38 => Some(ShareDataPduType::FrameAcknowledgePdu),
            0x3b => Some(ShareDataPduType::AutoDetect),
            _ => None,
        }
    }

    /// Returns the number on the wire.
    pub fn as_u8(self) -> (r: u8)
        ensures
            r == self.code(),
    {
        match self {
            ShareDataPduType::Update => 0x02,
            ShareDataPduType::Control => 0x14,
            ShareDataPduType::Pointer => 0x1b,
            ShareDataPduType::Input => 0x1c,
            ShareDataPduType::Synchronize => 0x1f,
            ShareDataPduType::RefreshRectangle => 0x21,
            ShareDataPduType::PlaySound => 0x22,
            ShareDataPduType::SuppressOutput => 0x23,
            ShareDataPduType::ShutdownRequest => 0x24,
            ShareDataPduType::ShutdownDenied => 0x25,
            ShareDataPduType::SaveSessionInfo => 0x26,
            ShareDataPduType::FontList => 0x27,
            ShareDataPduType::FontMap => 0x28,
            ShareDataPduType::SetKeyboardIndicators => 0x29,
            ShareDataPduType::BitmapCachePersistentList => 0x2b,
            ShareDataPduType::BitmapCacheErrorPdu => 0x2c,
            ShareDataPduType::SetKeyboardImeStatus => 0x2d,
            ShareDataPduType::OffscreenCacheErrorPdu => 0x2e,
            ShareDataPduType::SetErrorInfoPdu => 0x2f,
            ShareDataPduType::DrawNineGridErrorPdu => 0x30,
            ShareDataPduType::DrawGdiPusErrorPdu => 0x31,
            ShareDataPduType::ArcStatusPdu => 0x32,
            ShareDataPduType::StatusInfoPdu => 0x36,
            ShareDataPduType::MonitorLayoutPdu => 0x37,
            ShareDataPduType::FrameAcknowledgePdu => 0x38,
            ShareDataPduType::AutoDetect => 0x3b,
        }
    }

    /// Returns the value that has the given number, if one has it.
    pub fn from_u8(n: u8) -> (r: Option<Self>)
        ensures
            r == Self::of(n),
    {
        match n {
            0x02 => Some(ShareDataPduType::Update),
            0x14 => Some(ShareDataPduType::Control),
            0x1b => Some(ShareDataPduType::Pointer),
            0x1c => Some(ShareDataPduType::Input),
            0x1f => Some(ShareDataPduType::Synchronize),
            0x21 => Some(ShareDataPduType::RefreshRectangle),
            0x22 => Some(ShareDataPduType::PlaySound),
            0x23 => Some(ShareDataPduType::SuppressOutput),
            0x24 => Some(ShareDataPduType::ShutdownRequest),
            0x25 => Some(ShareDataPduType::ShutdownDenied),
            0x26 => Some(ShareDataPduType::SaveSessionInfo),
            0x27 => Some(ShareDataPduType::FontList),
            0x28 => Some(ShareDataPduType::FontMap),
            0x29 => Some(ShareDataPduType::SetKeyboardIndicators),
            0x2b => Some(ShareDataPduType::BitmapCachePersistentList),
            0x2c => Some(ShareDataPduType::BitmapCacheErrorPdu),
            0x2d => Some(ShareDataPduType::SetKeyboardImeStatus),
            0x2e => Some(ShareDataPduType::OffscreenCacheErrorPdu),
            0x2f => Some(ShareDataPduType::SetErrorInfoPdu),
            0x30 => Some(ShareDataPduType::DrawNineGridErrorPdu),
            0x31 => Some(ShareDataPduType::DrawGdiPusErrorPdu),
            0x32 => Some(ShareDataPduType::ArcStatusPdu),
            0x36 => Some(ShareDataPduType::StatusInfoPdu),
            0x37 => Some(ShareDataPduType::MonitorLayoutPdu),
            0x38 => Some(ShareDataPduType::FrameAcknowledgePdu),
            0x3b => Some(ShareDataPduType::AutoDetect),
            _ => None,
        }
    }
}

/// The numbers are read back: a value's number gives the value, and no other number gives it.
pub proof fn law_share_data_pdu_type_is_read_back(v: ShareDataPduType, n: u8)
    ensures
        ShareDataPduType::of(n) == Some(v) <==> n == v.code(),
{
}

/// The kinds of compression.
#[derive(Clone, Copy, Debug, PartialEq, Eq, Structural)]
pub enum CompressionType {
    K8,
    K64,
    Rdp6,
    Rdp61,
}

impl CompressionType {
    /// The number on the wire.
    pub open spec fn code(self) -> u8 {
        match self {
            CompressionType::K8 => 0,
            CompressionType::K64 => 1,
            CompressionType::Rdp6 => 2,
            CompressionType::Rdp61 => 3,
        }
    }

    /// The value that has the given number.
    pub open spec fn of(n: u8) -> Option<Self> {
        match n {
            0 => Some(CompressionType::K8),
            1 => Some(CompressionType::K64),
            2 => Some(CompressionType::Rdp6),
            3 => Some(CompressionType::Rdp61),
            _ => None,
        }
    }

    /// Returns the number on the wire.
    pub fn as_u8(self) -> (r: u8)
        ensures
            r == self.code(),
    {
        match self {
            CompressionType::K8 => 0,
            CompressionType::K64 => 1,
            CompressionType::Rdp6 => 2,
            CompressionType::Rdp61 => 3,
        }
    }

    /// Returns the value that has the given number, if one has it.
    pub fn from_u8(n: u8) -> (r: Option<Self>)
        ensures
            r == Self::of(n),
    {
        match n {
            0 => Some(CompressionType::K8),
            1 => Some(CompressionType::K64),
            2 => Some(CompressionType::Rdp6),
            3 => Some(CompressionType::Rdp61),
            _ => None,
        }
    }
}

/// The numbers are read back: a value's number gives the value, and no other number gives it.
pub proof fn law_compression_type_is_read_back(v: CompressionType, n: u8)
    ensures
        CompressionType::of(n) == Some(v) <==> n == v.code(),
{
}

/// The flags of a basic security header. Every one of the sixteen bits has a meaning.
#[derive(Clone, Copy, Debug, PartialEq, Eq, PartialOrd, Ord, Hash, Structural)]
pub struct BasicSecurityHeaderFlags {
    pub bits: u16,
}

impl BasicSecurityHeaderFlags {
    pub const EXCHANGE_PKT: u16 = 0x0001;

    pub const TRANSPORT_REQ: u16 = 0x0002;

    pub const TRANSPORT_RSP: u16 = 0x0004;

    pub const ENCRYPT: u16 = 0x0008;

    pub const RESET_SEQNO: u16 = 0x0010;

    pub const IGNORE_SEQNO: u16 = 0x0020;

    pub const INFO_PKT: u16 = 0x0040;

    pub const LICENSE_PKT: u16 = 0x0080;

    pub const LICENSE_ENCRYPT_CS: u16 = 0x0100;

    pub const LICENSE_ENCRYPT_SC: u16 = 0x0200;

    pub const REDIRECTION_PKT: u16 = 0x0400;

    pub const SECURE_CHECKSUM: u16 = 0x0800;

    pub const AUTODETECT_REQ: u16 = 0x1000;

    pub const AUTODETECT_RSP: u16 = 0x2000;

    pub const HEARTBEAT: u16 = 0x4000;

    pub const FLAGSHI_VALID: u16 = 0x8000;

    /// Returns the bits.
    pub fn bits(self) -> (r: u16)
        ensures
            r == self.bits,
    {
        self.bits
    }

    /// Returns the flags of the given bits, unless one of them has no meaning.
    pub fn from_bits(bits: u16) -> (r: Option<Self>)
        ensures
            r == Some(BasicSecurityHeaderFlags { bits }),
    {
        Some(BasicSecurityHeaderFlags { bits })
    }
}

/// The flags of a data PDU's compression.
#[derive(Clone, Copy, Debug, PartialEq, Eq, PartialOrd, Ord, Hash, Structural)]
pub struct CompressionFlags {
    pub bits: u8,
}

impl CompressionFlags {
    pub const COMPRESSED: u8 = 0x20;

    pub const AT_FRONT: u8 = 0x40;

    pub const FLUSHED: u8 = 0x80;

    /// Returns the bits.
    pub fn bits(self) -> (r: u8)
        ensures
            r == self.bits,
    {
        self.bits
    }

    /// Returns the flags of the given bits, whatever they are.
    pub fn from_bits_retain(bits: u8) -> (r: Self)
        ensures
            r == (CompressionFlags { bits }),
    {
        CompressionFlags { bits }
    }

    /// Returns whether no flag is set.
    pub fn is_empty(self) -> (r: bool)
        ensures
            r == (self.bits == 0),
    {
        self.bits == 0
    }
}

/// The flags of a server redirection packet.
#[derive(Clone, Copy, Debug, PartialEq, Eq, PartialOrd, Ord, Hash, Structural)]
pub struct RedirectionFlags {
    pub bits: u32,
}

impl RedirectionFlags {
    pub const LB_TARGET_NET_ADDRESS: u32 = 0x00000001;

    pub const LB_LOAD_BALANCE_INFO: u32 = 0x00000002;

    pub const LB_USERNAME: u32 = 0x00000004;

    pub const LB_DOMAIN: u32 = 0x00000008;

    pub const LB_PASSWORD: u32 = 0x00000010;

    pub const LB_DONTSTOREUSERNAME: u32 = 0x00000020;

    pub const LB_SMARTCARD_LOGON: u32 = 0x00000040;

    pub const LB_NOREDIRECT: u32 = 0x00000080;

    pub const LB_TARGET_FQDN: u32 = 0x00000100;

    pub const LB_TARGET_NETBIOS_NAME: u32 = 0x00000200;

    pub const LB_TARGET_NET_ADDRESSES: u32 = 0x00000800;

    pub const LB_CLIENT_TSV_URL: u32 = 0x00001000;

    pub const LB_SERVER_TSV_CAPABLE: u32 = 0x00002000;

    pub const LB_PASSWORD_IS_PK_ENCRYPTED: u32 = 0x00004000;

    pub const LB_REDIRECTION_GUID: u32 = 0x00008000;

    pub const LB_TARGET_CERTIFICATE: u32 = 0x00010000;

    /// Returns the bits.
    pub fn bits(self) -> (r: u32)
        ensures
            r == self.bits,
    {
        self.bits
    }

    /// Returns the flags of the given bits, whatever they are.
    pub fn from_bits_retain(bits: u32) -> (r: Self)
        ensures
            r == (RedirectionFlags { bits }),
    {
        RedirectionFlags { bits }
    }

    /// All the given flags are set.
    pub open spec fn has(self, bits: u32) -> bool {
        self.bits & bits == bits
    }

    /// Returns whether all the given flags are set.
    pub fn contains(self, bits: u32) -> (r: bool)
        ensures
            r == self.has(bits),
    {
        self.bits & bits == bits
    }
}

} // verus!
