//! The server redirection packet.

use crate::bytes;
use crate::headers::codes::RedirectionFlags;
use crate::headers::cursor;
use crate::headers::cursor::{put, take};
use crate::headers::error;
use crate::headers::error::{DecodeResult, EncodeResult, Fault, PduError};
use ironrdp_core::{ReadCursor, WriteCursor};
use vstd::prelude::*;

verus! {

/// What a redirection packet starts with.
pub const SEC_REDIRECTION_PKT_MARKER: u16 = 0x0400;

/// A packet by which a server sends a client on to another one. The client does not look into the
/// optional fields: it passes them on.
#[derive(Clone, Debug, PartialEq, Eq)]
pub struct RdpServerRedirectionPacket {
    pub session_id: u32,
    pub flags: RedirectionFlags,
    pub target_net_address: Option<Vec<u8>>,
    /// An opaque routing token. Unless a target address came too, it is sent on reconnection.
    pub load_balance_info: Option<Vec<u8>>,
    /// In UTF-16, as it was on the wire.
    pub user_name: Option<Vec<u8>>,
    pub domain: Option<Vec<u8>>,
    /// May be encrypted by the server for the target: it is passed on as it is.
    pub password: Option<Vec<u8>>,
    pub target_fqdn: Option<Vec<u8>>,
    pub target_netbios_name: Option<Vec<u8>>,
    pub tsv_url: Option<Vec<u8>>,
    /// In base 64, as it was on the wire.
    pub redirection_guid: Option<Vec<u8>>,
    /// In base 64, as it was on the wire.
    pub target_certificate: Option<Vec<u8>>,
    pub target_net_addresses: Option<Vec<u8>>,
}

/// A redirection packet as a value. The optional fields stand in the order of the wire.
#[verifier::ext_equal]
pub struct Redirection {
    pub session_id: u32,
    pub flags: RedirectionFlags,
    pub fields: Seq<Option<Seq<u8>>>,
}

/// An optional field as a value.
pub open spec fn field_value(field: Option<Vec<u8>>) -> Option<Seq<u8>> {
    match field {
        Some(field) => Some(field@),
        None => None,
    }
}

impl View for RdpServerRedirectionPacket {
    type V = Redirection;

    open spec fn view(&self) -> Redirection {
        Redirection {
            session_id: self.session_id,
            flags: self.flags,
            fields: seq![
                field_value(self.target_net_address),
                field_value(self.load_balance_info),
                field_value(self.user_name),
                field_value(self.domain),
                field_value(self.password),
                field_value(self.target_fqdn),
                field_value(self.target_netbios_name),
                field_value(self.tsv_url),
                field_value(self.redirection_guid),
                field_value(self.target_certificate),
                field_value(self.target_net_addresses),
            ],
        }
    }
}

/// The flag that announces the `k`-th optional field.
pub open spec fn field_flag(k: int) -> u32 {
    if k == 0 {
        RedirectionFlags::LB_TARGET_NET_ADDRESS
    } else if k == 1 {
        RedirectionFlags::LB_LOAD_BALANCE_INFO
    } else if k == 2 {
        RedirectionFlags::LB_USERNAME
    } else if k == 3 {
        RedirectionFlags::LB_DOMAIN
    } else if k == 4 {
        RedirectionFlags::LB_PASSWORD
    } else if k == 5 {
        RedirectionFlags::LB_TARGET_FQDN
    } else if k == 6 {
        RedirectionFlags::LB_TARGET_NETBIOS_NAME
    } else if k == 7 {
        RedirectionFlags::LB_CLIENT_TSV_URL
    } else if k == 8 {
        RedirectionFlags::LB_REDIRECTION_GUID
    } else if k == 9 {
        RedirectionFlags::LB_TARGET_CERTIFICATE
    } else {
        RedirectionFlags::LB_TARGET_NET_ADDRESSES
    }
}

/// The field with a length before it at the start of `s`: what is left behind it, and the field or
/// the fault.
pub open spec fn prefixed_field(s: Seq<u8>) -> (Seq<u8>, Result<Seq<u8>, Fault>) {
    if s.len() < 4 {
        (s, Err(error::not_enough(s.len() as int, 4)))
    } else {
        let n = bytes::le32(s, 0);
        let t = s.skip(4);
        if t.len() < n {
            (t, Err(error::not_enough(t.len() as int, n)))
        } else {
            (t.skip(n), Ok(t.take(n)))
        }
    }
}

/// The optional fields from the `k`-th on, behind those in `done`: what is left behind them, and
/// the fields or the fault. A field is there if its flag is set.
pub open spec fn optional_fields(
    s: Seq<u8>,
    flags: RedirectionFlags,
    k: int,
    done: Seq<Option<Seq<u8>>>,
) -> (Seq<u8>, Result<Seq<Option<Seq<u8>>>, Fault>)
    decreases 11 - k,
{
    if k >= 11 {
        (s, Ok(done))
    } else if !flags.has(field_flag(k)) {
        optional_fields(s, flags, k + 1, done.push(None))
    } else {
        match prefixed_field(s) {
            (rest, Err(fault)) => (rest, Err(fault)),
            (rest, Ok(field)) => optional_fields(rest, flags, k + 1, done.push(Some(field))),
        }
    }
}

/// The packet at the start of `s`: what is left behind it, and the packet or the fault.
pub open spec fn redirection(s: Seq<u8>) -> (Seq<u8>, Result<Redirection, Fault>) {
    if s.len() < 12 {
        (s, Err(error::not_enough(s.len() as int, 12)))
    } else if bytes::le16(s, 0) != SEC_REDIRECTION_PKT_MARKER {
        (
            s.skip(2),
            Err(
                Fault::InvalidField {
                    field: "flags"@,
                    reason: "expected SEC_REDIRECTION_PKT (0x0400)"@,
                },
            ),
        )
    } else {
        let session_id = bytes::le32(s, 4) as u32;
        let flags = RedirectionFlags { bits: bytes::le32(s, 8) as u32 };
        match optional_fields(s.skip(12), flags, 0, Seq::empty()) {
            (rest, Err(fault)) => (rest, Err(fault)),
            (rest, Ok(fields)) => (rest, Ok(Redirection { session_id, flags, fields })),
        }
    }
}

/// A field with its length before it.
pub open spec fn encoded_field(field: Option<Seq<u8>>) -> Seq<u8> {
    match field {
        Some(field) => bytes::le32_bytes(field.len() as u32) + field,
        None => Seq::empty(),
    }
}

/// The first `k` fields on the wire.
pub open spec fn encoded_fields(fields: Seq<Option<Seq<u8>>>, k: int) -> Seq<u8>
    decreases k,
{
    if k <= 0 {
        Seq::empty()
    } else {
        encoded_fields(fields, k - 1) + encoded_field(fields[k - 1])
    }
}

/// The size of a field on the wire.
pub open spec fn field_size(field: Option<Seq<u8>>) -> int {
    match field {
        Some(field) => 4 + field.len() as int,
        None => 0,
    }
}

/// The size of the first `k` fields on the wire.
pub open spec fn fields_size(fields: Seq<Option<Seq<u8>>>, k: int) -> int
    decreases k,
{
    if k <= 0 {
        0
    } else {
        fields_size(fields, k - 1) + field_size(fields[k - 1])
    }
}

impl Redirection {
    /// The size of the packet on the wire.
    pub open spec fn wire_size(self) -> int {
        12 + fields_size(self.fields, 11)
    }

    /// What is written of the packet, and how that ends. The size does not fit its field where it
    /// needs more than 16 bits.
    pub open spec fn encoded(self) -> (Seq<u8>, Result<(), Fault>) {
        let marker = bytes::le16_bytes(SEC_REDIRECTION_PKT_MARKER);
        if self.wire_size() > 0xFFFF {
            (
                marker,
                Err(Fault::InvalidField { field: "length"@, reason: "too many elements"@ }),
            )
        } else {
            (
                marker + bytes::le16_bytes(self.wire_size() as u16) + bytes::le32_bytes(
                    self.session_id,
                ) + bytes::le32_bytes(self.flags.bits) + encoded_fields(self.fields, 11),
                Ok(()),
            )
        }
    }

    /// A field is there if and only if its flag is set.
    pub open spec fn flags_tell_fields(self) -> bool {
        self.fields.len() == 11 && forall|k: int|
            0 <= k < 11 ==> (#[trigger] self.fields[k] is Some <==> self.flags.has(field_flag(k)))
    }
}

/// The size of the fields is the number of their bytes.
pub proof fn lemma_fields_size(fields: Seq<Option<Seq<u8>>>, k: int)
    ensures
        encoded_fields(fields, k).len() == fields_size(fields, k),
        fields_size(fields, k) >= 0,
    decreases k,
{
    if k > 0 {
        lemma_fields_size(fields, k - 1);
    }
}

/// The fields before the `k`-th are no longer than those before the `n`-th.
pub proof fn lemma_fields_size_grows(fields: Seq<Option<Seq<u8>>>, k: int, n: int)
    requires
        k <= n,
    ensures
        fields_size(fields, k) <= fields_size(fields, n),
    decreases n - k,
{
    if k < n && n > 0 {
        lemma_fields_size_grows(fields, k, n - 1);
    }
}

/// Adds the size of a field.
fn add_field_size(sum: usize, field: &Option<Vec<u8>>) -> (r: usize)
    requires
        sum + field_size(field_value(*field)) <= usize::MAX,
    ensures
        r == sum + field_size(field_value(*field)),
{
    match field {
        Some(field) => sum + 4 + field.len(),
        None => sum,
    }
}

/// Writes a field with its length before it.
fn write_length_prefixed_field(dst: &mut WriteCursor<'_>, field: &Option<Vec<u8>>)
    requires
        field_size(field_value(*field)) <= 0xFFFF,
        field_size(field_value(*field)) <= cursor::ahead(*old(dst)).len(),
    ensures
        cursor::written(*final(dst)) == cursor::written(*old(dst)) + encoded_field(
            field_value(*field),
        ),
        cursor::ahead(*final(dst)) == cursor::ahead(*old(dst)).skip(
            field_size(field_value(*field)),
        ),
{
    if let Some(field) = field {
        dst.write_u32(field.len() as u32);
        put(dst, field.as_slice());
    }
    assert(cursor::written(*dst) =~= cursor::written(*old(dst)) + encoded_field(
        field_value(*field),
    ));
    assert(cursor::ahead(*dst) =~= cursor::ahead(*old(dst)).skip(field_size(field_value(*field))));
}

/// Reads a field with its length before it.
fn read_length_prefixed_field(src: &mut ReadCursor<'_>) -> (res: DecodeResult<Vec<u8>>)
    ensures
        ({
            let (rest, end) = prefixed_field(cursor::unread(*old(src)));
            &&& cursor::unread(*final(src)) == rest
            &&& match end {
                Ok(field) => res matches Ok(r) && r@ == field,
                Err(fault) => res matches Err(e) && e@ == fault,
            }
        }),
{
    let left: usize = src.len();
    if left < 4 {
        return Err(PduError::NotEnoughBytes { received: left, expected: 4 });
    }
    let n: usize = src.read_u32() as usize;
    let left: usize = src.len();
    if left < n {
        return Err(PduError::NotEnoughBytes { received: left, expected: n });
    }
    Ok(take(src, n))
}

/// Reads the `k`-th optional field if its flag is set. `done` are the fields before it.
fn read_optional_field(
    src: &mut ReadCursor<'_>,
    flags: RedirectionFlags,
    flag: u32,
    k: Ghost<int>,
    done: Ghost<Seq<Option<Seq<u8>>>>,
) -> (res: DecodeResult<Option<Vec<u8>>>)
    requires
        0 <= k@ < 11,
        flag == field_flag(k@),
    ensures
        match res {
            Ok(field) => optional_fields(cursor::unread(*old(src)), flags, k@, done@)
                == optional_fields(
                cursor::unread(*final(src)),
                flags,
                k@ + 1,
                done@.push(field_value(field)),
            ),
            Err(e) => optional_fields(cursor::unread(*old(src)), flags, k@, done@) == (
                cursor::unread(*final(src)),
                Err::<Seq<Option<Seq<u8>>>, Fault>(e@),
            ),
        },
{
    if flags.contains(flag) {
        let field = read_length_prefixed_field(src)?;
        Ok(Some(field))
    } else {
        Ok(None)
    }
}

impl RdpServerRedirectionPacket {
    pub const FIXED_PART_SIZE: usize = 12;

    /// The size of the optional fields.
    fn optional_fields_size(&self) -> (r: usize)
        requires
            self@.wire_size() <= usize::MAX,
        ensures
            r == fields_size(self@.fields, 11),
    {
        let ghost fields = self@.fields;
        proof {
            reveal_with_fuel(fields_size, 12);
        }
        let sum: usize = add_field_size(0, &self.target_net_address);
        let sum: usize = add_field_size(sum, &self.load_balance_info);
        let sum: usize = add_field_size(sum, &self.user_name);
        let sum: usize = add_field_size(sum, &self.domain);
        let sum: usize = add_field_size(sum, &self.password);
        let sum: usize = add_field_size(sum, &self.target_fqdn);
        let sum: usize = add_field_size(sum, &self.target_netbios_name);
        let sum: usize = add_field_size(sum, &self.tsv_url);
        let sum: usize = add_field_size(sum, &self.redirection_guid);
        let sum: usize = add_field_size(sum, &self.target_certificate);
        let sum: usize = add_field_size(sum, &self.target_net_addresses);
        sum
    }

    /// The size of the packet.
    pub fn size(&self) -> (r: usize)
        requires
            self@.wire_size() <= usize::MAX,
        ensures
            r == self@.wire_size(),
    {
        Self::FIXED_PART_SIZE + self.optional_fields_size()
    }

    /// The name of the packet.
    pub fn name(&self) -> (r: &'static str)
        ensures
            r@ == "Server Redirection Packet"@,
    {
        "Server Redirection Packet"
    }

    /// Writes the packet. Where there is no room nothing is written.
    pub fn encode(&self, dst: &mut WriteCursor<'_>) -> (res: EncodeResult<()>)
        requires
            self@.wire_size() <= usize::MAX,
        ensures
            ({
                let room = cursor::ahead(*old(dst)).len() as int;
                let (image, end) = self@.encoded();
                &&& room < self@.wire_size() ==> {
                    &&& res matches Err(e) && e@ == error::not_enough(room, self@.wire_size())
                    &&& *final(dst) == *old(dst)
                }
                &&& room >= self@.wire_size() ==> {
                    &&& error::ends(res, end)
                    &&& cursor::written(*final(dst)) == cursor::written(*old(dst)) + image
                    &&& cursor::ahead(*final(dst)) == cursor::ahead(*old(dst)).skip(
                        image.len() as int,
                    )
                }
            }),
    {
        let size: usize = self.size();
        let room: usize = dst.remaining().len();
        if room < size {
            return Err(PduError::NotEnoughBytes { received: room, expected: size });
        }
        proof {
            lemma_fields_size(self@.fields, 11);
        }
        dst.write_u16(SEC_REDIRECTION_PKT_MARKER);
        if size > 0xFFFF {
            return Err(PduError::InvalidField { field: "length", reason: "too many elements" });
        }
        dst.write_u16(size as u16);
        dst.write_u32(self.session_id);
        dst.write_u32(self.flags.bits());
        let ghost fixed = bytes::le16_bytes(SEC_REDIRECTION_PKT_MARKER) + bytes::le16_bytes(
            size as u16,
        ) + bytes::le32_bytes(self.session_id) + bytes::le32_bytes(self.flags.bits);
        assert(cursor::written(*dst) =~= cursor::written(*old(dst)) + fixed);
        assert(cursor::ahead(*dst) =~= cursor::ahead(*old(dst)).skip(12));
        let ghost start = cursor::written(*dst);
        let ghost space = cursor::ahead(*dst);
        self.write_fields(dst);
        assert(cursor::written(*dst) =~= cursor::written(*old(dst)) + self@.encoded().0);
        assert(cursor::ahead(*dst) =~= cursor::ahead(*old(dst)).skip(
            self@.encoded().0.len() as int,
        ));
        Ok(())
    }

    /// Writes the optional fields.
    fn write_fields(&self, dst: &mut WriteCursor<'_>)
        requires
            self@.wire_size() <= 0xFFFF,
            fields_size(self@.fields, 11) <= cursor::ahead(*old(dst)).len(),
        ensures
            cursor::written(*final(dst)) == cursor::written(*old(dst)) + encoded_fields(
                self@.fields,
                11,
            ),
            cursor::ahead(*final(dst)) == cursor::ahead(*old(dst)).skip(
                fields_size(self@.fields, 11),
            ),
    {
        let ghost fields = self@.fields;
        let ghost start = cursor::written(*dst);
        let ghost space = cursor::ahead(*dst);
        assert(start + encoded_fields(fields, 0) =~= start);
        assert(space.skip(0) =~= space);
        proof {
            lemma_one_more_field(fields, 0, start, space);
        }
        write_length_prefixed_field(dst, &self.target_net_address);
        proof {
            lemma_one_more_field(fields, 1, start, space);
        }
        write_length_prefixed_field(dst, &self.load_balance_info);
        proof {
            lemma_one_more_field(fields, 2, start, space);
        }
        write_length_prefixed_field(dst, &self.user_name);
        proof {
            lemma_one_more_field(fields, 3, start, space);
        }
        write_length_prefixed_field(dst, &self.domain);
        proof {
            lemma_one_more_field(fields, 4, start, space);
        }
        write_length_prefixed_field(dst, &self.password);
        proof {
            lemma_one_more_field(fields, 5, start, space);
        }
        write_length_prefixed_field(dst, &self.target_fqdn);
        proof {
            lemma_one_more_field(fields, 6, start, space);
        }
        write_length_prefixed_field(dst, &self.target_netbios_name);
        proof {
            lemma_one_more_field(fields, 7, start, space);
        }
        write_length_prefixed_field(dst, &self.tsv_url);
        proof {
            lemma_one_more_field(fields, 8, start, space);
        }
        write_length_prefixed_field(dst, &self.redirection_guid);
        proof {
            lemma_one_more_field(fields, 9, start, space);
        }
        write_length_prefixed_field(dst, &self.target_certificate);
        proof {
            lemma_one_more_field(fields, 10, start, space);
        }
        write_length_prefixed_field(dst, &self.target_net_addresses);
    }

    /// Reads a packet. Bytes behind it are padding, and are left.
    pub fn decode(src: &mut ReadCursor<'_>) -> (res: DecodeResult<Self>)
        ensures
            ({
                let (rest, end) = redirection(cursor::unread(*old(src)));
                &&& cursor::unread(*final(src)) == rest
                &&& match end {
                    Ok(packet) => res matches Ok(r) && r@ == packet,
                    Err(fault) => res matches Err(e) && e@ == fault,
                }
            }),
    {
        let ghost s = cursor::unread(*src);
        let left: usize = src.len();
        if left < Self::FIXED_PART_SIZE {
            return Err(
                PduError::NotEnoughBytes { received: left, expected: Self::FIXED_PART_SIZE },
            );
        }
        let marker: u16 = src.read_u16();
        if marker != SEC_REDIRECTION_PKT_MARKER {
            return Err(
                PduError::InvalidField {
                    field: "flags",
                    reason: "expected SEC_REDIRECTION_PKT (0x0400)",
                },
            );
        }
        let _length: u16 = src.read_u16();
        let session_id: u32 = src.read_u32();
        let flags = RedirectionFlags::from_bits_retain(src.read_u32());
        assert(cursor::unread(*src) =~= s.skip(12));
        let ghost whole = optional_fields(s.skip(12), flags, 0, Seq::empty());
        let ghost d0: Seq<Option<Seq<u8>>> = Seq::empty();
        let target_net_address = read_optional_field(
            src,
            flags,
            RedirectionFlags::LB_TARGET_NET_ADDRESS,
            Ghost(0),
            Ghost(d0),
        )?;
        let ghost d1 = d0.push(field_value(target_net_address));
        let load_balance_info = read_optional_field(
            src,
            flags,
            RedirectionFlags::LB_LOAD_BALANCE_INFO,
            Ghost(1),
            Ghost(d1),
        )?;
        let ghost d2 = d1.push(field_value(load_balance_info));
        let user_name = read_optional_field(
            src,
            flags,
            RedirectionFlags::LB_USERNAME,
            Ghost(2),
            Ghost(d2),
        )?;
        let ghost d3 = d2.push(field_value(user_name));
        let domain = read_optional_field(
            src,
            flags,
            RedirectionFlags::LB_DOMAIN,
            Ghost(3),
            Ghost(d3),
        )?;
        let ghost d4 = d3.push(field_value(domain));
        let password = read_optional_field(
            src,
            flags,
            RedirectionFlags::LB_PASSWORD,
            Ghost(4),
            Ghost(d4),
        )?;
        let ghost d5 = d4.push(field_value(password));
        let target_fqdn = read_optional_field(
            src,
            flags,
            RedirectionFlags::LB_TARGET_FQDN,
            Ghost(5),
            Ghost(d5),
        )?;
        let ghost d6 = d5.push(field_value(target_fqdn));
        let target_netbios_name = read_optional_field(
            src,
            flags,
            RedirectionFlags::LB_TARGET_NETBIOS_NAME,
            Ghost(6),
            Ghost(d6),
        )?;
        let ghost d7 = d6.push(field_value(target_netbios_name));
        let tsv_url = read_optional_field(
            src,
            flags,
            RedirectionFlags::LB_CLIENT_TSV_URL,
            Ghost(7),
            Ghost(d7),
        )?;
        let ghost d8 = d7.push(field_value(tsv_url));
        let redirection_guid = read_optional_field(
            src,
            flags,
            RedirectionFlags::LB_REDIRECTION_GUID,
            Ghost(8),
            Ghost(d8),
        )?;
        let ghost d9 = d8.push(field_value(redirection_guid));
        let target_certificate = read_optional_field(
            src,
            flags,
            RedirectionFlags::LB_TARGET_CERTIFICATE,
            Ghost(9),
            Ghost(d9),
        )?;
        let ghost d10 = d9.push(field_value(target_certificate));
        let target_net_addresses = read_optional_field(
            src,
            flags,
            RedirectionFlags::LB_TARGET_NET_ADDRESSES,
            Ghost(10),
            Ghost(d10),
        )?;
        let ghost d11 = d10.push(field_value(target_net_addresses));
        let packet = RdpServerRedirectionPacket {
            session_id,
            flags,
            target_net_address,
            load_balance_info,
            user_name,
            domain,
            password,
            target_fqdn,
            target_netbios_name,
            tsv_url,
            redirection_guid,
            target_certificate,
            target_net_addresses,
        };
        assert(packet@.fields =~= d11);
        Ok(packet)
    }
}

/// One more field on the wire.
proof fn lemma_one_more_field(
    fields: Seq<Option<Seq<u8>>>,
    k: int,
    start: Seq<u8>,
    space: Seq<u8>,
)
    requires
        0 <= k < 11,
        fields_size(fields, 11) <= 0xFFFF,
        fields_size(fields, 11) <= space.len(),
    ensures
        start + encoded_fields(fields, k + 1) == (start + encoded_fields(fields, k))
            + encoded_field(fields[k]),
        field_size(fields[k]) <= 0xFFFF,
        field_size(fields[k]) <= space.skip(fields_size(fields, k)).len(),
        space.skip(fields_size(fields, k + 1)) == space.skip(fields_size(fields, k)).skip(
            field_size(fields[k]),
        ),
{
    lemma_fields_size(fields, k);
    lemma_fields_size_grows(fields, k + 1, 11);
    assert(start + encoded_fields(fields, k + 1) =~= (start + encoded_fields(fields, k))
        + encoded_field(fields[k]));
    assert(space.skip(fields_size(fields, k + 1)) =~= space.skip(fields_size(fields, k)).skip(
        field_size(fields[k]),
    ));
}

} // verus!
