use ironrdp_core::{ReadCursor, WriteCursor};
use rdp_codec::headers::{
    BasicSecurityHeader, BasicSecurityHeaderFlags, CompressionFlags, CompressionType, Decoded,
    InnerPdu, PduError, PendingControlPdu, RdpServerRedirectionPacket, RedirectionFlags,
    ServerDeactivateAll, ShareControlHeader, ShareControlPdu, ShareControlPduType,
    ShareDataHeader, ShareDataPdu, ShareDataPduKind, ShareDataPduType, StreamPriority,
    PROTOCOL_VERSION,
};

fn inner(image: &[u8]) -> InnerPdu {
    InnerPdu { image: image.to_vec() }
}

fn data(pdu: ShareDataPdu) -> ShareDataHeader {
    ShareDataHeader {
        share_data_pdu: pdu,
        stream_priority: StreamPriority::Medium,
        compression_flags: CompressionFlags::from_bits_retain(0),
        compression_type: CompressionType::K64,
    }
}

fn control(pdu: ShareControlPdu) -> ShareControlHeader {
    ShareControlHeader { share_control_pdu: pdu, pdu_source: 0x03EA, share_id: 0x0001_03EA }
}

fn bare_packet() -> RdpServerRedirectionPacket {
    RdpServerRedirectionPacket {
        session_id: 0,
        flags: RedirectionFlags::from_bits_retain(0),
        target_net_address: None,
        load_balance_info: None,
        user_name: None,
        domain: None,
        password: None,
        target_fqdn: None,
        target_netbios_name: None,
        tsv_url: None,
        redirection_guid: None,
        target_certificate: None,
        target_net_addresses: None,
    }
}

fn not_enough(received: usize, expected: usize) -> PduError {
    PduError::NotEnoughBytes { received, expected }
}

fn invalid(field: &'static str, reason: &'static str) -> PduError {
    PduError::InvalidField { field, reason }
}

fn write_control(header: &ShareControlHeader) -> Vec<u8> {
    let mut buffer = vec![0xEEu8; header.size()];
    let mut dst = WriteCursor::new(&mut buffer);
    assert_eq!(header.encode(&mut dst), Ok(()));
    assert_eq!(dst.pos(), header.size());
    buffer
}

fn completed(wire: &[u8]) -> ShareControlHeader {
    match ShareControlHeader::decode(&mut ReadCursor::new(wire)) {
        Ok(Decoded::Complete(header)) => header,
        other => panic!("not complete: {:?}", other),
    }
}

#[test]
fn decodes_share_control_wrapped_server_redirection() {
    let cookie = b"Cookie: msts=1611166392\r\n";
    let user: Vec<u8> = "u\0".encode_utf16().flat_map(|c| c.to_le_bytes()).collect();

    let mut body = Vec::new();
    body.extend(0x0400u16.to_le_bytes());
    let flags = RedirectionFlags::from_bits_retain(
        RedirectionFlags::LB_LOAD_BALANCE_INFO | RedirectionFlags::LB_USERNAME,
    );
    let length = 12 + 4 + cookie.len() + 4 + user.len();
    body.extend((u16::try_from(length).unwrap()).to_le_bytes());
    body.extend(0u32.to_le_bytes());
    body.extend(flags.bits().to_le_bytes());
    body.extend((u32::try_from(cookie.len()).unwrap()).to_le_bytes());
    body.extend_from_slice(cookie);
    body.extend((u32::try_from(user.len()).unwrap()).to_le_bytes());
    body.extend_from_slice(&user);

    let mut wire = Vec::new();
    wire.extend((u16::try_from(6 + 2 + body.len()).unwrap()).to_le_bytes());
    wire.extend((PROTOCOL_VERSION | ShareControlPduType::ServerRedirect.as_u16()).to_le_bytes());
    wire.extend(0u16.to_le_bytes());
    // Two bytes of padding where the others have a share id.
    wire.extend(0u16.to_le_bytes());
    wire.extend_from_slice(&body);

    let mut cursor = ReadCursor::new(&wire);
    let Decoded::Complete(header) = ShareControlHeader::decode(&mut cursor).expect("decode") else {
        panic!("expected a complete header");
    };
    let ShareControlPdu::ServerRedirect(packet) = header.share_control_pdu else {
        panic!("expected ServerRedirect, got {}", header.share_control_pdu.as_short_name());
    };
    assert_eq!(packet.flags, flags);
    assert_eq!(packet.load_balance_info.as_deref(), Some(cookie.as_slice()));
    assert_eq!(packet.user_name.as_deref(), Some(user.as_slice()));
    assert_eq!(packet.password, None);
    assert_eq!(header.share_id, 0);
    assert!(cursor.is_empty());
}

#[test]
fn security_header_round_trip() {
    let bits = BasicSecurityHeaderFlags::INFO_PKT | BasicSecurityHeaderFlags::FLAGSHI_VALID;
    let header = BasicSecurityHeader { flags: BasicSecurityHeaderFlags::from_bits(bits).unwrap() };
    assert_eq!(header.name(), "BasicSecurityHeader");
    assert_eq!(header.size(), 4);
    let mut buffer = [0xEEu8; 5];
    let mut dst = WriteCursor::new(&mut buffer);
    assert_eq!(header.encode(&mut dst), Ok(()));
    assert_eq!(dst.pos(), 4);
    assert_eq!(buffer, [0x40, 0x80, 0, 0, 0xEE]);
    let mut src = ReadCursor::new(&buffer);
    assert_eq!(BasicSecurityHeader::decode(&mut src), Ok(header));
    assert_eq!(src.remaining(), [0xEE]);
}

#[test]
fn security_header_needs_four_bytes() {
    let header = BasicSecurityHeader { flags: BasicSecurityHeaderFlags::from_bits(8).unwrap() };
    let mut buffer = [0xEEu8; 3];
    let mut dst = WriteCursor::new(&mut buffer);
    assert_eq!(header.encode(&mut dst), Err(not_enough(3, 4)));
    assert_eq!(dst.pos(), 0);
    let mut src = ReadCursor::new(&[1, 2, 3]);
    assert_eq!(BasicSecurityHeader::decode(&mut src), Err(not_enough(3, 4)));
    // The upper half of the flags is not looked at, and every bit of the lower half is known.
    let decoded = BasicSecurityHeader::decode(&mut ReadCursor::new(&[0xFF, 0xFF, 9, 9])).unwrap();
    assert_eq!(decoded.flags.bits(), 0xFFFF);
}

#[test]
fn full_write_cursor_is_refused() {
    // A cursor that was moved past its end has no room.
    let mut buffer = [0u8; 2];
    let mut dst = WriteCursor::new(&mut buffer);
    dst.advance(5);
    assert_eq!(ServerDeactivateAll.encode(&mut dst), Err(not_enough(0, 3)));
}

#[test]
fn codes_are_read_back() {
    for n in 0..=0xFFu8 {
        assert!(StreamPriority::from_u8(n).is_none_or(|v| v.as_u8() == n));
        assert!(ShareDataPduType::from_u8(n).is_none_or(|v| v.as_u8() == n));
        assert!(CompressionType::from_u8(n).is_none_or(|v| v.as_u8() == n));
        assert!(ShareControlPduType::from_u16(n.into()).is_none_or(|v| v.as_u16() == n.into()));
    }
    assert_eq!(StreamPriority::from_u8(4), Some(StreamPriority::High));
    assert_eq!(StreamPriority::from_u8(3), None);
    assert_eq!(ShareControlPduType::from_u16(0xa), Some(ShareControlPduType::ServerRedirect));
    assert_eq!(ShareDataPduType::from_u8(0x3b), Some(ShareDataPduType::AutoDetect));
    assert_eq!(ShareDataPduType::from_u8(0x2a), None);
    assert_eq!(CompressionType::from_u8(3), Some(CompressionType::Rdp61));
    assert_eq!(CompressionType::from_u8(4), None);
}

#[test]
fn deactivate_all_on_the_wire() {
    let header = control(ShareControlPdu::ServerDeactivateAll(ServerDeactivateAll));
    let wire = write_control(&header);
    let expected = [13, 0, 0x16, 0, 0xEA, 3, 0xEA, 3, 1, 0, 1, 0, 0];
    assert_eq!(wire, expected);
    assert_eq!(completed(&wire), header);
    assert_eq!(header.name(), "ShareControlHeader");
    assert_eq!(header.share_control_pdu.name(), "ShareControlPdu");
    assert_eq!(header.share_control_pdu.as_short_name(), "Server Deactivate All PDU");
    assert_eq!(ServerDeactivateAll.name(), "Server Deactivate All");
}

#[test]
fn deactivate_all_may_be_short() {
    for wire in [&[][..], &[0][..], &[0, 0][..]] {
        let mut src = ReadCursor::new(wire);
        assert_eq!(ServerDeactivateAll::decode(&mut src), Ok(ServerDeactivateAll));
        assert_eq!(src.remaining(), wire);
    }
    // The descriptor is passed over, and may be empty.
    let mut src = ReadCursor::new(&[2, 0, 7, 7, 9]);
    assert_eq!(ServerDeactivateAll::decode(&mut src), Ok(ServerDeactivateAll));
    assert_eq!(src.remaining(), [9]);
    let mut src = ReadCursor::new(&[0, 0, 7]);
    assert_eq!(ServerDeactivateAll::decode(&mut src), Ok(ServerDeactivateAll));
    assert_eq!(src.remaining(), [7]);
    let mut src = ReadCursor::new(&[3, 0, 7]);
    assert_eq!(ServerDeactivateAll::decode(&mut src), Err(not_enough(1, 3)));
}

#[test]
fn redirection_round_trip() {
    let mut packet = bare_packet();
    packet.session_id = 0x0102_0304;
    packet.flags = RedirectionFlags::from_bits_retain(
        RedirectionFlags::LB_TARGET_NET_ADDRESS
            | RedirectionFlags::LB_PASSWORD
            | RedirectionFlags::LB_NOREDIRECT
            | RedirectionFlags::LB_TARGET_NET_ADDRESSES,
    );
    packet.target_net_address = Some(vec![1, 2]);
    packet.password = Some(Vec::new());
    packet.target_net_addresses = Some(vec![3]);
    assert_eq!(packet.name(), "Server Redirection Packet");
    assert_eq!(packet.size(), 12 + 6 + 4 + 5);
    let mut buffer = vec![0u8; 29];
    let mut dst = WriteCursor::new(&mut buffer);
    assert_eq!(packet.encode(&mut dst), Ok(()));
    assert_eq!(dst.pos(), 27);
    let expected = [
        0x00, 0x04, 27, 0, 4, 3, 2, 1, 0x91, 0x08, 0, 0, // marker to flags
        2, 0, 0, 0, 1, 2, // target address
        0, 0, 0, 0, // password
        1, 0, 0, 0, 3, // target addresses
    ];
    assert_eq!(buffer[..27], expected);
    let mut src = ReadCursor::new(&buffer);
    assert_eq!(RdpServerRedirectionPacket::decode(&mut src), Ok(packet));
    // What follows is padding.
    assert_eq!(src.len(), 2);
}

#[test]
fn every_redirection_field_has_its_place() {
    let flags = [
        RedirectionFlags::LB_TARGET_NET_ADDRESS,
        RedirectionFlags::LB_LOAD_BALANCE_INFO,
        RedirectionFlags::LB_USERNAME,
        RedirectionFlags::LB_DOMAIN,
        RedirectionFlags::LB_PASSWORD,
        RedirectionFlags::LB_TARGET_FQDN,
        RedirectionFlags::LB_TARGET_NETBIOS_NAME,
        RedirectionFlags::LB_CLIENT_TSV_URL,
        RedirectionFlags::LB_REDIRECTION_GUID,
        RedirectionFlags::LB_TARGET_CERTIFICATE,
        RedirectionFlags::LB_TARGET_NET_ADDRESSES,
    ];
    let all = flags.iter().fold(0, |a, b| a | b);
    let mut wire = vec![0x00, 0x04, 0, 0, 0, 0, 0, 0];
    wire.extend(all.to_le_bytes());
    for i in 0..11u8 {
        wire.extend([1, 0, 0, 0, i]);
    }
    let packet = RdpServerRedirectionPacket::decode(&mut ReadCursor::new(&wire)).unwrap();
    assert!(flags.iter().all(|f| packet.flags.contains(*f)));
    let fields = [
        &packet.target_net_address,
        &packet.load_balance_info,
        &packet.user_name,
        &packet.domain,
        &packet.password,
        &packet.target_fqdn,
        &packet.target_netbios_name,
        &packet.tsv_url,
        &packet.redirection_guid,
        &packet.target_certificate,
        &packet.target_net_addresses,
    ];
    for (i, field) in fields.iter().enumerate() {
        assert_eq!(field.as_deref(), Some(&[i as u8][..]));
    }
    assert_eq!(packet.size(), wire.len());
}

#[test]
fn redirection_errors() {
    let decode = |wire: &[u8]| RdpServerRedirectionPacket::decode(&mut ReadCursor::new(wire));
    assert_eq!(decode(&[0; 11]), Err(not_enough(11, 12)));
    assert_eq!(
        decode(&[0; 12]),
        Err(invalid("flags", "expected SEC_REDIRECTION_PKT (0x0400)"))
    );
    let head = [0x00, 0x04, 0, 0, 0, 0, 0, 0, 1, 0, 0, 0];
    let with = |tail: &[u8]| [&head[..], tail].concat();
    assert_eq!(decode(&with(&[0, 0])), Err(not_enough(2, 4)));
    assert_eq!(decode(&with(&[3, 0, 0, 0, 1])), Err(not_enough(1, 3)));
    let mut dst = [0u8; 11];
    assert_eq!(bare_packet().encode(&mut WriteCursor::new(&mut dst)), Err(not_enough(11, 12)));
}

#[test]
fn redirection_can_be_too_long_for_its_length_field() {
    let mut packet = bare_packet();
    packet.domain = Some(vec![0; 0x1_0000]);
    let mut buffer = vec![0u8; packet.size()];
    let mut dst = WriteCursor::new(&mut buffer);
    assert_eq!(packet.encode(&mut dst), Err(invalid("length", "too many elements")));
    // The marker has been written by then.
    assert_eq!(dst.pos(), 2);
}

#[test]
fn redirection_is_written_without_a_share_id() {
    let mut packet = bare_packet();
    packet.flags = RedirectionFlags::from_bits_retain(RedirectionFlags::LB_DOMAIN);
    packet.domain = Some(vec![7, 8]);
    let mut header = control(ShareControlPdu::ServerRedirect(packet));
    assert_eq!(header.size(), 26);
    let wire = write_control(&header);
    let expected = [
        26, 0, 0x1A, 0, 0xEA, 3, 0, 0, // header and padding
        0x00, 0x04, 18, 0, 0, 0, 0, 0, 8, 0, 0, 0, // marker to flags
        2, 0, 0, 0, 7, 8, // domain
    ];
    assert_eq!(wire, expected);
    // It is read back, with a share id of zero.
    header.share_id = 0;
    assert_eq!(completed(&wire), header);
    let mut short = [0u8; 25];
    assert_eq!(header.encode(&mut WriteCursor::new(&mut short)), Err(not_enough(25, 26)));
}

#[test]
fn data_header_on_the_wire() {
    let header = data(ShareDataPdu::Synchronize(inner(&[1, 0, 0xEA, 3])));
    assert_eq!(header.name(), "ShareDataHeader");
    assert_eq!(header.share_data_pdu.name(), "ShareDataPdu");
    assert_eq!(header.size(), 12);
    let mut buffer = [0xEEu8; 13];
    let mut dst = WriteCursor::new(&mut buffer);
    assert_eq!(header.encode(&mut dst), Ok(()));
    assert_eq!(buffer, [0, 2, 4, 0, 0x1f, 1, 0, 0, 1, 0, 0xEA, 3, 0xEE]);
    let mut src = ReadCursor::new(&buffer);
    let Ok(Decoded::Inner(pending)) = ShareDataHeader::decode(&mut src) else {
        panic!("expected an inner PDU");
    };
    assert_eq!(pending.kind, ShareDataPduKind::Synchronize);
    assert_eq!(src.remaining(), [1, 0, 0xEA, 3, 0xEE]);
    assert_eq!(pending.complete(inner(&[1, 0, 0xEA, 3])), header);
}

#[test]
fn data_header_errors() {
    let decode = |wire: &[u8]| ShareDataHeader::decode(&mut ReadCursor::new(wire));
    assert_eq!(decode(&[0; 7]), Err(not_enough(7, 8)));
    assert_eq!(
        decode(&[0, 3, 0, 0, 0x24, 0, 0, 0]),
        Err(invalid("streamPriority", "Invalid stream priority"))
    );
    assert_eq!(decode(&[0, 1, 0, 0, 0x03, 0, 0, 0]), Err(invalid("pduType", "Invalid pdu type")));
    assert_eq!(
        decode(&[0, 1, 0, 0, 0x24, 0x25, 0, 0]),
        Err(invalid("compressionType", "Invalid compression type"))
    );
    assert_eq!(decode(&[0, 1, 0, 0, 0x3b, 0, 0, 0, 6]), Err(not_enough(1, 2)));
}

#[test]
fn compressed_data_is_read_and_not_written() {
    let wire = [0, 1, 0, 0, 0x02, 0x63, 0, 0, 9, 8, 7];
    let mut src = ReadCursor::new(&wire);
    let Ok(Decoded::Complete(header)) = ShareDataHeader::decode(&mut src) else {
        panic!("expected an update");
    };
    let both = CompressionFlags::COMPRESSED | CompressionFlags::AT_FRONT;
    assert_eq!(header.compression_flags.bits(), both);
    assert_eq!(header.compression_type, CompressionType::Rdp61);
    assert_eq!(header.share_data_pdu, ShareDataPdu::Update(vec![9, 8, 7]));
    // The update is kept, and not passed over.
    assert_eq!(src.remaining(), [9, 8, 7]);
    let mut buffer = [0u8; 11];
    let mut dst = WriteCursor::new(&mut buffer);
    assert_eq!(
        header.encode(&mut dst),
        Err(PduError::Other { description: "Compression is not implemented" })
    );
    assert_eq!(dst.pos(), 0);
}

#[test]
fn raw_data_is_not_written() {
    let header = data(ShareDataPdu::PlaySound(vec![1, 2]));
    let mut buffer = [0xEEu8; 10];
    let mut dst = WriteCursor::new(&mut buffer);
    assert_eq!(
        header.encode(&mut dst),
        Err(PduError::Other { description: "Encoding not implemented" })
    );
    // The header has been written by then.
    assert_eq!(dst.pos(), 8);
    assert_eq!(buffer, [0, 2, 2, 0, 0x22, 1, 0, 0, 0xEE, 0xEE]);
    let mut short = [0u8; 9];
    assert_eq!(header.encode(&mut WriteCursor::new(&mut short)), Err(not_enough(9, 10)));
}

#[test]
fn data_can_be_too_long_for_its_length_field() {
    let header = data(ShareDataPdu::Input(InnerPdu { image: vec![0; 0x1_0000] }));
    let mut buffer = vec![0xEEu8; header.size()];
    let mut dst = WriteCursor::new(&mut buffer);
    assert_eq!(header.encode(&mut dst), Err(invalid("uncompressedLength", "too many elements")));
    assert_eq!(dst.pos(), 2);
    let header = control(ShareControlPdu::ClientConfirmActive(InnerPdu {
        image: vec![0; 0xFFF6],
    }));
    let mut buffer = vec![0xEEu8; header.size()];
    let mut dst = WriteCursor::new(&mut buffer);
    assert_eq!(header.encode(&mut dst), Err(invalid("len", "too many elements")));
    assert_eq!(dst.pos(), 0);
}

#[test]
fn every_data_kind_is_read_as_its_type() {
    let raw = [
        (0x02, "Update PDU"),
        (0x1b, "Pointer PDU"),
        (0x22, "Play Sound PDU"),
        (0x29, "Set Keyboard Indicators PDU"),
        (0x2b, "Bitmap Cache Persistent List PDU"),
        (0x2c, "Bitmap Cache Error PDU"),
        (0x2d, "Set Keyboard IME Status PDU"),
        (0x2e, "Offscreen Cache Error PDU"),
        (0x30, "Draw Nine Grid Error PDU"),
        (0x31, "Draw GDI PUS Error PDU"),
        (0x32, "Arc Status PDU"),
        (0x36, "Status Info PDU"),
    ];
    for (code, name) in raw {
        let wire = [0, 1, 0, 0, code, 0, 0, 0, 5, 6];
        let mut src = ReadCursor::new(&wire);
        let Ok(Decoded::Complete(header)) = ShareDataHeader::decode(&mut src) else {
            panic!("expected {}", name);
        };
        assert_eq!(header.share_data_pdu.as_short_name(), name);
        assert_eq!(header.share_data_pdu.share_header_type().as_u8(), code);
        assert_eq!(header.size(), 10);
        assert_eq!(src.len(), 2);
    }
    let bare = [(0x24, "Shutdown Request PDU"), (0x25, "Shutdown Denied PDU")];
    for (code, name) in bare {
        let wire = [0, 1, 0, 0, code, 0, 0, 0, 5, 6];
        let Ok(Decoded::Complete(header)) = ShareDataHeader::decode(&mut ReadCursor::new(&wire))
        else {
            panic!("expected {}", name);
        };
        assert_eq!(header.share_data_pdu.as_short_name(), name);
        assert_eq!(header.share_data_pdu.share_header_type().as_u8(), code);
        assert_eq!(header.size(), 8);
    }
    let own = [
        (0x1f, 1, "Synchronize PDU"),
        (0x14, 1, "Control PDU"),
        (0x27, 1, "FontList PDU"),
        (0x28, 1, "Font Map PDU"),
        (0x37, 1, "Monitor Layout PDU"),
        (0x26, 1, "Save session info PDU"),
        (0x38, 1, "Frame Acknowledge PDU"),
        (0x2f, 1, "Server Set Error Info PDU"),
        (0x1c, 1, "Server Input PDU"),
        (0x23, 1, "Suppress Output PDU"),
        (0x21, 1, "Refresh Rectangle PDU"),
        (0x3b, 0, "Auto-Detect Request PDU"),
        (0x3b, 1, "Auto-Detect Response PDU"),
        (0x3b, 2, "Auto-Detect Response PDU"),
    ];
    for (code, second, name) in own {
        let wire = [0, 1, 0, 0, code, 0, 0, 0, 6, second];
        let mut src = ReadCursor::new(&wire);
        let Ok(Decoded::Inner(pending)) = ShareDataHeader::decode(&mut src) else {
            panic!("expected {}", name);
        };
        assert_eq!(src.remaining(), [6, second]);
        let header = pending.complete(inner(&[6, second]));
        assert_eq!(header.share_data_pdu.as_short_name(), name);
        assert_eq!(header.share_data_pdu.share_header_type().as_u8(), code);
        // What was read is written again, but for the lengths.
        let mut buffer = [0u8; 10];
        assert_eq!(header.encode(&mut WriteCursor::new(&mut buffer)), Ok(()));
        assert_eq!(buffer, [0, 1, 2, 0, code, 0, 0, 0, 6, second]);
    }
}

#[test]
fn control_headers_of_inner_pdus() {
    let body = [1, 2, 3];
    let demand = control(ShareControlPdu::ServerDemandActive(inner(&body)));
    let confirm = control(ShareControlPdu::ClientConfirmActive(inner(&body)));
    let input = control(ShareControlPdu::Data(data(ShareDataPdu::Input(inner(&body)))));
    for (header, code, name) in [
        (demand, 0x1, "Server Demand Active PDU"),
        (confirm, 0x3, "Client Confirm Active PDU"),
        (input, 0x7, "Data PDU"),
    ] {
        assert_eq!(header.share_control_pdu.as_short_name(), name);
        assert_eq!(header.share_control_pdu.share_header_type().as_u16(), code);
        let mut wire = write_control(&header);
        assert_eq!(wire.len(), header.size());
        wire.push(0xEE);
        let mut src = ReadCursor::new(&wire);
        let Ok(Decoded::Inner(pending)) = ShareControlHeader::decode(&mut src) else {
            panic!("expected an inner PDU");
        };
        assert_eq!(src.remaining(), [1, 2, 3, 0xEE]);
        src.advance(3);
        assert_eq!(pending.complete(&mut src, Ok(inner(&body))), Ok(header));
        assert_eq!(src.remaining(), [0xEE]);
    }
}

#[test]
fn inner_errors_are_passed_on() {
    let wire = write_control(&control(ShareControlPdu::ServerDemandActive(inner(&[1]))));
    let mut src = ReadCursor::new(&wire);
    let Ok(Decoded::Inner(pending)) = ShareControlHeader::decode(&mut src) else {
        panic!("expected an inner PDU");
    };
    assert_eq!(pending.pdu, PendingControlPdu::ServerDemandActive);
    let error = PduError::Other { description: "inner" };
    assert_eq!(pending.complete(&mut src, Err(error)), Err(error));
    assert_eq!(src.len(), 1);
}

#[test]
fn padding_behind_data_is_taken() {
    let header = control(ShareControlPdu::Data(data(ShareDataPdu::ShutdownDenied)));
    let mut wire = write_control(&header);
    assert_eq!(wire.len(), 18);
    assert_eq!(completed(&wire), header);
    // Two more bytes are announced.
    wire[0] = 20;
    wire.extend([0xAA, 0xBB, 0xCC]);
    let mut src = ReadCursor::new(&wire);
    assert_eq!(ShareControlHeader::decode(&mut src), Ok(Decoded::Complete(header)));
    assert_eq!(src.remaining(), [0xCC]);
    // More are announced than there are.
    wire[0] = 22;
    let mut src = ReadCursor::new(&wire);
    assert_eq!(ShareControlHeader::decode(&mut src), Err(not_enough(3, 4)));
    // Fewer are announced than the PDU has.
    wire[0] = 17;
    let mut src = ReadCursor::new(&wire);
    assert_eq!(ShareControlHeader::decode(&mut src), Err(not_enough(17, 18)));
}

#[test]
fn padding_behind_an_inner_pdu_is_taken() {
    let header = control(ShareControlPdu::Data(data(ShareDataPdu::FontMap(inner(&[4, 5])))));
    let mut wire = write_control(&header);
    wire[0] += 3;
    wire.extend([0, 0, 0, 0xEE]);
    let mut src = ReadCursor::new(&wire);
    let Ok(Decoded::Inner(pending)) = ShareControlHeader::decode(&mut src) else {
        panic!("expected an inner PDU");
    };
    src.advance(2);
    assert_eq!(pending.complete(&mut src, Ok(inner(&[4, 5]))), Ok(header));
    assert_eq!(src.remaining(), [0xEE]);
}

#[test]
fn control_header_errors() {
    let decode = |wire: &[u8]| ShareControlHeader::decode(&mut ReadCursor::new(wire));
    assert_eq!(decode(&[0; 9]), Err(not_enough(9, 10)));
    assert_eq!(decode(&[0; 10]), Err(invalid("pdu_type", "invalid pdu type")));
    let versioned = |low: u8, high: u8| [0, 0, low, high, 0, 0, 0, 0, 0, 0];
    assert_eq!(decode(&versioned(0x12, 0)), Err(invalid("pdu_type", "invalid pdu type")));
    assert_eq!(decode(&versioned(0x06, 0)), Err(invalid("pdu_version", "invalid PDU version")));
    assert_eq!(decode(&versioned(0x26, 0)), Err(invalid("pdu_version", "invalid PDU version")));
    assert_eq!(decode(&versioned(0x16, 1)), Err(invalid("pdu_version", "invalid PDU version")));
    assert_eq!(decode(&versioned(0x17, 0)), Err(not_enough(0, 8)));
    assert_eq!(decode(&versioned(0x1a, 0)), Err(not_enough(2, 12)));
    let mut short = [0u8; 12];
    let header = control(ShareControlPdu::ServerDeactivateAll(ServerDeactivateAll));
    assert_eq!(header.encode(&mut WriteCursor::new(&mut short)), Err(not_enough(12, 13)));
}
