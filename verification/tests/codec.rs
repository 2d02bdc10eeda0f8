use plunkit_server::protocol::types::{
    copy_range, pack_position, read_i64, read_i8, read_position, read_string, read_u16, read_u32,
    read_u64, read_u8, read_uuid, read_varint, read_varlong, to_signed32, to_signed64,
    to_unsigned32, to_unsigned64, unpack_position, varint_len, write_bytes, write_i16, write_i32,
    write_i64, write_i8, write_position, write_string, write_u16, write_u32, write_u64,
    write_uuid, write_varint, write_varlong, PacketFrame, ProtocolError,
};

fn encoded(value: i32) -> Vec<u8> {
    let mut buf = Vec::new();
    write_varint(&mut buf, value);
    buf
}

#[test]
fn varint_boundary_values_round_trip() {
    for value in [0, 1, 127, 128, 255, -1, i32::MAX, i32::MIN] {
        let bytes = encoded(value);
        assert_eq!(read_varint(&bytes, 0), Ok((value, bytes.len())));
        assert_eq!(varint_len(value), bytes.len());
    }
}

#[test]
fn varint_boundary_lengths() {
    assert_eq!(encoded(0), vec![0x00]);
    assert_eq!(encoded(1), vec![0x01]);
    assert_eq!(encoded(127), vec![0x7f]);
    assert_eq!(encoded(128), vec![0x80, 0x01]);
    assert_eq!(encoded(255), vec![0xff, 0x01]);
    assert_eq!(encoded(25565), vec![0xdd, 0xc7, 0x01]);
    assert_eq!(encoded(-1), vec![0xff, 0xff, 0xff, 0xff, 0x0f]);
    assert_eq!(encoded(i32::MAX), vec![0xff, 0xff, 0xff, 0xff, 0x07]);
    assert_eq!(encoded(i32::MIN), vec![0x80, 0x80, 0x80, 0x80, 0x08]);
}

#[test]
fn varint_round_trip_sweep() {
    let mut value: i64 = i32::MIN as i64;
    while value <= i32::MAX as i64 {
        let v = value as i32;
        let bytes = encoded(v);
        assert!(bytes.len() >= 1 && bytes.len() <= 5);
        assert_eq!(read_varint(&bytes, 0), Ok((v, bytes.len())));
        value += 7_654_321;
    }
}

#[test]
fn varint_reads_at_offset_and_ignores_tail() {
    let bytes = vec![0xaa, 0x80, 0x01, 0x55];
    assert_eq!(read_varint(&bytes, 1), Ok((128, 3)));
    assert_eq!(read_varint(&bytes, 3), Ok((0x55, 4)));
}

#[test]
fn varint_rejects_truncated_and_oversized() {
    assert_eq!(read_varint(&[], 0), Err(ProtocolError::InvalidPacket));
    assert_eq!(read_varint(&[0x80], 0), Err(ProtocolError::InvalidPacket));
    assert_eq!(read_varint(&[0x01], 1), Err(ProtocolError::InvalidPacket));
    assert_eq!(read_varint(&[0x01], 7), Err(ProtocolError::InvalidPacket));
    assert_eq!(
        read_varint(&[0x80, 0x80, 0x80, 0x80, 0x80, 0x01], 0),
        Err(ProtocolError::InvalidPacket)
    );
    assert_eq!(
        read_varint(&[0xff, 0xff, 0xff, 0xff, 0xff], 0),
        Err(ProtocolError::InvalidPacket)
    );
}

#[test]
fn varint_fifth_byte_keeps_its_low_four_bits() {
    assert_eq!(read_varint(&[0x80, 0x80, 0x80, 0x80, 0x7f], 0), Ok((-268435456, 5)));
    assert_eq!(read_varint(&[0xff, 0xff, 0xff, 0xff, 0x1f], 0), Ok((-1, 5)));
}

#[test]
fn varlong_round_trip() {
    for value in [0i64, 1, 127, 128, -1, i64::MAX, i64::MIN, 0x1234_5678_9abc] {
        let mut buf = Vec::new();
        write_varlong(&mut buf, value);
        assert!(buf.len() >= 1 && buf.len() <= 10);
        assert_eq!(read_varlong(&buf, 0), Ok((value, buf.len())));
    }
    let mut buf = Vec::new();
    write_varlong(&mut buf, -1);
    assert_eq!(buf, vec![0xff, 0xff, 0xff, 0xff, 0xff, 0xff, 0xff, 0xff, 0xff, 0x01]);
}

#[test]
fn varlong_rejects_eleven_bytes() {
    let bytes = vec![0x80; 11];
    assert_eq!(read_varlong(&bytes, 0), Err(ProtocolError::InvalidPacket));
    let mut ten = vec![0x80; 9];
    ten.push(0x01);
    assert_eq!(read_varlong(&ten, 0), Ok((i64::MIN, 10)));
}

#[test]
fn twos_complement_conversions() {
    assert_eq!(to_unsigned32(-1), u32::MAX);
    assert_eq!(to_unsigned32(i32::MIN), 0x8000_0000);
    assert_eq!(to_signed32(0xffff_fffe), -2);
    assert_eq!(to_signed32(7), 7);
    assert_eq!(to_unsigned64(-1), u64::MAX);
    assert_eq!(to_unsigned64(i64::MIN), 0x8000_0000_0000_0000);
    assert_eq!(to_signed64(0xffff_ffff_ffff_fffe), -2);
    assert_eq!(to_signed64(9), 9);
}

#[test]
fn big_endian_scalars() {
    let mut buf = Vec::new();
    write_u16(&mut buf, 0x1234);
    write_u32(&mut buf, 0xdead_beef);
    write_u64(&mut buf, 0x0102_0304_0506_0708);
    write_i8(&mut buf, -2);
    write_i16(&mut buf, -2);
    write_i32(&mut buf, -2);
    write_i64(&mut buf, -2);
    assert_eq!(
        buf,
        vec![
            0x12, 0x34, 0xde, 0xad, 0xbe, 0xef, 1, 2, 3, 4, 5, 6, 7, 8, 0xfe, 0xff, 0xfe, 0xff,
            0xff, 0xff, 0xfe, 0xff, 0xff, 0xff, 0xff, 0xff, 0xff, 0xff, 0xfe
        ]
    );
    assert_eq!(read_u16(&buf, 0), Ok((0x1234, 2)));
    assert_eq!(read_u32(&buf, 2), Ok((0xdead_beef, 6)));
    assert_eq!(read_u64(&buf, 6), Ok((0x0102_0304_0506_0708, 14)));
    assert_eq!(read_i8(&buf, 14), Ok((-2, 15)));
    assert_eq!(read_u8(&buf, 14), Ok((0xfe, 15)));
    assert_eq!(read_i64(&buf, 21), Ok((-2, 29)));
    assert_eq!(read_i64(&buf, 22), Err(ProtocolError::InvalidPacket));
    assert_eq!(read_u8(&buf, 29), Err(ProtocolError::InvalidPacket));
    assert_eq!(read_u16(&buf, 28), Err(ProtocolError::InvalidPacket));
    assert_eq!(read_u32(&buf, 26), Err(ProtocolError::InvalidPacket));
    assert_eq!(read_u64(&buf, usize::MAX), Err(ProtocolError::InvalidPacket));
}

#[test]
fn bytes_helpers() {
    let mut buf = vec![1u8];
    write_bytes(&mut buf, &[2, 3, 4]);
    assert_eq!(buf, vec![1, 2, 3, 4]);
    assert_eq!(copy_range(&buf, 1, 3), vec![2, 3]);
    assert_eq!(copy_range(&buf, 2, 2), Vec::<u8>::new());
}

#[test]
fn string_round_trip() {
    let mut buf = Vec::new();
    write_string(&mut buf, "héllo");
    assert_eq!(buf, vec![6, b'h', 0xc3, 0xa9, b'l', b'l', b'o']);
    assert_eq!(read_string(&buf, 0, 16), Ok(("héllo".to_string(), 7)));
    let mut empty = Vec::new();
    write_string(&mut empty, "");
    assert_eq!(empty, vec![0]);
    assert_eq!(read_string(&empty, 0, 0), Ok((String::new(), 1)));
}

#[test]
fn string_errors() {
    // five bytes announced, limit of one character allows four
    assert_eq!(
        read_string(&[5, b'a', b'b', b'c', b'd', b'e'], 0, 1),
        Err(ProtocolError::StringTooLong)
    );
    assert_eq!(read_string(&[4, b'a', b'b', b'c', b'd'], 0, 1), Ok(("abcd".to_string(), 5)));
    // negative length
    assert_eq!(
        read_string(&[0xff, 0xff, 0xff, 0xff, 0x0f], 0, 100),
        Err(ProtocolError::StringTooLong)
    );
    // fewer bytes than announced
    assert_eq!(read_string(&[3, b'a', b'b'], 0, 16), Err(ProtocolError::InvalidPacket));
    // not UTF-8
    assert_eq!(read_string(&[2, 0xff, 0xfe], 0, 16), Err(ProtocolError::InvalidPacket));
    assert_eq!(read_string(&[2, 0xc3, 0x28], 0, 16), Err(ProtocolError::InvalidPacket));
    // no length at all
    assert_eq!(read_string(&[], 0, 16), Err(ProtocolError::InvalidPacket));
}

#[test]
fn uuid_is_sixteen_bytes_in_network_order() {
    let id: u128 = 0x0011_2233_4455_6677_8899_aabb_ccdd_eeff;
    let mut buf = Vec::new();
    write_uuid(&mut buf, id);
    assert_eq!(
        buf,
        vec![
            0x00, 0x11, 0x22, 0x33, 0x44, 0x55, 0x66, 0x77, 0x88, 0x99, 0xaa, 0xbb, 0xcc, 0xdd,
            0xee, 0xff
        ]
    );
    assert_eq!(read_uuid(&buf, 0), Ok((id, 16)));
    assert_eq!(read_uuid(&buf, 1), Err(ProtocolError::InvalidPacket));
}

#[test]
fn position_packing_layout() {
    assert_eq!(pack_position(0, 0, 0), 0);
    assert_eq!(pack_position(1, 0, 0), 1u64 << 38);
    assert_eq!(pack_position(0, 1, 0), 1);
    assert_eq!(pack_position(0, 0, 1), 1u64 << 12);
    assert_eq!(pack_position(-1, -1, -1), u64::MAX);
    assert_eq!(pack_position(3, 64, 5), (3u64 << 38) | (5u64 << 12) | 64);
    assert_eq!(unpack_position((3u64 << 38) | (5u64 << 12) | 64), (3, 64, 5));
    assert_eq!(unpack_position(u64::MAX), (-1, -1, -1));
}

#[test]
fn position_round_trip_at_the_edges() {
    let xs = [-(1 << 25), -1, 0, 1, (1 << 25) - 1, 12345, -54321];
    let ys = [-(1 << 11), -1, 0, 1, (1 << 11) - 1, 64, 383];
    for &x in &xs {
        for &y in &ys {
            for &z in &xs {
                assert_eq!(unpack_position(pack_position(x, y, z)), (x, y, z));
                let mut buf = Vec::new();
                write_position(&mut buf, x, y, z);
                assert_eq!(buf.len(), 8);
                assert_eq!(read_position(&buf, 0), Ok(((x, y, z), 8)));
            }
        }
    }
}

#[test]
fn position_writer_cuts_each_field_to_its_width() {
    assert_eq!(unpack_position(pack_position(1 << 25, 1 << 11, 1 << 26)), (-(1 << 25), -(1 << 11), 0));
    assert_eq!(read_position(&[0; 7], 0), Err(ProtocolError::InvalidPacket));
}

#[test]
fn frame_encode_layout() {
    let frame = PacketFrame::new(0x22, vec![9, 8, 7]);
    assert_eq!(frame.encode(), vec![4, 0x22, 9, 8, 7]);
    let empty = PacketFrame::new(0, vec![]);
    assert_eq!(empty.encode(), vec![1, 0]);
    let wide = PacketFrame::new(300, vec![1; 200]);
    let bytes = wide.encode();
    assert_eq!(&bytes[..4], &[0xca, 0x01, 0xac, 0x02]);
    assert_eq!(bytes.len(), 2 + 2 + 200);
}

#[test]
fn frame_round_trip() {
    for id in [0, 1, 0x7f, 0x80, 1 << 28, -1] {
        for len in [0usize, 1, 127, 128, 70_000] {
            let payload: Vec<u8> = (0..len).map(|i| (i % 251) as u8).collect();
            let mut buf = PacketFrame::new(id, payload.clone()).encode();
            buf.extend_from_slice(&[0xaa, 0xbb]);
            let frame = PacketFrame::decode(&mut buf).unwrap().unwrap();
            assert_eq!(frame.id, id);
            assert_eq!(frame.data, payload);
            assert_eq!(buf, vec![0xaa, 0xbb]);
        }
    }
}

#[test]
fn frame_round_trip_with_largest_payload_of_the_law() {
    let payload = vec![0x5a; 1 << 20];
    let mut buf = PacketFrame::new(1 << 28, payload.clone()).encode();
    let frame = PacketFrame::decode(&mut buf).unwrap().unwrap();
    assert_eq!(frame.id, 1 << 28);
    assert_eq!(frame.data, payload);
    assert!(buf.is_empty());
}

#[test]
fn frame_prefix_needs_more_and_consumes_nothing() {
    let whole = PacketFrame::new(0x10, vec![1, 2, 3, 4, 5]).encode();
    for k in 0..whole.len() {
        let mut buf = whole[..k].to_vec();
        assert!(matches!(PacketFrame::decode(&mut buf), Ok(None)));
        assert_eq!(buf, whole[..k].to_vec());
    }
    let long = PacketFrame::new(0x10, vec![7; 300]).encode();
    let mut buf = long[..1].to_vec();
    assert!(matches!(PacketFrame::decode(&mut buf), Ok(None)));
    assert_eq!(buf.len(), 1);
}

#[test]
fn frame_decode_rejects_bad_lengths() {
    let mut oversized = vec![0x80, 0x80, 0x80, 0x80, 0x80, 0x01, 0x00];
    assert!(matches!(PacketFrame::decode(&mut oversized), Err(ProtocolError::InvalidPacket)));
    assert_eq!(oversized.len(), 7);
    let mut negative = vec![0xff, 0xff, 0xff, 0xff, 0x0f, 0x00];
    assert!(matches!(PacketFrame::decode(&mut negative), Err(ProtocolError::InvalidPacket)));
    assert_eq!(negative.len(), 6);
    // a length of zero leaves no room for the identifier
    let mut no_id = vec![0x00, 0x05];
    assert!(matches!(PacketFrame::decode(&mut no_id), Err(ProtocolError::InvalidPacket)));
    assert_eq!(no_id, vec![0x00, 0x05]);
    // the identifier runs past the announced length
    let mut cut_id = vec![0x01, 0x80, 0x01];
    assert!(matches!(PacketFrame::decode(&mut cut_id), Err(ProtocolError::InvalidPacket)));
    assert_eq!(cut_id, vec![0x01, 0x80, 0x01]);
}

#[test]
fn frames_come_off_the_buffer_one_by_one() {
    let mut buf = PacketFrame::new(1, vec![1]).encode();
    buf.extend(PacketFrame::new(2, vec![2, 2]).encode());
    let first = PacketFrame::decode(&mut buf).unwrap().unwrap();
    let second = PacketFrame::decode(&mut buf).unwrap().unwrap();
    assert_eq!((first.id, first.data), (1, vec![1]));
    assert_eq!((second.id, second.data), (2, vec![2, 2]));
    assert!(matches!(PacketFrame::decode(&mut buf), Ok(None)));
}

#[test]
fn error_messages() {
    assert_eq!(ProtocolError::InvalidPacket.message(), "Invalid packet");
    assert_eq!(ProtocolError::UnsupportedVersion.message(), "Unsupported protocol version");
    assert_eq!(ProtocolError::InvalidState.message(), "Invalid state transition");
    assert_eq!(ProtocolError::StringTooLong.message(), "String too long");
}
