use plunkit_server::protocol::connection::MinecraftConnection;
use plunkit_server::protocol::packets::{ClientBoundPacket, ServerBoundPacket};
use plunkit_server::protocol::types::{
    read_varint, write_string, write_u16, write_varint, ConnectionState, PacketFrame,
    ProtocolError,
};

#[test]
fn below_the_threshold_a_frame_travels_behind_the_marker_zero() {
    let frame = PacketFrame::new(0x21, vec![1, 2, 3]);
    assert_eq!(frame.body(), vec![0x21, 1, 2, 3]);
    let bytes = frame.encode_compressed(256).unwrap();
    assert_eq!(bytes, vec![5, 0, 0x21, 1, 2, 3]);
    assert_eq!(frame.encode_compressed_with(256, &[9, 9]), vec![5, 0, 0x21, 1, 2, 3]);
    let mut buf = bytes;
    let back = PacketFrame::decode_compressed(&mut buf).unwrap().unwrap();
    assert_eq!((back.id, back.data), (0x21, vec![1, 2, 3]));
    assert!(buf.is_empty());
}

#[test]
fn at_the_threshold_a_frame_travels_compressed() {
    let payload = vec![0u8; 1000];
    let frame = PacketFrame::new(0x22, payload.clone());
    let bytes = frame.encode_compressed(1000).unwrap();
    assert!(bytes.len() < 100);
    let (total, header) = read_varint(&bytes, 0).unwrap();
    assert_eq!(total as usize + header, bytes.len());
    let (marker, start) = read_varint(&bytes, header).unwrap();
    assert_eq!(marker, 1001);
    assert_eq!(bytes[start], 0x78);
    let mut buf = bytes.clone();
    buf.extend([0xaa]);
    let back = PacketFrame::decode_compressed(&mut buf).unwrap().unwrap();
    assert_eq!(back.id, 0x22);
    assert_eq!(back.data, payload);
    assert_eq!(buf, vec![0xaa]);

    let below = frame.encode_compressed(1001).unwrap();
    assert_eq!(below.len(), 2 + 1 + 1 + 1000);
    let always = PacketFrame::new(1, vec![]).encode_compressed(-5).unwrap();
    let mut buf = always;
    let back = PacketFrame::decode_compressed(&mut buf).unwrap().unwrap();
    assert_eq!((back.id, back.data), (1, vec![]));
}

#[test]
fn compressed_frame_with_given_packed_bytes() {
    let frame = PacketFrame::new(7, vec![1; 10]);
    assert_eq!(frame.encode_compressed_with(10, &[0xde, 0xad]), vec![3, 11, 0xde, 0xad]);
    assert_eq!(frame.encode_compressed_with(0, &[]), vec![1, 11]);
}

#[test]
fn compressed_frames_that_hold_no_frame() {
    // more bytes are needed
    let mut partial = vec![5, 0, 1];
    assert!(matches!(PacketFrame::decode_compressed(&mut partial), Ok(None)));
    assert_eq!(partial, vec![5, 0, 1]);
    // marker says 4 bytes, the data is no zlib stream
    let mut garbage = vec![4, 4, 1, 2, 3, 0xee];
    assert!(matches!(
        PacketFrame::decode_compressed(&mut garbage),
        Err(ProtocolError::InvalidPacket)
    ));
    assert_eq!(garbage, vec![0xee]);
    // a stream of another length than the marker says
    let honest = PacketFrame::new(1, vec![0; 50]).encode_compressed(0).unwrap();
    let (_, header) = read_varint(&honest, 0).unwrap();
    let (marker, start) = read_varint(&honest, header).unwrap();
    assert_eq!(marker, 51);
    let lying = PacketFrame::new(52, honest[start..].to_vec()).encode();
    let mut buf = lying;
    assert!(matches!(
        PacketFrame::decode_compressed(&mut buf),
        Err(ProtocolError::InvalidPacket)
    ));
    // a negative marker
    let mut negative = PacketFrame::new(-1, vec![1]).encode();
    assert!(matches!(
        PacketFrame::decode_compressed(&mut negative),
        Err(ProtocolError::InvalidPacket)
    ));
    // marker zero and no identifier
    let mut empty = vec![1, 0];
    assert!(matches!(
        PacketFrame::decode_compressed(&mut empty),
        Err(ProtocolError::InvalidPacket)
    ));
    // an oversized length
    let mut oversized = vec![0x80; 6];
    assert!(matches!(
        PacketFrame::decode_compressed(&mut oversized),
        Err(ProtocolError::InvalidPacket)
    ));
    assert_eq!(oversized.len(), 6);
}

#[test]
fn open_compressed_checks_marker_and_length() {
    let plain = PacketFrame::new(0, vec![5, 6, 7]);
    let opened = PacketFrame::open_compressed(&plain, None).unwrap();
    assert_eq!((opened.id, opened.data), (5, vec![6, 7]));
    let packed = PacketFrame::new(3, vec![0xff]);
    assert!(PacketFrame::open_compressed(&packed, None).is_err());
    assert!(PacketFrame::open_compressed(&packed, Some(&[1, 2])).is_err());
    let opened = PacketFrame::open_compressed(&packed, Some(&[9, 2, 3])).unwrap();
    assert_eq!((opened.id, opened.data), (9, vec![2, 3]));
    assert!(PacketFrame::from_body(&[]).is_err());
    let whole = PacketFrame::from_body(&[0x80, 0x01, 4]).unwrap();
    assert_eq!((whole.id, whole.data), (128, vec![4]));
}

#[test]
fn connection_with_a_threshold_reads_what_it_writes() {
    let mut sender = MinecraftConnection::new();
    sender.set_compression(16);
    let short = sender.write_packet(&ClientBoundPacket::KeepAlive { id: 5 }).unwrap();
    assert_eq!(short, vec![10, 0, 0x21, 0, 0, 0, 0, 0, 0, 0, 5]);
    let long = sender
        .write_packet(&ClientBoundPacket::ChunkData { x: 0, z: 0, data: vec![0; 5000] })
        .unwrap();
    assert!(long.len() < 200);

    let mut handshake = Vec::new();
    write_varint(&mut handshake, 762);
    write_string(&mut handshake, &"a".repeat(200));
    write_u16(&mut handshake, 25565);
    write_varint(&mut handshake, 1);
    let frame = PacketFrame::new(0, handshake);
    let mut receiver = MinecraftConnection::new();
    receiver.set_compression(16);
    let mut bytes = PacketFrame::new(0x77, vec![0; 100]).encode_compressed(16).unwrap();
    bytes.extend(frame.encode_compressed(16).unwrap());
    receiver.receive(&bytes[..10]);
    assert!(matches!(receiver.read_packet(), Ok(None)));
    receiver.receive(&bytes[10..]);
    match receiver.read_packet() {
        Ok(Some(ServerBoundPacket::Handshake { server_address, next_state, .. })) => {
            assert_eq!(server_address.len(), 200);
            assert_eq!(next_state, 1);
        }
        other => panic!("unexpected {:?}", other),
    }
    assert!(matches!(receiver.read_packet(), Ok(None)));
    assert!(receiver.finish().is_ok());
    assert_eq!(receiver.state(), ConnectionState::Handshaking);

    receiver.receive(&[4, 4, 1, 2, 3]);
    assert!(matches!(receiver.read_packet(), Err(ProtocolError::InvalidPacket)));
}

#[test]
fn a_stream_longer_than_its_marker_is_refused() {
    let honest = PacketFrame::new(1, vec![7; 5000]).encode_compressed(0).unwrap();
    let (_, header) = read_varint(&honest, 0).unwrap();
    let (marker, start) = read_varint(&honest, header).unwrap();
    assert_eq!(marker, 5001);
    for wrong in [1, 10, 5000, 5002] {
        let mut buf = PacketFrame::new(wrong, honest[start..].to_vec()).encode();
        assert!(matches!(
            PacketFrame::decode_compressed(&mut buf),
            Err(ProtocolError::InvalidPacket)
        ));
        assert!(buf.is_empty());
    }
    let mut buf = PacketFrame::new(5001, honest[start..].to_vec()).encode();
    let back = PacketFrame::decode_compressed(&mut buf).unwrap().unwrap();
    assert_eq!((back.id, back.data), (1, vec![7; 5000]));
}
