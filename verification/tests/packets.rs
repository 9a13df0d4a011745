use magma::error::FramingError;
use magma::io::{ByteCursor, ProtocolReadExt, ProtocolWriteExt};
use magma::packet::{CompressedPacket, Packet, UncompressedPacket, MAX_PACKET_LENGTH};

fn frame(packet: &UncompressedPacket) -> Vec<u8> {
    let mut sink: Vec<u8> = Vec::new();
    assert_eq!(sink.write_uncompressed_packet(packet), Ok(()));
    sink
}

fn body_of(id: i32, payload: &[u8]) -> Vec<u8> {
    let mut body: Vec<u8> = Vec::new();
    body.write_var_int(id);
    body.write_all(payload);
    body
}

#[test]
fn uncompressed_frame_layout() {
    let packet = UncompressedPacket { id: 0x10, data: vec![1, 2, 3] };
    assert_eq!(frame(&packet), vec![4, 0x10, 1, 2, 3]);
    let packet = UncompressedPacket { id: 300, data: vec![] };
    assert_eq!(frame(&packet), vec![2, 0xac, 0x02]);
}

#[test]
fn packet_round_trip() {
    let mut payload: Vec<u8> = Vec::new();
    for i in 0..1000u32 {
        payload.push((i % 251) as u8);
    }
    for id in [0, 1, 0x7f, 0x80, 2_097_151, -1, i32::MAX] {
        for len in [0usize, 1, 127, 128, 1000] {
            let packet = UncompressedPacket { id, data: payload[..len].to_vec() };
            let bytes = frame(&packet);
            let mut cursor = ByteCursor::new(&bytes);
            assert_eq!(cursor.read_uncompressed_packet(), Ok(packet));
            assert_eq!(cursor.remaining_len(), 0);
        }
    }
}

#[test]
fn two_packets_in_a_row() {
    let first = UncompressedPacket { id: 0, data: vec![0xaa] };
    let second = UncompressedPacket { id: 1, data: vec![0xbb, 0xcc] };
    let mut bytes = frame(&first);
    bytes.extend_from_slice(&frame(&second));
    let mut cursor = ByteCursor::new(&bytes);
    assert_eq!(cursor.read_uncompressed_packet(), Ok(first));
    assert_eq!(cursor.read_uncompressed_packet(), Ok(second));
    assert_eq!(cursor.read_uncompressed_packet(), Err(FramingError::UnexpectedEof));
}

#[test]
fn empty_packet_is_rejected() {
    let bytes = [0x00, 0x00];
    let mut cursor = ByteCursor::new(&bytes);
    assert_eq!(cursor.read_uncompressed_packet(), Err(FramingError::EmptyPacket));
    assert_eq!(cursor.remaining_len(), 2);
    let mut cursor = ByteCursor::new(&bytes);
    assert_eq!(cursor.read_compressed_packet(), Err(FramingError::EmptyPacket));
}

#[test]
fn packet_over_the_limit_is_rejected() {
    let packet = UncompressedPacket { id: 1, data: vec![0; 15] };
    let bytes = frame(&packet);
    let mut cursor = ByteCursor::with_limit(&bytes, 15);
    assert_eq!(cursor.read_uncompressed_packet(), Err(FramingError::LengthTooLarge));
    let mut cursor = ByteCursor::with_limit(&bytes, 16);
    assert_eq!(cursor.read_uncompressed_packet(), Ok(packet));
}

#[test]
fn packet_above_the_protocol_maximum_is_rejected() {
    // declares 2^21 bytes
    let bytes = [0x80, 0x80, 0x80, 0x01, 0x00];
    let mut cursor = ByteCursor::new(&bytes);
    assert_eq!(cursor.read_uncompressed_packet(), Err(FramingError::LengthTooLarge));
    assert_eq!(MAX_PACKET_LENGTH, 2_097_151);
}

#[test]
fn packet_with_negative_length_is_rejected() {
    let bytes = [0xff, 0xff, 0xff, 0xff, 0x0f, 0x00];
    let mut cursor = ByteCursor::new(&bytes);
    assert_eq!(cursor.read_uncompressed_packet(), Err(FramingError::LengthTooLarge));
}

#[test]
fn packet_cut_short_is_incomplete() {
    let packet = UncompressedPacket { id: 7, data: vec![1, 2, 3, 4] };
    let bytes = frame(&packet);
    for cut in 0..bytes.len() {
        let mut cursor = ByteCursor::new(&bytes[..cut]);
        assert_eq!(cursor.read_uncompressed_packet(), Err(FramingError::UnexpectedEof));
        assert_eq!(cursor.remaining_len(), cut);
    }
}

#[test]
fn packet_whose_id_outruns_its_length_is_rejected() {
    // length 1, id 128 takes two bytes
    let bytes = [0x01, 0x80, 0x01];
    let mut cursor = ByteCursor::new(&bytes);
    assert_eq!(cursor.read_uncompressed_packet(), Err(FramingError::UnexpectedEof));
}

#[test]
fn packet_with_overlong_length_is_rejected() {
    let bytes = [0xff, 0xff, 0xff, 0xff, 0xff, 0xff, 0x00];
    let mut cursor = ByteCursor::new(&bytes);
    assert_eq!(cursor.read_uncompressed_packet(), Err(FramingError::VarIntTooLong));
}

#[test]
fn into_raw_is_id_then_payload() {
    let packet = UncompressedPacket { id: 128, data: vec![5, 6] };
    assert_eq!(packet.clone().into_raw(), vec![0x80, 0x01, 5, 6]);
    assert_eq!(Packet::Uncompressed(packet).into_raw(), vec![0x80, 0x01, 5, 6]);
    let envelope = CompressedPacket { packet_length: 4, data_length: 0, compressed_data: vec![1, 9, 9] };
    assert_eq!(envelope.clone().into_raw(), vec![4, 0, 1, 9, 9]);
    assert_eq!(Packet::Compressed(envelope).into_raw(), vec![4, 0, 1, 9, 9]);
}

#[test]
fn from_body_splits_id_and_payload() {
    assert_eq!(
        UncompressedPacket::from_body(vec![0x80, 0x01, 5, 6]),
        Ok(UncompressedPacket { id: 128, data: vec![5, 6] })
    );
    assert_eq!(UncompressedPacket::from_body(vec![0x00]), Ok(UncompressedPacket { id: 0, data: vec![] }));
    assert_eq!(UncompressedPacket::from_body(vec![]), Err(FramingError::UnexpectedEof));
    assert_eq!(UncompressedPacket::from_body(vec![0xff; 6]), Err(FramingError::VarIntTooLong));
}

#[test]
fn uncompressed_packet_is_its_own_decompression() {
    let packet = UncompressedPacket { id: 3, data: vec![1] };
    assert_eq!(packet.clone().decompress(), Ok(packet.clone()));
    assert_eq!(Packet::Uncompressed(packet.clone()).decompress(), Ok(packet));
}

#[test]
fn compressed_frame_below_threshold() {
    // packet_length 4 = one byte of data_length and three of body
    let bytes = [4, 0, 0x05, 0xaa, 0xbb, 0x99];
    let mut cursor = ByteCursor::new(&bytes);
    let envelope = cursor.read_compressed_packet().unwrap();
    assert_eq!(
        envelope,
        CompressedPacket { packet_length: 4, data_length: 0, compressed_data: vec![0x05, 0xaa, 0xbb] }
    );
    assert_eq!(cursor.remaining_len(), 1);
    assert_eq!(envelope.decompress(), Ok(UncompressedPacket { id: 5, data: vec![0xaa, 0xbb] }));
}

#[test]
fn compressed_frame_reads_data_length_bytes() {
    let bytes = [9, 3, 0x01, 0x02, 0x03, 0x04];
    let mut cursor = ByteCursor::new(&bytes);
    assert_eq!(
        cursor.read_compressed_packet(),
        Ok(CompressedPacket { packet_length: 9, data_length: 3, compressed_data: vec![1, 2, 3] })
    );
    assert_eq!(cursor.remaining_len(), 1);
}

#[test]
fn compressed_frame_errors() {
    let mut cursor = ByteCursor::new(&[4, 0, 1]);
    assert_eq!(cursor.read_compressed_packet(), Err(FramingError::UnexpectedEof));
    assert_eq!(cursor.remaining_len(), 3);
    let mut cursor = ByteCursor::new(&[4]);
    assert_eq!(cursor.read_compressed_packet(), Err(FramingError::UnexpectedEof));
    let mut cursor = ByteCursor::with_limit(&[4, 9, 1, 2, 3], 8);
    assert_eq!(cursor.read_compressed_packet(), Err(FramingError::LengthTooLarge));
    let mut cursor = ByteCursor::with_limit(&[9, 1, 1, 2, 3], 8);
    assert_eq!(cursor.read_compressed_packet(), Err(FramingError::LengthTooLarge));
    let bytes = [4, 0xff, 0xff, 0xff, 0xff, 0x0f];
    let mut cursor = ByteCursor::new(&bytes);
    assert_eq!(cursor.read_compressed_packet(), Err(FramingError::LengthTooLarge));
}

#[test]
fn compression_passthrough() {
    let body = body_of(0x21, &[1, 2, 3, 4]);
    let envelope = CompressedPacket {
        packet_length: body.len() as i32 + 1,
        data_length: 0,
        compressed_data: body,
    };
    assert_eq!(
        Packet::Compressed(envelope).decompress(),
        Ok(UncompressedPacket { id: 0x21, data: vec![1, 2, 3, 4] })
    );
}

#[test]
fn compressed_packet_inflates_to_the_packet_it_was_made_from() {
    let mut payload: Vec<u8> = Vec::new();
    for i in 0..5000u32 {
        payload.push((i % 7) as u8);
    }
    let body = body_of(0x26, &payload);
    let zipped = miniz_oxide::deflate::compress_to_vec_zlib(&body, 6);
    assert!(zipped.len() < body.len());
    let envelope = CompressedPacket {
        packet_length: (zipped.len() + 2) as i32,
        data_length: zipped.len() as i32,
        compressed_data: zipped,
    };
    assert_eq!(envelope.decompress(), Ok(UncompressedPacket { id: 0x26, data: payload }));
}

#[test]
fn compressed_packet_passes_the_reader_and_inflates() {
    let mut payload: Vec<u8> = Vec::new();
    for i in 0..3000u32 {
        payload.push((i % 5) as u8);
    }
    let zipped = miniz_oxide::deflate::compress_to_vec_zlib(&body_of(0x11, &payload), 6);
    assert!(zipped.len() < payload.len());
    let envelope = CompressedPacket {
        packet_length: (zipped.len() + 2) as i32,
        data_length: zipped.len() as i32,
        compressed_data: zipped,
    };
    let mut wire: Vec<u8> = Vec::new();
    wire.write_compressed_packet(&envelope);
    wire.push(0x55);
    let mut cursor = ByteCursor::new(&wire);
    let read = cursor.read_compressed_packet().unwrap();
    assert_eq!(read, envelope);
    assert_eq!(cursor.remaining_len(), 1);
    assert_eq!(read.decompress(), Ok(UncompressedPacket { id: 0x11, data: payload.clone() }));
    assert_eq!(
        Packet::Compressed(envelope).decompress(),
        Ok(UncompressedPacket { id: 0x11, data: payload })
    );
}

#[test]
fn compressed_packet_is_not_inflated_past_the_largest_packet() {
    let body = body_of(1, &vec![0u8; MAX_PACKET_LENGTH]);
    let zipped = miniz_oxide::deflate::compress_to_vec_zlib(&body, 6);
    let envelope = CompressedPacket {
        packet_length: (zipped.len() + 2) as i32,
        data_length: zipped.len() as i32,
        compressed_data: zipped,
    };
    assert_eq!(envelope.decompress(), Err(FramingError::InflateFailed));
    // one byte less of payload fits exactly
    let body = body_of(1, &vec![0u8; MAX_PACKET_LENGTH - 1]);
    let zipped = miniz_oxide::deflate::compress_to_vec_zlib(&body, 6);
    let envelope = CompressedPacket {
        packet_length: (zipped.len() + 2) as i32,
        data_length: zipped.len() as i32,
        compressed_data: zipped,
    };
    assert_eq!(envelope.decompress().map(|p| p.data.len()), Ok(MAX_PACKET_LENGTH - 1));
}

#[test]
fn compressed_packet_is_not_inflated_past_a_given_limit() {
    let body = body_of(1, &[0u8; 4000]);
    let zipped = miniz_oxide::deflate::compress_to_vec_zlib(&body, 6);
    let envelope = CompressedPacket {
        packet_length: (zipped.len() + 2) as i32,
        data_length: zipped.len() as i32,
        compressed_data: zipped,
    };
    assert_eq!(envelope.clone().decompress_within(4000), Err(FramingError::InflateFailed));
    assert_eq!(
        envelope.decompress_within(4001),
        Ok(UncompressedPacket { id: 1, data: vec![0u8; 4000] })
    );
}

#[test]
fn garbage_does_not_inflate() {
    let envelope = CompressedPacket { packet_length: 5, data_length: 10, compressed_data: vec![1, 2, 3] };
    assert_eq!(envelope.decompress(), Err(FramingError::InflateFailed));
    let envelope = CompressedPacket { packet_length: 5, data_length: -3, compressed_data: vec![1, 2, 3] };
    assert_eq!(envelope.decompress(), Err(FramingError::LengthTooLarge));
}

#[test]
fn write_packet_writes_either_form() {
    let mut sink: Vec<u8> = Vec::new();
    let plain = Packet::Uncompressed(UncompressedPacket { id: 2, data: vec![7] });
    let wrapped = Packet::Compressed(CompressedPacket {
        packet_length: 3,
        data_length: 0,
        compressed_data: vec![2, 7],
    });
    assert_eq!(sink.write_packet(&plain), Ok(()));
    assert_eq!(sink.write_packet(&wrapped), Ok(()));
    assert_eq!(sink, vec![2, 2, 7, 3, 0, 2, 7]);
    let mut sink: Vec<u8> = Vec::new();
    sink.write_compressed_packet(&CompressedPacket {
        packet_length: 300,
        data_length: 128,
        compressed_data: vec![1],
    });
    assert_eq!(sink, vec![0xac, 0x02, 0x80, 0x01, 1]);
}

#[test]
fn as_cursor_reads_the_payload() {
    let packet = UncompressedPacket { id: 0, data: vec![0x05, b'h', b'e', b'l', b'l', b'o', 0x63, 0xdd] };
    let mut cursor = packet.as_cursor();
    assert_eq!(cursor.read_string(), Ok("hello".to_string()));
    assert_eq!(cursor.read_u16(), Ok(25_565));
    assert_eq!(cursor.remaining_len(), 0);
}
