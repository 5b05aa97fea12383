use sonic_span::protocol::v2;
use sonic_span::protocol::{
    claimed_version, PcmPacket, ProtocolError, HEADER_SIZE, MAGIC, VERSION,
};

fn bits(values: &[f32]) -> Vec<u32> {
    values.iter().map(|v| v.to_bits()).collect()
}

fn sample_packet() -> PcmPacket {
    PcmPacket {
        sequence: 42,
        sample_rate: 48_000,
        channels: 2,
        samples: bits(&[0.0, 0.5, -0.5, 1.0, -1.0, 0.125]),
    }
}

#[test]
fn round_trip() {
    let packet = sample_packet();
    let mut bytes = Vec::new();
    packet.encode(&mut bytes);
    assert_eq!(bytes.len(), HEADER_SIZE + packet.samples.len() * 4);

    let decoded = PcmPacket::decode(&bytes).unwrap();
    assert_eq!(decoded, packet);
}

#[test]
fn empty_payload_round_trip() {
    let packet = PcmPacket {
        sequence: 0,
        sample_rate: 44_100,
        channels: 1,
        samples: vec![],
    };
    let mut bytes = Vec::new();
    packet.encode(&mut bytes);
    assert_eq!(bytes.len(), HEADER_SIZE);
    assert_eq!(PcmPacket::decode(&bytes).unwrap(), packet);
}

#[test]
fn truncated_packet_rejected() {
    let err = PcmPacket::decode(&[0u8; 10]).unwrap_err();
    assert_eq!(err, ProtocolError::TooShort(10));
}

#[test]
fn bad_magic_rejected() {
    let mut bytes = Vec::new();
    sample_packet().encode(&mut bytes);
    bytes[0] = b'X';
    assert_eq!(
        PcmPacket::decode(&bytes).unwrap_err(),
        ProtocolError::InvalidMagic
    );
}

#[test]
fn bad_version_rejected() {
    let mut bytes = Vec::new();
    sample_packet().encode(&mut bytes);
    bytes[4] = 99;
    assert_eq!(
        PcmPacket::decode(&bytes).unwrap_err(),
        ProtocolError::UnsupportedVersion(99)
    );
}

#[test]
fn unaligned_payload_rejected() {
    let mut bytes = Vec::new();
    sample_packet().encode(&mut bytes);
    bytes[15] = 2; // payload length 2, not a multiple of 4
    assert_eq!(
        PcmPacket::decode(&bytes).unwrap_err(),
        ProtocolError::UnalignedPayload(2)
    );
}

#[test]
fn short_payload_rejected() {
    let mut bytes = Vec::new();
    sample_packet().encode(&mut bytes);
    bytes[15] = 0xF8; // huge aligned claimed payload length (0x7FFFFFF8)
    bytes[16] = 0xFF;
    bytes[17] = 0xFF;
    bytes[18] = 0x7F;
    assert!(matches!(
        PcmPacket::decode(&bytes).unwrap_err(),
        ProtocolError::PayloadLengthMismatch { .. }
    ));
}

#[test]
fn header_layout_is_exact() {
    let packet = PcmPacket {
        sequence: 0x0403_0201,
        sample_rate: 48_000,
        channels: 0x0605,
        samples: bits(&[1.0]),
    };
    let mut bytes = vec![0xEE];
    packet.encode(&mut bytes);
    let mut expected = vec![0xEE];
    expected.extend_from_slice(b"SSP1");
    expected.extend_from_slice(&[1, 1, 2, 3, 4, 0x80, 0xBB, 0, 0, 5, 6, 4, 0, 0, 0]);
    expected.extend_from_slice(&1.0f32.to_le_bytes());
    assert_eq!(bytes, expected);
    assert_eq!(MAGIC, *b"SSP1");
    assert_eq!(VERSION, 1);
    assert_eq!(HEADER_SIZE, 19);
}

#[test]
fn trailing_bytes_are_ignored() {
    let packet = sample_packet();
    let mut bytes = Vec::new();
    packet.encode(&mut bytes);
    bytes.extend_from_slice(&[1, 2, 3]);
    assert_eq!(PcmPacket::decode(&bytes).unwrap(), packet);
}

#[test]
fn every_truncation_is_refused() {
    let mut bytes = Vec::new();
    sample_packet().encode(&mut bytes);
    for n in 0..bytes.len() {
        let err = PcmPacket::decode(&bytes[..n]).unwrap_err();
        if n < HEADER_SIZE {
            assert_eq!(err, ProtocolError::TooShort(n));
        } else {
            assert_eq!(
                err,
                ProtocolError::PayloadLengthMismatch {
                    expected: 24,
                    actual: n - HEADER_SIZE
                }
            );
        }
    }
}

#[test]
fn protocol_error_messages() {
    assert_eq!(
        ProtocolError::InvalidMagic.message(),
        "invalid magic, expected [83, 83, 80, 49]"
    );
    assert_eq!(
        ProtocolError::UnsupportedVersion(99).message(),
        "unsupported protocol version 99"
    );
    assert_eq!(
        ProtocolError::TooShort(10).message(),
        "packet too short: 10 bytes (header is 19 bytes)"
    );
    assert_eq!(
        ProtocolError::PayloadLengthMismatch { expected: 1200, actual: 0 }.message(),
        "payload length mismatch: header says 1200 bytes, buffer has 0"
    );
    assert_eq!(
        ProtocolError::UnalignedPayload(2).message(),
        "payload length 2 is not a multiple of 4 (f32 size)"
    );
}

#[test]
fn v2_pcm_round_trip() {
    let samples = bits(&[0.25, -0.75, 1.0]);
    let packet = v2::PcmPacket::from_pcm(7, 44_100, 1, &samples);
    assert_eq!(packet.codec, v2::Codec::Pcm);
    assert_eq!(packet.payload.len(), 12);
    assert_eq!(packet.samples().unwrap(), samples);

    let mut bytes = Vec::new();
    packet.encode(&mut bytes);
    assert_eq!(bytes.len(), v2::HEADER_SIZE + 12);
    assert_eq!(&bytes[..6], &[b'S', b'S', b'P', b'1', 2, 0]);
    assert_eq!(v2::PcmPacket::decode(&bytes).unwrap(), packet);
}

#[test]
fn v2_opus_round_trip() {
    let packet = v2::PcmPacket::from_opus(u32::MAX, 48_000, 2, vec![9, 8, 7]);
    assert!(packet.samples().is_none());
    let mut bytes = Vec::new();
    packet.encode(&mut bytes);
    assert_eq!(bytes[5], 1);
    assert_eq!(v2::PcmPacket::decode(&bytes).unwrap(), packet);
    assert_eq!(v2::HEADER_SIZE, 20);
}

#[test]
fn v2_errors() {
    let packet = v2::PcmPacket::from_opus(1, 48_000, 2, vec![9, 8, 7]);
    let mut bytes = Vec::new();
    packet.encode(&mut bytes);

    assert_eq!(
        v2::PcmPacket::decode(&bytes[..19]).unwrap_err(),
        v2::ProtocolError::TooShort(19)
    );
    assert_eq!(
        v2::PcmPacket::decode(&bytes[..22]).unwrap_err(),
        v2::ProtocolError::PayloadLengthMismatch { expected: 3, actual: 2 }
    );
    let mut changed = bytes.clone();
    changed[3] = b'2';
    assert_eq!(
        v2::PcmPacket::decode(&changed).unwrap_err(),
        v2::ProtocolError::InvalidMagic
    );
    let mut changed = bytes.clone();
    changed[4] = 1;
    assert_eq!(
        v2::PcmPacket::decode(&changed).unwrap_err(),
        v2::ProtocolError::UnsupportedVersion(1)
    );
    let mut changed = bytes.clone();
    changed[5] = 2;
    assert_eq!(
        v2::PcmPacket::decode(&changed).unwrap_err(),
        v2::ProtocolError::UnknownCodec(2)
    );
    let mut changed = bytes.clone();
    changed[5] = 0;
    assert_eq!(
        v2::PcmPacket::decode(&changed).unwrap_err(),
        v2::ProtocolError::UnalignedPayload(3)
    );
}

#[test]
fn v2_error_messages() {
    assert_eq!(
        v2::ProtocolError::UnknownCodec(2).message(),
        "unknown codec 2"
    );
    assert_eq!(
        v2::ProtocolError::TooShort(3).message(),
        "packet too short: 3 bytes (header is 20 bytes)"
    );
    assert_eq!(
        v2::ProtocolError::InvalidMagic.message(),
        "invalid magic, expected [83, 83, 80, 49]"
    );
    assert_eq!(
        v2::ProtocolError::UnsupportedVersion(1).message(),
        "unsupported protocol version 1"
    );
    assert_eq!(
        v2::ProtocolError::UnalignedPayload(3).message(),
        "payload length 3 is not a multiple of 4 (f32 size)"
    );
    assert_eq!(
        v2::ProtocolError::PayloadLengthMismatch { expected: 3, actual: 2 }.message(),
        "payload length mismatch: header says 3 bytes, buffer has 2"
    );
}

#[test]
fn codec_bytes() {
    assert_eq!(v2::Codec::Pcm.to_byte(), 0);
    assert_eq!(v2::Codec::Opus.to_byte(), 1);
    assert_eq!(v2::Codec::from_byte(0), Some(v2::Codec::Pcm));
    assert_eq!(v2::Codec::from_byte(1), Some(v2::Codec::Opus));
    assert_eq!(v2::Codec::from_byte(2), None);
}

#[test]
fn versions_are_told_apart() {
    let mut first = Vec::new();
    sample_packet().encode(&mut first);
    let mut second = Vec::new();
    v2::PcmPacket::from_opus(1, 48_000, 2, vec![1]).encode(&mut second);
    assert_eq!(claimed_version(&first), Some(1));
    assert_eq!(claimed_version(&second), Some(2));
    assert_eq!(claimed_version(&first[..4]), None);
    assert_eq!(claimed_version(b"XXXX\x01"), None);
    // Neither format reads the other.
    assert_eq!(
        PcmPacket::decode(&second).unwrap_err(),
        ProtocolError::UnsupportedVersion(2)
    );
    assert_eq!(
        v2::PcmPacket::decode(&first).unwrap_err(),
        v2::ProtocolError::UnsupportedVersion(1)
    );
}
