use packet::packet::{
    DecodeError, EncodeError, Packet, CHECKSUM_OFFSET, LEN_OFFSET, MAX_PAYLOAD_SIZE,
    PAYLOAD_OFFSET, TYPE_OFFSET, VERSION_OFFSET, WIRE_SIZE,
};

const CHECK_DATA: [u8; 9] = [0x31, 0x32, 0x33, 0x34, 0x35, 0x36, 0x37, 0x38, 0x39];

#[test]
fn construct_standard_check_value() {
    let p = Packet::new(42, 7, &CHECK_DATA);
    assert_eq!(p.uid, 42);
    assert_eq!(p.payload_type, 7);
    assert_eq!(p.payload_len, 9);
    assert_eq!(p.version, 0);
    assert_eq!(p.checksum, 0x906E);
    assert_eq!(&p.payload[..9], &CHECK_DATA);
    assert!(p.payload[9..].iter().all(|&b| b == 0));
}

#[test]
fn fresh_packet_is_valid() {
    let p = Packet::new(42, 7, &CHECK_DATA);
    assert!(p.is_valid());
    let empty = Packet::new(0, 0, &[]);
    assert!(empty.is_valid());
}

#[test]
fn round_trip_identical() {
    let p = Packet::new(42, 7, &CHECK_DATA);
    let mut buf = vec![0u8; WIRE_SIZE];
    let n = p.serialize(&mut buf).unwrap();
    assert_eq!(n, WIRE_SIZE);
    let q = Packet::deserialize(&buf).unwrap();
    assert_eq!(q.uid, p.uid);
    assert_eq!(q.payload, p.payload);
    assert_eq!(q.payload_len, p.payload_len);
    assert_eq!(q.payload_type, p.payload_type);
    assert_eq!(q.version, p.version);
    assert_eq!(q.checksum, p.checksum);
    assert!(q.is_valid());
}

#[test]
fn wire_layout_is_little_endian_and_fixed() {
    let p = Packet::new(0xA1B2C3D4, 0x5E, &CHECK_DATA);
    let mut buf = vec![0u8; WIRE_SIZE + 3];
    let n = p.serialize(&mut buf).unwrap();
    assert_eq!(n, WIRE_SIZE);
    assert_eq!(&buf[0..4], &[0xD4, 0xC3, 0xB2, 0xA1]);
    assert_eq!(&buf[PAYLOAD_OFFSET..PAYLOAD_OFFSET + 9], &CHECK_DATA);
    assert!(buf[PAYLOAD_OFFSET + 9..LEN_OFFSET].iter().all(|&b| b == 0));
    assert_eq!(&buf[LEN_OFFSET..TYPE_OFFSET], &[9, 0, 0, 0, 0, 0, 0, 0]);
    assert_eq!(buf[TYPE_OFFSET], 0x5E);
    assert_eq!(buf[VERSION_OFFSET], 0);
    assert_eq!(&buf[CHECKSUM_OFFSET..WIRE_SIZE], &[0x6E, 0x90]);
    // bytes past the encoding stay untouched
    assert_eq!(&buf[WIRE_SIZE..], &[0, 0, 0]);
}

#[test]
fn corruption_of_logical_payload_is_detected() {
    let p = Packet::new(42, 7, &CHECK_DATA);
    for byte in 0..p.payload_len {
        for bit in 0..8 {
            let mut q = Packet::deserialize(&{
                let mut buf = vec![0u8; WIRE_SIZE];
                p.serialize(&mut buf).unwrap();
                buf
            })
            .unwrap();
            q.payload[byte] ^= 1 << bit;
            assert!(!q.is_valid(), "flip of payload byte {byte} bit {bit} not detected");
        }
    }
}

#[test]
fn corruption_of_checksum_is_detected() {
    let p = Packet::new(42, 7, &CHECK_DATA);
    for bit in 0..16 {
        let mut buf = vec![0u8; WIRE_SIZE];
        p.serialize(&mut buf).unwrap();
        let mut q = Packet::deserialize(&buf).unwrap();
        q.checksum ^= 1 << bit;
        assert!(!q.is_valid(), "flip of checksum bit {bit} not detected");
    }
}

#[test]
fn corruption_of_padding_is_not_detected() {
    let p = Packet::new(42, 7, &CHECK_DATA);
    let mut buf = vec![0u8; WIRE_SIZE];
    p.serialize(&mut buf).unwrap();
    let mut q = Packet::deserialize(&buf).unwrap();
    for byte in p.payload_len..MAX_PAYLOAD_SIZE {
        q.payload[byte] = 0xFF;
    }
    assert!(q.is_valid());
}

#[test]
fn oversized_data_is_truncated() {
    let mut data = vec![0u8; MAX_PAYLOAD_SIZE + 1];
    for (i, b) in data.iter_mut().enumerate() {
        *b = (i % 251) as u8;
    }
    let p = Packet::new(1, 2, &data);
    assert_eq!(p.payload_len, MAX_PAYLOAD_SIZE);
    assert_eq!(&p.payload[..], &data[..MAX_PAYLOAD_SIZE]);
    let expected =
        crc::Crc::<u16>::new(&crc::CRC_16_IBM_SDLC).checksum(&data[..MAX_PAYLOAD_SIZE]);
    assert_eq!(p.checksum, expected);
    assert!(p.is_valid());
}

#[test]
fn buffer_too_small_writes_nothing() {
    let p = Packet::new(42, 7, &CHECK_DATA);
    let mut buf = vec![0xABu8; WIRE_SIZE - 1];
    let r = p.serialize(&mut buf);
    assert_eq!(r, Err(EncodeError::BufferTooSmall));
    assert!(buf.iter().all(|&b| b == 0xAB));
}

#[test]
fn short_input_fails_to_decode() {
    let buf = vec![0u8; WIRE_SIZE - 1];
    let r = Packet::deserialize(&buf);
    assert_eq!(r.unwrap_err(), DecodeError::InputTooShort);
    assert_eq!(Packet::deserialize(&[]).unwrap_err(), DecodeError::InputTooShort);
}

#[test]
fn oversized_length_field_fails_to_decode() {
    let p = Packet::new(42, 7, &CHECK_DATA);
    let mut buf = vec![0u8; WIRE_SIZE];
    p.serialize(&mut buf).unwrap();
    let bad_len = (MAX_PAYLOAD_SIZE as u64 + 1).to_le_bytes();
    buf[LEN_OFFSET..TYPE_OFFSET].copy_from_slice(&bad_len);
    let r = Packet::deserialize(&buf);
    assert_eq!(r.unwrap_err(), DecodeError::PayloadLenOutOfRange);
}

#[test]
fn trailing_input_is_ignored() {
    let p = Packet::new(9, 1, &[0x61, 0x62]);
    let mut buf = vec![0u8; WIRE_SIZE];
    p.serialize(&mut buf).unwrap();
    buf.extend_from_slice(&[0xDE, 0xAD]);
    let q = Packet::deserialize(&buf).unwrap();
    assert_eq!(q.uid, 9);
    assert_eq!(q.payload_len, 2);
    assert!(q.is_valid());
}

#[test]
fn version_is_not_validated_on_decode() {
    let p = Packet::new(3, 4, &CHECK_DATA);
    let mut buf = vec![0u8; WIRE_SIZE];
    p.serialize(&mut buf).unwrap();
    buf[VERSION_OFFSET] = 0x7F;
    let q = Packet::deserialize(&buf).unwrap();
    assert_eq!(q.version, 0x7F);
    assert!(q.is_valid());
}
