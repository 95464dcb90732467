use aidoku_sources::kagane::wvd::{
    build_pssh, encode_signed_message, extract_init_data, finish_challenge, parse_wvd, proto_write_varint,
    proto_write_varint_field, to_hex_upper, wrap_pkcs1_in_pkcs8, WvdError, XorShift64,
};

fn xorshift(x: u64) -> u64 {
    let a = x ^ (x << 13);
    let b = a ^ (a >> 7);
    b ^ (b << 17)
}

#[test]
fn xorshift_steps_from_the_seed() {
    let mut r = XorShift64::new();
    let first = r.next_u64();
    assert_eq!(first, xorshift(0x853c49e6748fea9b));
    assert_eq!(r.next_u32(), xorshift(first) as u32);
    let mut r = XorShift64::new();
    let mut buf = [0u8; 10];
    r.fill_bytes(&mut buf);
    let a = xorshift(0x853c49e6748fea9b);
    let b = xorshift(a);
    assert_eq!(&buf[..8], &a.to_le_bytes());
    assert_eq!(&buf[8..], &b.to_le_bytes()[..2]);
}

#[test]
fn varints() {
    let mut v = Vec::new();
    proto_write_varint(&mut v, 300);
    assert_eq!(v, vec![0xac, 0x02]);
    let mut v = Vec::new();
    proto_write_varint(&mut v, 0);
    assert_eq!(v, vec![0]);
    let mut v = Vec::new();
    proto_write_varint_field(&mut v, 3, 1);
    assert_eq!(v, vec![0x18, 0x01]);
}

#[test]
fn pssh_round_trip() {
    let f = [7u8; 16];
    let pssh = build_pssh(&f);
    assert_eq!(&pssh[4..8], b"pssh");
    let init = extract_init_data(&pssh).unwrap();
    assert_eq!(init, vec![0x12, 16, 7, 7, 7, 7, 7, 7, 7, 7, 7, 7, 7, 7, 7, 7, 7, 7]);
    assert_eq!(extract_init_data(&[0u8; 5]), Err(WvdError::PsshTooShort));
}

#[test]
fn wvd_files() {
    assert_eq!(parse_wvd(b"WVD").err(), Some(WvdError::TooShort));
    assert_eq!(parse_wvd(b"XYZ\x02\x01\x00\x00\x00\x00").err(), Some(WvdError::InvalidMagic));
    assert_eq!(parse_wvd(b"WVD\x01\x01\x00\x00\x00\x00").err(), Some(WvdError::UnsupportedVersion));
    let mut data = b"WVD\x02\x02\x00\x00".to_vec();
    data.extend_from_slice(&[0, 2, 0xaa, 0xbb, 0, 1, 0xcc]);
    let w = parse_wvd(&data).unwrap();
    assert_eq!(w.device_type, 2);
    assert_eq!(w.private_key_der, vec![0xaa, 0xbb]);
    assert_eq!(w.client_id, vec![0xcc]);
    data.pop();
    assert_eq!(parse_wvd(&data).err(), Some(WvdError::TruncatedClientId));
}

#[test]
fn messages_and_keys() {
    assert_eq!(encode_signed_message(&[1], &[2, 3]), vec![0x08, 0x01, 0x12, 0x01, 1, 0x1a, 0x02, 2, 3]);
    let w = wrap_pkcs1_in_pkcs8(&[9, 9]);
    assert_eq!(w.len(), 28);
    assert_eq!(&w[..4], &[0x30, 0x82, 0x00, 0x18]);
    assert_eq!(&w[24..], &[0x00, 0x02, 9, 9]);
    assert_eq!(to_hex_upper(&[0x0a, 0xff]), "0AFF");
    assert_eq!(finish_challenge(&[1], &[2, 3]), "CAESAQEaAgID");
}
