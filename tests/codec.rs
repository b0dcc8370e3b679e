use zmodem::consts::{
    ZACK, ZCRCE, ZCRCG, ZCRCQ, ZCRCW, ZDATA, ZDLE, ZEOF, ZFILE, ZFIN, ZNAK, ZRINIT, ZRPOS,
    ZRQINIT, ZSTDERR,
};
use zmodem::crc::{crc16, crc16_with, crc32, crc32_with};
use zmodem::error::{ProtocolError, ZmodemError};
use zmodem::frame::{
    encode_header, parse_header, read_subpacket, write_zlde_data, Encoding, Header, Parsed,
    Subpacket,
};
use zmodem::proto::{find_zpad, write_zfile, write_zrinit, write_zrpos};
use zmodem::zdle::{zdle_decode, zdle_encode};

struct Lcg(u64);

impl Lcg {
    fn next_u8(&mut self) -> u8 {
        self.0 = self.0.wrapping_mul(6364136223846793005).wrapping_add(1442695040888963407);
        (self.0 >> 33) as u8
    }
    fn bytes(&mut self, n: usize) -> Vec<u8> {
        (0..n).map(|_| self.next_u8()).collect()
    }
}

fn reference_crc16(data: &[u8]) -> u16 {
    let mut table = [0u16; 256];
    for i in 0..256u16 {
        let mut c = i << 8;
        for _ in 0..8 {
            c = if c & 0x8000 != 0 { (c << 1) ^ 0x1021 } else { c << 1 };
        }
        table[i as usize] = c;
    }
    let mut crc = 0u16;
    for &b in data {
        crc = (crc << 8) ^ table[((crc >> 8) as u8 ^ b) as usize];
    }
    crc
}

fn reference_crc32(data: &[u8]) -> u32 {
    let mut table = [0u32; 256];
    for i in 0..256u32 {
        let mut c = i;
        for _ in 0..8 {
            c = if c & 1 != 0 { (c >> 1) ^ 0xEDB8_8320 } else { c >> 1 };
        }
        table[i as usize] = c;
    }
    let mut crc = 0xFFFF_FFFFu32;
    for &b in data {
        crc = (crc >> 8) ^ table[((crc as u8) ^ b) as usize];
    }
    crc ^ 0xFFFF_FFFF
}

#[test]
fn crc_check_values() {
    assert_eq!(crc16(b"123456789"), 0x31C3);
    assert_eq!(crc32(b"123456789"), 0xCBF4_3926);
    assert_eq!(crc16(b""), 0);
    assert_eq!(crc32(b""), 0);
    assert_eq!(crc16_with(b"12345678", b'9'), 0x31C3);
    assert_eq!(crc32_with(b"12345678", b'9'), 0xCBF4_3926);
}

#[test]
fn crc_matches_reference_on_random_inputs() {
    let mut rng = Lcg(7);
    for i in 0..1000 {
        let data = rng.bytes(i % 300);
        assert_eq!(crc16(&data), reference_crc16(&data));
        assert_eq!(crc32(&data), reference_crc32(&data));
    }
}

#[test]
fn zdle_round_trip_random() {
    let mut rng = Lcg(11);
    for i in 0..200 {
        let data = rng.bytes(i * 7);
        assert_eq!(zdle_decode(&zdle_encode(&data)), Some(data));
    }
}

#[test]
fn zdle_round_trip_every_escaped_byte() {
    let escaped = [0x18u8, 0x10, 0x11, 0x13, 0x90, 0x91, 0x93, 0x8D];
    let wire = zdle_encode(&escaped);
    assert_eq!(
        wire,
        vec![0x18, 0x58, 0x18, 0x50, 0x18, 0x51, 0x18, 0x53, 0x18, 0xD0, 0x18, 0xD1, 0x18, 0xD3, 0x18, 0xCD]
    );
    assert_eq!(zdle_decode(&wire), Some(escaped.to_vec()));
    let all: Vec<u8> = (0..=255u8).collect();
    assert_eq!(zdle_decode(&zdle_encode(&all)), Some(all));
}

#[test]
fn zdle_interleaved_control_bytes() {
    let data = vec![b'a', 0x18, 0x11, b'b', 0x13, 0x18, 0x18, 0x11, 0x13, b'c'];
    let wire = zdle_encode(&data);
    assert!(!wire.contains(&0x11));
    assert!(!wire.contains(&0x13));
    assert_eq!(zdle_decode(&wire), Some(data));
}

#[test]
fn zdle_decode_refuses_bad_escapes() {
    assert_eq!(zdle_decode(&[0x18]), None);
    assert_eq!(zdle_decode(&[b'a', 0x18, 0x00]), None);
    assert_eq!(zdle_decode(&[0x18, ZCRCW]), None);
    assert_eq!(zdle_decode(&[0x18, 0x4D]), Some(vec![0x0D]));
}

fn all_types() -> Vec<u8> {
    (ZRQINIT..=ZSTDERR).collect()
}

#[test]
fn header_round_trip() {
    for e in [Encoding::Hex, Encoding::Bin16, Encoding::Bin32] {
        for t in all_types() {
            for flags in [[0u8, 0, 0, 0], [1, 2, 3, 4], [0x18, 0x11, 0x2A, 0xFF], [0x8D, 0x93, 0x10, 0x90]] {
                let h = Header::new(e, t, flags);
                let wire = encode_header(&h);
                match parse_header(&wire, 1) {
                    Parsed::Frame(p, n) => {
                        assert_eq!(p.encoding, e);
                        assert_eq!(p.frame_type, t);
                        assert_eq!(p.flags, flags);
                        let end = if e == Encoding::Hex { 18 } else { wire.len() };
                        assert_eq!(n, end);
                    }
                    _ => panic!("header not parsed back"),
                }
            }
        }
    }
}

#[test]
fn hex_header_literal() {
    let wire = encode_header(&Header::new(Encoding::Hex, ZRQINIT, [0, 0, 0, 0]));
    assert_eq!(wire, b"**\x18B00000000000000\r\n\x11".to_vec());
    let mut out = Vec::new();
    write_zrinit(&mut out);
    assert_eq!(&out[..4], b"**\x18B");
    assert_eq!(&out[4..14], b"0100000023");
}

#[test]
fn count_flags_little_endian() {
    let h = Header::with_count(Encoding::Bin32, ZDATA, 0x0102_0304);
    assert_eq!(h.flags, [4, 3, 2, 1]);
    assert_eq!(h.get_count(), 0x0102_0304);
    assert_eq!(h.get_frame_type(), ZDATA);
    let mut out = Vec::new();
    write_zrpos(&mut out, 8192);
    match parse_header(&out, 1) {
        Parsed::Frame(p, _) => {
            assert_eq!(p.frame_type, ZRPOS);
            assert_eq!(p.get_count(), 8192);
        }
        _ => panic!("zrpos not parsed"),
    }
}

#[test]
fn header_bad_crc_is_no_frame() {
    let mut wire = encode_header(&Header::new(Encoding::Hex, ZACK, [0, 0, 0, 0]));
    wire[5] = b'1';
    assert!(matches!(parse_header(&wire, 1), Parsed::NoFrame(18)));
    let mut bin = encode_header(&Header::new(Encoding::Bin32, ZEOF, [5, 0, 0, 0]));
    bin[5] ^= 0x01;
    assert!(matches!(parse_header(&bin, 1), Parsed::NoFrame(_)));
}

#[test]
fn header_short_and_error() {
    let wire = encode_header(&Header::new(Encoding::Bin32, ZFIN, [0, 0, 0, 0]));
    assert!(matches!(parse_header(&wire[..8], 1), Parsed::Short));
    let bad = [b'*', b'*', ZDLE, b'C', ZDLE, 0x00];
    match parse_header(&bad, 1) {
        Parsed::Error(e) => assert_eq!(e, ProtocolError::UnexpectedByteError(0)),
        _ => panic!("expected a protocol error"),
    }
    assert!(matches!(parse_header(b"*x", 1), Parsed::NoFrame(2)));
}

#[test]
fn subpacket_round_trip() {
    let mut rng = Lcg(3);
    for e in [Encoding::Bin16, Encoding::Bin32, Encoding::Hex] {
        for t in [ZCRCE, ZCRCG, ZCRCQ, ZCRCW] {
            for len in [0usize, 1, 100, 8192] {
                let payload = rng.bytes(len);
                let mut wire = Vec::new();
                write_zlde_data(&mut wire, e, t, &payload);
                match read_subpacket(&wire, 0, e) {
                    Subpacket::Packet(p, term, n) => {
                        assert_eq!(p, payload);
                        assert_eq!(term, t);
                        assert_eq!(n, wire.len());
                    }
                    _ => panic!("subpacket not read back"),
                }
            }
        }
    }
}

#[test]
fn subpacket_corruption_detected() {
    let payload = vec![b'A'; 64];
    let mut wire = Vec::new();
    write_zlde_data(&mut wire, Encoding::Bin32, ZCRCG, &payload);
    wire[10] = b'B';
    assert!(matches!(read_subpacket(&wire, 0, Encoding::Bin32), Subpacket::CrcBad(_)));
    assert!(matches!(read_subpacket(&wire[..20], 0, Encoding::Bin32), Subpacket::Short));
    match read_subpacket(&[b'a', ZDLE, 0x7F], 0, Encoding::Bin32) {
        Subpacket::Error(e) => assert_eq!(e, ProtocolError::UnexpectedByteError(0x7F)),
        _ => panic!("expected a protocol error"),
    }
}

#[test]
fn zfile_payload() {
    let mut out = Vec::new();
    write_zfile(&mut out, b"empty", Some(0));
    match parse_header(&out, 1) {
        Parsed::Frame(h, n) => {
            assert_eq!(h.frame_type, ZFILE);
            match read_subpacket(&out, n, h.encoding) {
                Subpacket::Packet(p, t, _) => {
                    assert_eq!(p, b"empty\x000 0 0 0 1 0\x00".to_vec());
                    assert_eq!(t, ZCRCW);
                }
                _ => panic!("zfile data not read"),
            }
        }
        _ => panic!("zfile header not read"),
    }
    let mut out2 = Vec::new();
    write_zfile(&mut out2, b"f", Some(1234));
    let n = 4 + zdle_encode(&[ZFILE, 0, 0, 0, 0]).len();
    let mut crc = vec![ZFILE, 0, 0, 0, 0];
    let c = crc32(&crc);
    crc.extend_from_slice(&c.to_le_bytes());
    assert!(out2.len() > n);
    match read_subpacket(&out2, 4 + zdle_encode(&crc).len(), Encoding::Bin32) {
        Subpacket::Packet(p, _, _) => assert_eq!(p, b"f\x001234 0 0 0 1 1234\x00".to_vec()),
        _ => panic!("zfile data not read"),
    }
    let mut out3 = Vec::new();
    write_zfile(&mut out3, b"g", None);
    match read_subpacket(&out3, 4 + zdle_encode(&crc).len(), Encoding::Bin32) {
        Subpacket::Packet(p, _, _) => assert_eq!(p, b"g\x00".to_vec()),
        _ => panic!("zfile data not read"),
    }
}

#[test]
fn find_zpad_skips_noise() {
    assert_eq!(find_zpad(b"noise*x", 0), Some(6));
    assert_eq!(find_zpad(b"noise", 0), None);
    assert_eq!(find_zpad(b"**", 1), Some(2));
}

#[test]
fn znak_header_type() {
    let wire = encode_header(&Header::new(Encoding::Bin16, ZNAK, [0, 0, 0, 0]));
    assert_eq!(&wire[..4], b"**\x18A");
    match parse_header(&wire, 1) {
        Parsed::Frame(h, _) => assert_eq!(h.encoding, Encoding::Bin16),
        _ => panic!("not parsed"),
    }
}

#[test]
fn error_conversion() {
    let e = ZmodemError::from(ProtocolError::UnexpectedByteError(0x41));
    assert!(matches!(e, ZmodemError::ProtocolError(ProtocolError::UnexpectedByteError(0x41))));
    let io = ZmodemError::from(std::io::Error::new(std::io::ErrorKind::Other, "x"));
    assert!(matches!(io, ZmodemError::IoError(_)));
}
