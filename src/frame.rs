use vstd::prelude::*;

use crate::consts::{CR, LF, XON, ZBIN, ZBIN32, ZDLE, ZHEX, ZPAD, is_terminator};
use crate::crc::{crc16, crc16_spec, crc16_with, crc32, crc32_spec, crc32_with};
use crate::error::ProtocolError;
use crate::zdle::{
    lemma_scan_data_encoded, lemma_scan_fixed_encoded, scan_data, scan_data_exec, Scan, Scanned, option_prepend, scan_fixed, scan_fixed_exec, zdle_encode_into,
    zdle_encode_spec,
};

verus! {

/// How a header travels on the wire.
#[derive(Debug, Clone, Copy, PartialEq, Eq, Structural)]
pub enum Encoding {
    /// ASCII hex digits, CRC-16.
    Hex,
    /// ZDLE-escaped binary, CRC-16.
    Bin16,
    /// ZDLE-escaped binary, CRC-32.
    Bin32,
}

/// A frame header: its encoding, type and four flag bytes.
#[derive(Debug, Clone, Copy)]
pub struct Header {
    pub encoding: Encoding,
    pub frame_type: u8,
    pub flags: [u8; 4],
}

/// The little-endian 32-bit number held in four flag bytes.
pub open spec fn count_of(f: Seq<u8>) -> int {
    f[0] + 256 * f[1] + 65536 * f[2] + 16777216 * f[3]
}

/// Type byte followed by the flag bytes: what the header CRC covers.
pub open spec fn header_body(h: Header) -> Seq<u8> {
    seq![h.frame_type] + h.flags@
}

pub open spec fn crc16_bytes(c: u16) -> Seq<u8> {
    seq![(c >> 8u16) as u8, c as u8]
}

pub open spec fn crc32_bytes(c: u32) -> Seq<u8> {
    seq![c as u8, (c >> 8u32) as u8, (c >> 16u32) as u8, (c >> 24u32) as u8]
}

/// The CRC bytes that follow `s` under an encoding: CRC-16 big-endian for binary
/// CRC-16, CRC-32 little-endian otherwise.
pub open spec fn data_crc_bytes(e: Encoding, s: Seq<u8>) -> Seq<u8> {
    if e == Encoding::Bin16 {
        crc16_bytes(crc16_spec(s))
    } else {
        crc32_bytes(crc32_spec(s))
    }
}

/// The CRC bytes that follow a header body.
pub open spec fn header_crc_bytes(e: Encoding, s: Seq<u8>) -> Seq<u8> {
    if e == Encoding::Bin32 {
        crc32_bytes(crc32_spec(s))
    } else {
        crc16_bytes(crc16_spec(s))
    }
}

pub open spec fn hex_digit(n: u8) -> u8 {
    if n < 10 {
        (0x30 + n) as u8
    } else {
        (0x57 + n) as u8
    }
}

/// Two lower-case hex digits for each byte.
pub open spec fn hex_spec(s: Seq<u8>) -> Seq<u8>
    decreases s.len(),
{
    if s.len() == 0 {
        Seq::empty()
    } else {
        seq![hex_digit(s[0] >> 4u8), hex_digit(s[0] & 0xF)] + hex_spec(s.skip(1))
    }
}

pub open spec fn discriminator(e: Encoding) -> u8 {
    match e {
        Encoding::Hex => ZHEX,
        Encoding::Bin16 => ZBIN,
        Encoding::Bin32 => ZBIN32,
    }
}

/// The wire form of a header with the given encoding and body (type then flags).
pub open spec fn body_wire(e: Encoding, b: Seq<u8>) -> Seq<u8> {
    let body = b + header_crc_bytes(e, b);
    let lead = seq![ZPAD, ZPAD, ZDLE, discriminator(e)];
    if e == Encoding::Hex {
        lead + hex_spec(body) + seq![CR, LF, XON]
    } else {
        lead + zdle_encode_spec(body)
    }
}

/// The wire form of a header.
pub open spec fn header_wire(h: Header) -> Seq<u8> {
    body_wire(h.encoding, header_body(h))
}

/// Four flag bytes holding `c` little-endian.
pub open spec fn count_flags(c: u32) -> Seq<u8> {
    seq![(c & 0xFF) as u8, ((c >> 8u32) & 0xFF) as u8, ((c >> 16u32) & 0xFF) as u8, ((c >> 24u32) & 0xFF) as u8]
}

impl Header {
    pub fn new(encoding: Encoding, frame_type: u8, flags: [u8; 4]) -> (r: Header)
        ensures
            r.encoding == encoding,
            r.frame_type == frame_type,
            r.flags@ == flags@,
    {
        Header { encoding, frame_type, flags }
    }

    /// A header whose flags carry `count` as a little-endian number.
    pub fn with_count(encoding: Encoding, frame_type: u8, count: u32) -> (r: Header)
        ensures
            r.encoding == encoding,
            r.frame_type == frame_type,
            count_of(r.flags@) == count,
            r.flags@ == count_flags(count),
    {
        let b0: u32 = count & 0xFF;
        let b1: u32 = (count >> 8u32) & 0xFF;
        let b2: u32 = (count >> 16u32) & 0xFF;
        let b3: u32 = (count >> 24u32) & 0xFF;
        assert(b0 < 256 && b1 < 256 && b2 < 256 && b3 < 256) by (bit_vector)
            requires
                b0 == count & 0xFF,
                b1 == (count >> 8u32) & 0xFF,
                b2 == (count >> 16u32) & 0xFF,
                b3 == (count >> 24u32) & 0xFF,
        ;
        assert(count == b0 + 256 * b1 + 65536 * b2 + 16777216 * b3) by (bit_vector)
            requires
                b0 == count & 0xFF,
                b1 == (count >> 8u32) & 0xFF,
                b2 == (count >> 16u32) & 0xFF,
                b3 == (count >> 24u32) & 0xFF,
        ;
        let flags: [u8; 4] = [b0 as u8, b1 as u8, b2 as u8, b3 as u8];
        let r = Header { encoding, frame_type, flags };
        assert(r.flags@ =~= count_flags(count));
        r
    }

    pub fn get_frame_type(&self) -> (r: u8)
        ensures
            r == self.frame_type,
    {
        self.frame_type
    }

    /// The flags read as a little-endian offset or count.
    pub fn get_count(&self) -> (r: u32)
        ensures
            r == count_of(self.flags@),
    {
        let f = self.flags;
        (f[0] as u32) + 256 * (f[1] as u32) + 65536 * (f[2] as u32) + 16777216 * (f[3] as u32)
    }
}

fn push_crc16(out: &mut Vec<u8>, c: u16)
    ensures
        final(out)@ == old(out)@ + crc16_bytes(c),
{
    out.push((c >> 8u16) as u8);
    out.push(c as u8);
    assert(final(out)@ =~= old(out)@ + crc16_bytes(c));
}

fn push_crc32(out: &mut Vec<u8>, c: u32)
    ensures
        final(out)@ == old(out)@ + crc32_bytes(c),
{
    out.push(c as u8);
    out.push((c >> 8u32) as u8);
    out.push((c >> 16u32) as u8);
    out.push((c >> 24u32) as u8);
    assert(final(out)@ =~= old(out)@ + crc32_bytes(c));
}

proof fn lemma_hex_append(a: Seq<u8>, b: Seq<u8>)
    ensures
        hex_spec(a + b) == hex_spec(a) + hex_spec(b),
    decreases a.len(),
{
    if a.len() == 0 {
        assert(a + b =~= b);
        assert(hex_spec(a) + hex_spec(b) =~= hex_spec(b));
    } else {
        lemma_hex_append(a.skip(1), b);
        assert((a + b).skip(1) =~= a.skip(1) + b);
        assert((a + b)[0] == a[0]);
        assert(hex_spec(a + b) =~= seq![hex_digit(a[0] >> 4u8), hex_digit(a[0] & 0xF)]
            + hex_spec(a.skip(1) + b));
    }
}

fn hex_nibble(n: u8) -> (r: u8)
    requires
        n < 16,
    ensures
        r == hex_digit(n),
{
    if n < 10 {
        0x30 + n
    } else {
        0x57 + n
    }
}

/// Appends two lower-case hex digits for each byte of `data`.
fn hex_encode_into(out: &mut Vec<u8>, data: &[u8])
    ensures
        final(out)@ == old(out)@ + hex_spec(data@),
{
    let ghost start = out@;
    let mut i: usize = 0;
    while i < data.len()
        invariant
            i <= data@.len(),
            out@ == start + hex_spec(data@.take(i as int)),
        decreases data@.len() - i,
    {
        let b = data[i];
        proof {
            lemma_hex_append(data@.take(i as int), seq![b]);
            assert(data@.take(i as int + 1) =~= data@.take(i as int) + seq![b]);
            assert(seq![b].skip(1) =~= Seq::<u8>::empty());
            assert(hex_spec(Seq::<u8>::empty()) =~= Seq::<u8>::empty());
            assert(hex_spec(seq![b]) == seq![hex_digit(b >> 4u8), hex_digit(b & 0xF)]
                + hex_spec(seq![b].skip(1)));
            assert(b >> 4u8 < 16) by (bit_vector);
            assert(b & 0xF < 16) by (bit_vector);
        }
        out.push(hex_nibble(b >> 4u8));
        out.push(hex_nibble(b & 0xF));
        proof {
            assert(out@ =~= start + hex_spec(data@.take(i as int + 1)));
        }
        i = i + 1;
    }
    assert(data@.take(i as int) =~= data@);
}

/// The wire form of a header.
pub fn encode_header(h: &Header) -> (r: Vec<u8>)
    ensures
        r@ == header_wire(*h),
{
    let mut body: Vec<u8> = Vec::new();
    body.push(h.frame_type);
    body.push(h.flags[0]);
    body.push(h.flags[1]);
    body.push(h.flags[2]);
    body.push(h.flags[3]);
    assert(body@ =~= header_body(*h));
    let ghost hb = body@;
    match h.encoding {
        Encoding::Bin32 => {
            let c = crc32(body.as_slice());
            push_crc32(&mut body, c);
        },
        _ => {
            let c = crc16(body.as_slice());
            push_crc16(&mut body, c);
        },
    }
    let mut out: Vec<u8> = Vec::new();
    out.push(ZPAD);
    out.push(ZPAD);
    out.push(ZDLE);
    match h.encoding {
        Encoding::Hex => {
            out.push(ZHEX);
            hex_encode_into(&mut out, body.as_slice());
            out.push(CR);
            out.push(LF);
            out.push(XON);
        },
        Encoding::Bin16 => {
            out.push(ZBIN);
            zdle_encode_into(&mut out, body.as_slice());
        },
        Encoding::Bin32 => {
            out.push(ZBIN32);
            zdle_encode_into(&mut out, body.as_slice());
        },
    }
    assert(out@ =~= header_wire(*h));
    out
}

/// Value of an ASCII hex digit, either case.
pub open spec fn hex_val(c: u8) -> Option<u8> {
    if 0x30 <= c <= 0x39 {
        Some((c - 0x30) as u8)
    } else if 0x61 <= c <= 0x66 {
        Some((c - 0x57) as u8)
    } else if 0x41 <= c <= 0x46 {
        Some((c - 0x37) as u8)
    } else {
        None
    }
}

/// `n` bytes written as hex digit pairs from position `k`.
pub open spec fn unhex(w: Seq<u8>, k: int, n: nat) -> Option<Seq<u8>>
    decreases n,
{
    if n == 0 {
        Some(Seq::empty())
    } else {
        match (hex_val(w[k]), hex_val(w[k + 1])) {
            (Some(h), Some(l)) => option_prepend(seq![(h << 4u8) | l], unhex(w, k + 2, (n - 1) as nat)),
            _ => None,
        }
    }
}

/// Position of the first byte after a run of pads starting at `i`.
pub open spec fn skip_pads(w: Seq<u8>, i: int) -> int
    decreases w.len() - i,
{
    if 0 <= i < w.len() && w[i] == ZPAD {
        skip_pads(w, i + 1)
    } else {
        i
    }
}

/// Whether the header bytes read (body then CRC) carry a matching CRC.
pub open spec fn header_crc_ok(e: Encoding, raw: Seq<u8>) -> bool {
    raw.skip(5) == header_crc_bytes(e, raw.take(5))
}

/// Outcome of reading a header, over mathematical values.
pub enum HeaderScan {
    /// A header with a valid CRC: encoding, type and flag bytes, next position.
    Frame(Encoding, Seq<u8>, int),
    /// No usable header (bad CRC, bad digit, no ZDLE); scanning resumes at the position.
    NoFrame(int),
    /// The wire ends before the header does.
    Short,
    Error(ProtocolError),
}

pub open spec fn parse_header_spec(w: Seq<u8>, i: int) -> HeaderScan {
    let j = skip_pads(w, i);
    if j >= w.len() {
        HeaderScan::Short
    } else if w[j] != ZDLE {
        HeaderScan::NoFrame(j + 1)
    } else if j + 1 >= w.len() {
        HeaderScan::Short
    } else {
        let d = w[j + 1];
        let k = j + 2;
        if d == ZHEX {
            if k + 14 > w.len() {
                HeaderScan::Short
            } else {
                match unhex(w, k, 7) {
                    Some(raw) => if header_crc_ok(Encoding::Hex, raw) {
                        HeaderScan::Frame(Encoding::Hex, raw.take(5), k + 14)
                    } else {
                        HeaderScan::NoFrame(k + 14)
                    },
                    None => HeaderScan::NoFrame(k),
                }
            }
        } else if d == ZBIN || d == ZBIN32 {
            let e = if d == ZBIN {
                Encoding::Bin16
            } else {
                Encoding::Bin32
            };
            let n: nat = if d == ZBIN {
                7
            } else {
                9
            };
            match scan_fixed(w, k, n) {
                Scan::Done(raw, _, m) => if header_crc_ok(e, raw) {
                    HeaderScan::Frame(e, raw.take(5), m)
                } else {
                    HeaderScan::NoFrame(m)
                },
                Scan::Bad(c) => HeaderScan::Error(ProtocolError::UnexpectedByteError(c)),
                Scan::Short => HeaderScan::Short,
            }
        } else {
            HeaderScan::NoFrame(j + 1)
        }
    }
}

/// Outcome of reading a header.
pub enum Parsed {
    Frame(Header, usize),
    NoFrame(usize),
    Short,
    Error(ProtocolError),
}

pub open spec fn parsed_view(r: Parsed) -> HeaderScan {
    match r {
        Parsed::Frame(h, n) => HeaderScan::Frame(h.encoding, header_body(h), n as int),
        Parsed::NoFrame(n) => HeaderScan::NoFrame(n as int),
        Parsed::Short => HeaderScan::Short,
        Parsed::Error(e) => HeaderScan::Error(e),
    }
}

fn hex_value(c: u8) -> (r: Option<u8>)
    ensures
        r == hex_val(c),
{
    if 0x30 <= c && c <= 0x39 {
        Some(c - 0x30)
    } else if 0x61 <= c && c <= 0x66 {
        Some(c - 0x57)
    } else if 0x41 <= c && c <= 0x46 {
        Some(c - 0x37)
    } else {
        None
    }
}

fn unhex_exec(w: &[u8], k: usize, n: usize) -> (r: Option<Vec<u8>>)
    requires
        k + 2 * n <= w@.len(),
    ensures
        r matches Some(v) ==> unhex(w@, k as int, n as nat) == Some(v@),
        r is None ==> unhex(w@, k as int, n as nat) is None,
        r matches Some(v) ==> v@.len() == n,
{
    let wl = w.len();
    let mut out: Vec<u8> = Vec::new();
    let mut j: usize = 0;
    proof {
        match unhex(w@, k as int, n as nat) {
            Some(r) => assert(Seq::<u8>::empty() + r =~= r),
            None => {},
        }
    }
    while j < n
        invariant
            j <= n,
            wl == w@.len(),
            k + 2 * n <= w@.len(),
            out@.len() == j,
            unhex(w@, k as int, n as nat) == option_prepend(
                out@,
                unhex(w@, k + 2 * j, (n - j) as nat),
            ),
        decreases n - j,
    {
        let p = k + 2 * j;
        match (hex_value(w[p]), hex_value(w[p + 1])) {
            (Some(h), Some(l)) => {
                let b = (h << 4u8) | l;
                proof {
                    match unhex(w@, p + 2, (n - j - 1) as nat) {
                        Some(r) => assert(out@ + (seq![b] + r) =~= out@.push(b) + r),
                        None => {},
                    }
                    assert(k + 2 * (j + 1) == p + 2);
                }
                out.push(b);
                j = j + 1;
            },
            _ => {
                return None;
            },
        }
    }
    proof {
        assert(out@ + Seq::<u8>::empty() =~= out@);
    }
    Some(out)
}

/// Checks the CRC of a header read as body then CRC bytes.
fn check_header_crc(e: Encoding, raw: &Vec<u8>) -> (r: bool)
    requires
        raw@.len() == if e == Encoding::Bin32 {
            9int
        } else {
            7int
        },
    ensures
        r == header_crc_ok(e, raw@),
{
    let mut body: Vec<u8> = Vec::new();
    body.push(raw[0]);
    body.push(raw[1]);
    body.push(raw[2]);
    body.push(raw[3]);
    body.push(raw[4]);
    assert(body@ =~= raw@.take(5));
    let mut expect: Vec<u8> = Vec::new();
    match e {
        Encoding::Bin32 => {
            let c = crc32(body.as_slice());
            push_crc32(&mut expect, c);
        },
        _ => {
            let c = crc16(body.as_slice());
            push_crc16(&mut expect, c);
        },
    }
    assert(expect@ =~= header_crc_bytes(e, raw@.take(5)));
    let n = expect.len();
    let mut i: usize = 0;
    while i < n
        invariant
            n == expect@.len(),
            expect@ == header_crc_bytes(e, raw@.take(5)),
            n + 5 == raw@.len(),
            raw@.len() <= 9,
            i <= n,
            forall|t: int| 0 <= t < i ==> raw@[5 + t] == expect@[t],
        decreases n - i,
    {
        if raw[5 + i] != expect[i] {
            assert(raw@.skip(5)[i as int] == raw@[5 + i as int]);
            assert(raw@.skip(5)[i as int] != expect@[i as int]);
            return false;
        }
        i = i + 1;
    }
    assert(raw@.skip(5) =~= expect@);
    true
}

fn header_of(e: Encoding, raw: &Vec<u8>) -> (h: Header)
    requires
        raw@.len() >= 5,
    ensures
        h.encoding == e,
        header_body(h) == raw@.take(5),
{
    let h = Header { encoding: e, frame_type: raw[0], flags: [raw[1], raw[2], raw[3], raw[4]] };
    assert(header_body(h) =~= raw@.take(5));
    h
}

/// Reads a header whose first pad was already taken: further pads, ZDLE, the
/// encoding byte and the body.
pub fn parse_header(w: &[u8], i: usize) -> (r: Parsed)
    requires
        i <= w@.len(),
    ensures
        parsed_view(r) == parse_header_spec(w@, i as int),
        r matches Parsed::Frame(_, n) ==> i < n <= w@.len(),
        r matches Parsed::NoFrame(n) ==> i < n <= w@.len(),
{
    let mut j: usize = i;
    while j < w.len() && w[j] == ZPAD
        invariant
            i <= j <= w@.len(),
            skip_pads(w@, i as int) == skip_pads(w@, j as int),
        decreases w@.len() - j,
    {
        j = j + 1;
    }
    if j >= w.len() {
        return Parsed::Short;
    }
    if w[j] != ZDLE {
        return Parsed::NoFrame(j + 1);
    }
    if j + 1 >= w.len() {
        return Parsed::Short;
    }
    let d = w[j + 1];
    let k = j + 2;
    if d == ZHEX {
        if w.len() - k < 14 {
            return Parsed::Short;
        }
        match unhex_exec(w, k, 7) {
            Some(raw) => {
                if check_header_crc(Encoding::Hex, &raw) {
                    Parsed::Frame(header_of(Encoding::Hex, &raw), k + 14)
                } else {
                    Parsed::NoFrame(k + 14)
                }
            },
            None => Parsed::NoFrame(k),
        }
    } else if d == ZBIN || d == ZBIN32 {
        let e = if d == ZBIN {
            Encoding::Bin16
        } else {
            Encoding::Bin32
        };
        let n: usize = if d == ZBIN {
            7
        } else {
            9
        };
        match scan_fixed_exec(w, k, n) {
            Scanned::Done(raw, _, m) => {
                proof {
                    crate::zdle::lemma_scan_fixed_len(w@, k as int, n as nat);
                }
                if check_header_crc(e, &raw) {
                    Parsed::Frame(header_of(e, &raw), m)
                } else {
                    Parsed::NoFrame(m)
                }
            },
            Scanned::Bad(c) => Parsed::Error(ProtocolError::UnexpectedByteError(c)),
            Scanned::Short => Parsed::Short,
        }
    } else {
        Parsed::NoFrame(j + 1)
    }
}

proof fn lemma_hex_digit(n: u8)
    requires
        n < 16,
    ensures
        hex_val(hex_digit(n)) == Some(n),
{
}

proof fn lemma_hex_len(s: Seq<u8>)
    ensures
        hex_spec(s).len() == 2 * s.len(),
    decreases s.len(),
{
    if s.len() > 0 {
        lemma_hex_len(s.skip(1));
    }
}

proof fn lemma_unhex_encoded(w: Seq<u8>, k: int, s: Seq<u8>)
    requires
        0 <= k,
        k + 2 * s.len() <= w.len(),
        w.subrange(k, k + 2 * s.len()) == hex_spec(s),
    ensures
        unhex(w, k, s.len()) == Some(s),
    decreases s.len(),
{
    if s.len() == 0 {
        assert(s =~= Seq::<u8>::empty());
    } else {
        let b = s[0];
        let sub = w.subrange(k, k + 2 * s.len());
        lemma_hex_len(s.skip(1));
        assert(sub[0] == w[k] && sub[1] == w[k + 1]);
        assert(b >> 4u8 < 16 && b & 0xF < 16) by (bit_vector);
        lemma_hex_digit(b >> 4u8);
        lemma_hex_digit(b & 0xF);
        assert(((b >> 4u8) << 4u8) | (b & 0xFu8) == b) by (bit_vector);
        assert(w.subrange(k + 2, k + 2 + 2 * s.skip(1).len()) =~= sub.subrange(2, sub.len() as int));
        assert(sub.subrange(2, sub.len() as int) =~= hex_spec(s.skip(1)));
        lemma_unhex_encoded(w, k + 2, s.skip(1));
        assert(seq![b] + s.skip(1) =~= s);
    }
}

/// Where reading the wire form of a header stops: before the trailing CR LF XON
/// of a hex header, at the end otherwise.
pub open spec fn body_wire_end(e: Encoding, body: Seq<u8>) -> int {
    if e == Encoding::Hex {
        18
    } else {
        body_wire(e, body).len() as int
    }
}

pub open spec fn header_wire_end(h: Header) -> int {
    body_wire_end(h.encoding, header_body(h))
}

/// Reading back the wire form of any type-and-flags body, its first pad
/// already taken, gives the same body with a valid CRC.
pub proof fn lemma_body_round_trip(e: Encoding, body: Seq<u8>)
    requires
        body.len() == 5,
    ensures
        parse_header_spec(body_wire(e, body), 1) == HeaderScan::Frame(e, body, body_wire_end(e, body)),
{
    let w = body_wire(e, body);
    let raw = body + header_crc_bytes(e, body);
    assert(w[1] == ZPAD && w[2] == ZDLE && w[3] == discriminator(e));
    assert(skip_pads(w, 2) == 2);
    assert(skip_pads(w, 1) == 2);
    assert(raw.take(5) =~= body);
    assert(raw.skip(5) =~= header_crc_bytes(e, body));
    if e == Encoding::Hex {
        lemma_hex_len(raw);
        assert(w.subrange(4, 18) =~= hex_spec(raw));
        lemma_unhex_encoded(w, 4, raw);
    } else {
        assert(w.subrange(4, w.len() as int) =~= zdle_encode_spec(raw));
        lemma_scan_fixed_encoded(w, 4, raw);
    }
}

/// Reading back an encoded header (its first pad already taken) gives a frame
/// with a valid CRC and the same encoding, type and flags.
pub proof fn lemma_header_round_trip(h: Header)
    ensures
        parse_header_spec(header_wire(h), 1) == HeaderScan::Frame(
            h.encoding,
            header_body(h),
            header_wire_end(h),
        ),
{
    lemma_body_round_trip(h.encoding, header_body(h));
}

/// The flag bytes written for a count read back as that count.
pub proof fn lemma_count_flags(c: u32)
    ensures
        count_of(count_flags(c)) == c,
        count_flags(c).len() == 4,
{
    let f = count_flags(c);
    let b0 = c & 0xFF;
    let b1 = (c >> 8u32) & 0xFF;
    let b2 = (c >> 16u32) & 0xFF;
    let b3 = (c >> 24u32) & 0xFF;
    assert(b0 < 256 && b1 < 256 && b2 < 256 && b3 < 256) by (bit_vector)
        requires
            b0 == c & 0xFF,
            b1 == (c >> 8u32) & 0xFF,
            b2 == (c >> 16u32) & 0xFF,
            b3 == (c >> 24u32) & 0xFF,
    ;
    assert(c == b0 + 256 * b1 + 65536 * b2 + 16777216 * b3) by (bit_vector)
        requires
            b0 == c & 0xFF,
            b1 == (c >> 8u32) & 0xFF,
            b2 == (c >> 16u32) & 0xFF,
            b3 == (c >> 24u32) & 0xFF,
    ;
}

/// Number of CRC bytes after a subpacket.
pub open spec fn crc_len(e: Encoding) -> nat {
    if e == Encoding::Bin16 {
        2
    } else {
        4
    }
}

/// The wire form of a data subpacket: escaped payload, ZDLE, terminator, escaped
/// CRC of payload and terminator.
pub open spec fn subpacket_wire(e: Encoding, p: Seq<u8>, t: u8) -> Seq<u8> {
    zdle_encode_spec(p) + seq![ZDLE, t] + zdle_encode_spec(data_crc_bytes(e, p.push(t)))
}

/// Outcome of reading a subpacket, over mathematical values.
pub enum SubpacketScan {
    /// Payload, terminator, next position.
    Packet(Seq<u8>, u8, int),
    /// The CRC does not match; the subpacket ends at the position.
    CrcBad(int),
    Short,
    Error(ProtocolError),
}

pub open spec fn read_subpacket_spec(w: Seq<u8>, i: int, e: Encoding) -> SubpacketScan {
    match scan_data(w, i) {
        Scan::Done(d, t, n) => match scan_fixed(w, n, crc_len(e)) {
            Scan::Done(c, _, m) => if c == data_crc_bytes(e, d.push(t)) {
                SubpacketScan::Packet(d, t, m)
            } else {
                SubpacketScan::CrcBad(m)
            },
            Scan::Bad(c) => SubpacketScan::Error(ProtocolError::UnexpectedByteError(c)),
            Scan::Short => SubpacketScan::Short,
        },
        Scan::Bad(c) => SubpacketScan::Error(ProtocolError::UnexpectedByteError(c)),
        Scan::Short => SubpacketScan::Short,
    }
}

/// Outcome of reading a subpacket.
pub enum Subpacket {
    Packet(Vec<u8>, u8, usize),
    CrcBad(usize),
    Short,
    Error(ProtocolError),
}

pub open spec fn subpacket_view(r: Subpacket) -> SubpacketScan {
    match r {
        Subpacket::Packet(v, t, n) => SubpacketScan::Packet(v@, t, n as int),
        Subpacket::CrcBad(n) => SubpacketScan::CrcBad(n as int),
        Subpacket::Short => SubpacketScan::Short,
        Subpacket::Error(e) => SubpacketScan::Error(e),
    }
}

fn data_crc(e: Encoding, data: &[u8], last: u8) -> (r: Vec<u8>)
    ensures
        r@ == data_crc_bytes(e, data@.push(last)),
{
    let mut r: Vec<u8> = Vec::new();
    match e {
        Encoding::Bin16 => {
            let c = crc16_with(data, last);
            push_crc16(&mut r, c);
        },
        _ => {
            let c = crc32_with(data, last);
            push_crc32(&mut r, c);
        },
    }
    r
}

fn bytes_equal(a: &Vec<u8>, b: &Vec<u8>) -> (r: bool)
    ensures
        r == (a@ == b@),
{
    if a.len() != b.len() {
        return false;
    }
    let mut i: usize = 0;
    while i < a.len()
        invariant
            a@.len() == b@.len(),
            i <= a@.len(),
            forall|k: int| 0 <= k < i ==> a@[k] == b@[k],
        decreases a@.len() - i,
    {
        if a[i] != b[i] {
            return false;
        }
        i = i + 1;
    }
    assert(a@ =~= b@);
    true
}

/// Appends a data subpacket carrying `payload`, closed by `term`.
pub fn write_zlde_data(out: &mut Vec<u8>, e: Encoding, term: u8, payload: &[u8])
    ensures
        final(out)@ == old(out)@ + subpacket_wire(e, payload@, term),
{
    zdle_encode_into(out, payload);
    out.push(ZDLE);
    out.push(term);
    let c = data_crc(e, payload, term);
    zdle_encode_into(out, c.as_slice());
    assert(final(out)@ =~= old(out)@ + subpacket_wire(e, payload@, term));
}

/// Reads a data subpacket starting at `i`, its CRC width given by the header's encoding.
pub fn read_subpacket(w: &[u8], i: usize, e: Encoding) -> (r: Subpacket)
    requires
        i <= w@.len(),
    ensures
        subpacket_view(r) == read_subpacket_spec(w@, i as int, e),
        r matches Subpacket::Packet(_, _, n) ==> i < n <= w@.len(),
        r matches Subpacket::CrcBad(n) ==> i < n <= w@.len(),
{
    match scan_data_exec(w, i) {
        Scanned::Done(d, t, n) => {
            proof {
                crate::zdle::lemma_scan_data_advances(w@, i as int);
            }
            let cl: usize = if e == Encoding::Bin16 {
                2
            } else {
                4
            };
            match scan_fixed_exec(w, n, cl) {
                Scanned::Done(c, _, m) => {
                    proof {
                        crate::zdle::lemma_scan_fixed_len(w@, n as int, cl as nat);
                    }
                    let expect = data_crc(e, d.as_slice(), t);
                    if bytes_equal(&c, &expect) {
                        Subpacket::Packet(d, t, m)
                    } else {
                        Subpacket::CrcBad(m)
                    }
                },
                Scanned::Bad(c) => Subpacket::Error(ProtocolError::UnexpectedByteError(c)),
                Scanned::Short => Subpacket::Short,
            }
        },
        Scanned::Bad(c) => Subpacket::Error(ProtocolError::UnexpectedByteError(c)),
        Scanned::Short => Subpacket::Short,
    }
}

/// Reading back an encoded subpacket recovers its payload and terminator,
/// and the CRC is found valid.
pub proof fn lemma_subpacket_round_trip(e: Encoding, p: Seq<u8>, t: u8)
    requires
        is_terminator(t),
    ensures
        read_subpacket_spec(subpacket_wire(e, p, t), 0, e) == SubpacketScan::Packet(
            p,
            t,
            subpacket_wire(e, p, t).len() as int,
        ),
{
    let w = subpacket_wire(e, p, t);
    let ep = zdle_encode_spec(p);
    let c = data_crc_bytes(e, p.push(t));
    let ec = zdle_encode_spec(c);
    assert(w.subrange(0, ep.len() as int) =~= ep);
    assert(w[ep.len() as int] == ZDLE);
    assert(w[ep.len() as int + 1] == t);
    lemma_scan_data_encoded(w, 0, p, t);
    let n: int = ep.len() as int + 2;
    assert(w.subrange(n, n + ec.len()) =~= ec);
    lemma_scan_fixed_encoded(w, n, c);
    assert(c.len() == crc_len(e));
}

} // verus!
