use vstd::prelude::*;

verus! {

/// Generator of CRC-16 (most significant bit first).
pub const CRC16_POLY: u16 = 0x1021;
/// Generator of CRC-32 (reflected IEEE 802.3).
pub const CRC32_POLY: u32 = 0xEDB8_8320;

/// One shift of the CRC-16 register.
pub open spec fn crc16_shift(c: u16) -> u16 {
    if c & 0x8000 != 0 {
        ((c << 1u16) ^ CRC16_POLY) as u16
    } else {
        (c << 1u16) as u16
    }
}

pub open spec fn crc16_shifts(c: u16, n: nat) -> u16
    decreases n,
{
    if n == 0 {
        c
    } else {
        crc16_shifts(crc16_shift(c), (n - 1) as nat)
    }
}

/// The CRC-16 register after feeding one byte.
pub open spec fn crc16_byte(c: u16, b: u8) -> u16 {
    crc16_shifts(c ^ ((b as u16) << 8u16), 8)
}

/// The CRC-16 register after feeding `s` from `c`.
pub open spec fn crc16_from(c: u16, s: Seq<u8>) -> u16
    decreases s.len(),
{
    if s.len() == 0 {
        c
    } else {
        crc16_byte(crc16_from(c, s.drop_last()), s.last())
    }
}

/// CRC-16 of `s`: initial value 0, no reflection, no final xor.
pub open spec fn crc16_spec(s: Seq<u8>) -> u16 {
    crc16_from(0, s)
}

/// One shift of the reflected CRC-32 register.
pub open spec fn crc32_shift(c: u32) -> u32 {
    if c & 1 != 0 {
        (c >> 1u32) ^ CRC32_POLY
    } else {
        c >> 1u32
    }
}

pub open spec fn crc32_shifts(c: u32, n: nat) -> u32
    decreases n,
{
    if n == 0 {
        c
    } else {
        crc32_shifts(crc32_shift(c), (n - 1) as nat)
    }
}

pub open spec fn crc32_byte(c: u32, b: u8) -> u32 {
    crc32_shifts(c ^ (b as u32), 8)
}

pub open spec fn crc32_from(c: u32, s: Seq<u8>) -> u32
    decreases s.len(),
{
    if s.len() == 0 {
        c
    } else {
        crc32_byte(crc32_from(c, s.drop_last()), s.last())
    }
}

/// CRC-32 of `s`: initial value all ones, reflected, final xor all ones.
pub open spec fn crc32_spec(s: Seq<u8>) -> u32 {
    crc32_from(0xFFFF_FFFF, s) ^ 0xFFFF_FFFF
}

fn crc16_update(c: u16, b: u8) -> (r: u16)
    ensures
        r == crc16_byte(c, b),
{
    let mut x: u16 = c ^ ((b as u16) << 8u16);
    let mut i: u32 = 0;
    while i < 8
        invariant
            i <= 8,
            crc16_shifts(x, (8 - i) as nat) == crc16_byte(c, b),
        decreases 8 - i,
    {
        x = if x & 0x8000 != 0 {
            (x << 1u16) ^ CRC16_POLY
        } else {
            x << 1u16
        };
        i = i + 1;
    }
    x
}

fn crc32_update(c: u32, b: u8) -> (r: u32)
    ensures
        r == crc32_byte(c, b),
{
    let mut x: u32 = c ^ (b as u32);
    let mut i: u32 = 0;
    while i < 8
        invariant
            i <= 8,
            crc32_shifts(x, (8 - i) as nat) == crc32_byte(c, b),
        decreases 8 - i,
    {
        x = if x & 1 != 0 {
            (x >> 1u32) ^ CRC32_POLY
        } else {
            x >> 1u32
        };
        i = i + 1;
    }
    x
}

/// CRC-16 (polynomial 0x1021, initial 0, unreflected) of `data`.
pub fn crc16(data: &[u8]) -> (r: u16)
    ensures
        r == crc16_spec(data@),
{
    crc16_run(0, data)
}

/// CRC-32 (IEEE 802.3) of `data`.
pub fn crc32(data: &[u8]) -> (r: u32)
    ensures
        r == crc32_spec(data@),
{
    crc32_run(0xFFFF_FFFF, data) ^ 0xFFFF_FFFF
}

fn crc16_run(c0: u16, data: &[u8]) -> (r: u16)
    ensures
        r == crc16_from(c0, data@),
{
    let mut c: u16 = c0;
    let mut i: usize = 0;
    while i < data.len()
        invariant
            i <= data@.len(),
            c == crc16_from(c0, data@.take(i as int)),
        decreases data@.len() - i,
    {
        c = crc16_update(c, data[i]);
        assert(data@.take(i as int + 1).drop_last() =~= data@.take(i as int));
        i = i + 1;
    }
    assert(data@.take(i as int) =~= data@);
    c
}

fn crc32_run(c0: u32, data: &[u8]) -> (r: u32)
    ensures
        r == crc32_from(c0, data@),
{
    let mut c: u32 = c0;
    let mut i: usize = 0;
    while i < data.len()
        invariant
            i <= data@.len(),
            c == crc32_from(c0, data@.take(i as int)),
        decreases data@.len() - i,
    {
        c = crc32_update(c, data[i]);
        assert(data@.take(i as int + 1).drop_last() =~= data@.take(i as int));
        i = i + 1;
    }
    assert(data@.take(i as int) =~= data@);
    c
}

/// CRC-16 of `data` followed by one more byte.
pub fn crc16_with(data: &[u8], last: u8) -> (r: u16)
    ensures
        r == crc16_spec(data@.push(last)),
{
    let c = crc16_run(0, data);
    assert(data@.push(last).drop_last() =~= data@);
    crc16_update(c, last)
}

/// CRC-32 of `data` followed by one more byte.
pub fn crc32_with(data: &[u8], last: u8) -> (r: u32)
    ensures
        r == crc32_spec(data@.push(last)),
{
    let c = crc32_run(0xFFFF_FFFF, data);
    assert(data@.push(last).drop_last() =~= data@);
    crc32_update(c, last) ^ 0xFFFF_FFFF
}

} // verus!
