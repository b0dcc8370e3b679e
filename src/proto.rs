use vstd::prelude::*;

use crate::consts::{
    CANFC32, CANFDX, CANOVIO, ZACK, ZCRCW, ZDATA, ZEOF, ZFILE, ZFIN, ZNAK, ZPAD, ZRINIT, ZRPOS,
    ZRQINIT,
};
use crate::frame::{
    Encoding, Header, body_wire, count_flags, encode_header, header_body, subpacket_wire,
    write_zlde_data,
};

verus! {

/// Flags of the ZRINIT this receiver sends: CRC-32, full duplex, overlapped I/O.
pub open spec fn zrinit_flags() -> Seq<u8> {
    seq![0u8, 0u8, 0u8, (CANFC32 | CANFDX | CANOVIO) as u8]
}

/// Wire form of a hex header with all flags zero.
pub open spec fn hex_plain(t: u8) -> Seq<u8> {
    body_wire(Encoding::Hex, seq![t] + seq![0u8, 0u8, 0u8, 0u8])
}

/// Wire form of a header carrying a count.
pub open spec fn count_wire(e: Encoding, t: u8, c: u32) -> Seq<u8> {
    body_wire(e, seq![t] + count_flags(c))
}

pub open spec fn zrinit_wire() -> Seq<u8> {
    body_wire(Encoding::Hex, seq![ZRINIT] + zrinit_flags())
}

fn push_header(out: &mut Vec<u8>, h: &Header)
    ensures
        final(out)@ == old(out)@ + body_wire(h.encoding, header_body(*h)),
{
    let mut v = encode_header(h);
    out.append(&mut v);
}

fn push_plain(out: &mut Vec<u8>, t: u8)
    ensures
        final(out)@ == old(out)@ + hex_plain(t),
{
    let h = Header::new(Encoding::Hex, t, [0, 0, 0, 0]);
    assert(header_body(h) =~= seq![t] + seq![0u8, 0u8, 0u8, 0u8]);
    push_header(out, &h);
}

fn push_count(out: &mut Vec<u8>, e: Encoding, t: u8, c: u32)
    ensures
        final(out)@ == old(out)@ + count_wire(e, t, c),
{
    let h = Header::with_count(e, t, c);
    assert(header_body(h) =~= seq![t] + count_flags(c));
    push_header(out, &h);
}

/// Receiver's invitation, with its capabilities.
pub fn write_zrinit(out: &mut Vec<u8>)
    ensures
        final(out)@ == old(out)@ + zrinit_wire(),
{
    let h = Header::new(Encoding::Hex, ZRINIT, [0, 0, 0, CANFC32 | CANFDX | CANOVIO]);
    assert(header_body(h) =~= seq![ZRINIT] + zrinit_flags());
    push_header(out, &h);
}

/// Sender's request for a ZRINIT.
pub fn write_zrqinit(out: &mut Vec<u8>)
    ensures
        final(out)@ == old(out)@ + hex_plain(ZRQINIT),
{
    push_plain(out, ZRQINIT);
}

pub fn write_znak(out: &mut Vec<u8>)
    ensures
        final(out)@ == old(out)@ + hex_plain(ZNAK),
{
    push_plain(out, ZNAK);
}

pub fn write_zfin(out: &mut Vec<u8>)
    ensures
        final(out)@ == old(out)@ + hex_plain(ZFIN),
{
    push_plain(out, ZFIN);
}

/// Asks the sender to resume from `count`.
pub fn write_zrpos(out: &mut Vec<u8>, count: u32)
    ensures
        final(out)@ == old(out)@ + count_wire(Encoding::Hex, ZRPOS, count),
{
    push_count(out, Encoding::Hex, ZRPOS, count);
}

/// Acknowledges `count` bytes.
pub fn write_zack(out: &mut Vec<u8>, count: u32)
    ensures
        final(out)@ == old(out)@ + count_wire(Encoding::Hex, ZACK, count),
{
    push_count(out, Encoding::Hex, ZACK, count);
}

pub fn write_zeof(out: &mut Vec<u8>, offset: u32)
    ensures
        final(out)@ == old(out)@ + count_wire(Encoding::Hex, ZEOF, offset),
{
    push_count(out, Encoding::Hex, ZEOF, offset);
}

/// Opens a data frame at `offset`; CRC-32 subpackets follow.
pub fn write_zdata(out: &mut Vec<u8>, offset: u32)
    ensures
        final(out)@ == old(out)@ + count_wire(Encoding::Bin32, ZDATA, offset),
{
    push_count(out, Encoding::Bin32, ZDATA, offset);
}

/// Decimal digits of `n`.
pub open spec fn decimal(n: nat) -> Seq<u8>
    decreases n,
{
    if n < 10 {
        seq![(0x30 + n) as u8]
    } else {
        decimal(n / 10) + seq![(0x30 + n % 10) as u8]
    }
}

fn push_decimal(out: &mut Vec<u8>, n: u32)
    ensures
        final(out)@ == old(out)@ + decimal(n as nat),
    decreases n,
{
    if n >= 10 {
        push_decimal(out, n / 10);
    }
    out.push(0x30 + (n % 10) as u8);
    assert(final(out)@ =~= old(out)@ + decimal(n as nat));
}

/// Payload of the ZFILE subpacket: the name, NUL, and, when the size is known,
/// `<size> <mtime> <mode> <serial> <files left> <bytes left>` and NUL.
pub open spec fn zfile_info(name: Seq<u8>, size: Option<u32>) -> Seq<u8> {
    match size {
        None => name.push(0),
        Some(n) => name.push(0) + decimal(n as nat) + seq![0x20u8, 0x30, 0x20, 0x30, 0x20, 0x30, 0x20, 0x31, 0x20]
            + decimal(n as nat) + seq![0u8],
    }
}

pub open spec fn zfile_wire(name: Seq<u8>, size: Option<u32>) -> Seq<u8> {
    count_wire(Encoding::Bin32, ZFILE, 0) + subpacket_wire(
        Encoding::Bin32,
        zfile_info(name, size),
        ZCRCW,
    )
}

/// Offers a file: a ZFILE header and a ZCRCW subpacket with its name and size.
pub fn write_zfile(out: &mut Vec<u8>, name: &[u8], size: Option<u32>)
    ensures
        final(out)@ == old(out)@ + zfile_wire(name@, size),
{
    push_count(out, Encoding::Bin32, ZFILE, 0);
    let mut info: Vec<u8> = Vec::new();
    let mut i: usize = 0;
    while i < name.len()
        invariant
            i <= name@.len(),
            info@ == name@.take(i as int),
        decreases name@.len() - i,
    {
        info.push(name[i]);
        assert(info@ =~= name@.take(i as int + 1));
        i = i + 1;
    }
    assert(info@ =~= name@);
    info.push(0);
    match size {
        Some(n) => {
            push_decimal(&mut info, n);
            info.push(0x20);
            info.push(0x30);
            info.push(0x20);
            info.push(0x30);
            info.push(0x20);
            info.push(0x30);
            info.push(0x20);
            info.push(0x31);
            info.push(0x20);
            push_decimal(&mut info, n);
            info.push(0);
        },
        None => {},
    }
    assert(info@ =~= zfile_info(name@, size));
    write_zlde_data(out, Encoding::Bin32, ZCRCW, info.as_slice());
    assert(final(out)@ =~= old(out)@ + zfile_wire(name@, size));
}

/// The sender's last words.
pub fn write_over_and_out(out: &mut Vec<u8>)
    ensures
        final(out)@ == old(out)@ + seq![0x4Fu8, 0x4Fu8],
{
    out.push(0x4F);
    out.push(0x4F);
    assert(final(out)@ =~= old(out)@ + seq![0x4Fu8, 0x4Fu8]);
}

/// Position just after the first pad at or after `i`, if any.
pub open spec fn zpad_after(w: Seq<u8>, i: int) -> Option<int>
    decreases w.len() - i,
{
    if i < 0 || i >= w.len() {
        None
    } else if w[i] == ZPAD {
        Some(i + 1)
    } else {
        zpad_after(w, i + 1)
    }
}

/// Position just after the first pad at or after `i`; `None` when there is none.
pub fn find_zpad(w: &[u8], i: usize) -> (r: Option<usize>)
    requires
        i <= w@.len(),
    ensures
        r matches Some(n) ==> zpad_after(w@, i as int) == Some(n as int) && i < n <= w@.len(),
        r is None ==> zpad_after(w@, i as int) is None,
{
    let mut j: usize = i;
    while j < w.len()
        invariant
            i <= j <= w@.len(),
            zpad_after(w@, i as int) == zpad_after(w@, j as int),
        decreases w@.len() - j,
    {
        if w[j] == ZPAD {
            return Some(j + 1);
        }
        j = j + 1;
    }
    None
}

} // verus!
