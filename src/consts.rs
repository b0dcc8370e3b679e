use vstd::prelude::*;

verus! {

/// Pad byte that opens every header.
pub const ZPAD: u8 = 0x2A;
/// ZMODEM data link escape.
pub const ZDLE: u8 = 0x18;
/// Carriage return, line feed and XON that close a hex header.
pub const CR: u8 = 0x0D;
pub const LF: u8 = 0x0A;
pub const XON: u8 = 0x11;

/// Header encoding discriminators (the byte after `ZPAD ZPAD ZDLE`).
pub const ZBIN: u8 = 0x41;
pub const ZHEX: u8 = 0x42;
pub const ZBIN32: u8 = 0x43;

/// Frame types.
pub const ZRQINIT: u8 = 0;
pub const ZRINIT: u8 = 1;
pub const ZSINIT: u8 = 2;
pub const ZACK: u8 = 3;
pub const ZFILE: u8 = 4;
pub const ZSKIP: u8 = 5;
pub const ZNAK: u8 = 6;
pub const ZABORT: u8 = 7;
pub const ZFIN: u8 = 8;
pub const ZRPOS: u8 = 9;
pub const ZDATA: u8 = 10;
pub const ZEOF: u8 = 11;
pub const ZFERR: u8 = 12;
pub const ZCRC: u8 = 13;
pub const ZCHALLENGE: u8 = 14;
pub const ZCOMPL: u8 = 15;
pub const ZCAN: u8 = 16;
pub const ZFREECNT: u8 = 17;
pub const ZCOMMAND: u8 = 18;
pub const ZSTDERR: u8 = 19;

/// Subpacket terminators.
pub const ZCRCE: u8 = 0x68;
pub const ZCRCG: u8 = 0x69;
pub const ZCRCQ: u8 = 0x6A;
pub const ZCRCW: u8 = 0x6B;

/// Receiver capability bits carried in the last flag byte of ZRINIT.
pub const CANFDX: u8 = 0x01;
pub const CANOVIO: u8 = 0x02;
pub const CANFC32: u8 = 0x20;

/// Largest payload of one data subpacket.
pub const SUBPACKET_SIZE: usize = 8192;
/// Subpackets in one burst before the sender waits for an acknowledgement.
pub const SUBPACKET_PER_ACK: usize = 10;

pub open spec fn is_terminator(b: u8) -> bool {
    b == ZCRCE || b == ZCRCG || b == ZCRCQ || b == ZCRCW
}

} // verus!
