//! ZMODEM file transfer: CRCs, ZDLE escaping, header and subpacket framing,
//! and the sender and receiver state machines as steps over byte buffers.
use vstd::prelude::*;

pub mod consts;
pub mod crc;
pub mod error;
pub mod frame;
pub mod proto;
pub mod read_write;
pub mod recv;
pub mod send;
pub mod zdle;

verus! {

} // verus!
