use vstd::prelude::*;

use crate::consts::{ZACK, ZCRCE, ZCRCQ, ZCRCW, ZDATA, ZEOF, ZFILE, ZFIN, ZNAK, ZRPOS};
use crate::error::ProtocolError;
use crate::frame::{
    Encoding, HeaderScan, Header, Parsed, Subpacket, SubpacketScan, count_of, header_body,
    parse_header, parse_header_spec, read_subpacket, read_subpacket_spec,
};
use crate::proto::{
    count_wire, find_zpad, hex_plain, write_zack, write_zfin, write_znak, write_zrinit,
    write_zrpos, zpad_after, zrinit_wire,
};

verus! {

/// Receiver session states.
#[derive(Debug, PartialEq, Eq, Structural, Clone, Copy)]
pub enum State {
    /// Sending ZRINIT
    SendingZRINIT,
    /// Processing ZFILE supplementary data
    ProcessingZFILE,
    /// Receiving file's content
    ReceivingData,
    /// Checking length of received data
    CheckingData,
    /// All works done, exiting
    Done,
}

/// The receiver's transition table.
pub open spec fn next_spec(s: State, t: u8) -> State {
    match s {
        State::SendingZRINIT => if t == ZFILE {
            State::ProcessingZFILE
        } else {
            State::SendingZRINIT
        },
        State::ProcessingZFILE => if t == ZDATA {
            State::ReceivingData
        } else {
            State::ProcessingZFILE
        },
        State::ReceivingData => if t == ZEOF {
            State::CheckingData
        } else {
            State::ReceivingData
        },
        State::CheckingData => if t == ZDATA {
            State::ReceivingData
        } else if t == ZFIN {
            State::Done
        } else {
            State::CheckingData
        },
        State::Done => State::Done,
    }
}

impl State {
    pub fn new() -> (r: State)
        ensures
            r == State::SendingZRINIT,
    {
        State::SendingZRINIT
    }

    /// The state entered on receiving `frame`; an unexpected frame keeps the state.
    pub fn next(self, frame: &Header) -> (r: State)
        ensures
            r == next_spec(self, frame.frame_type),
    {
        let t = frame.get_frame_type();
        match self {
            State::SendingZRINIT => if t == ZFILE {
                State::ProcessingZFILE
            } else {
                State::SendingZRINIT
            },
            State::ProcessingZFILE => if t == ZDATA {
                State::ReceivingData
            } else {
                State::ProcessingZFILE
            },
            State::ReceivingData => if t == ZEOF {
                State::CheckingData
            } else {
                State::ReceivingData
            },
            State::CheckingData => if t == ZDATA {
                State::ReceivingData
            } else if t == ZFIN {
                State::Done
            } else {
                State::CheckingData
            },
            State::Done => State::Done,
        }
    }
}

/// How far a step got through the input.
#[derive(Debug, PartialEq, Eq, Structural, Clone, Copy)]
pub enum Progress {
    /// Input up to the position was handled.
    Consumed(usize),
    /// More input is needed; bytes before the position may be dropped.
    Wait(usize),
}

/// What the receiver does on a subpacket's terminator: acknowledge it, and
/// keep reading subpackets of the same frame.
pub open spec fn term_action(t: u8) -> (bool, bool) {
    if t == ZCRCQ {
        (true, true)
    } else if t == ZCRCW {
        (true, false)
    } else if t == ZCRCE {
        (false, false)
    } else {
        (false, true)
    }
}

/// A receive session: its state, the bytes written so far, and whether the
/// subpackets of a data frame are being read (with that frame's encoding).
#[derive(Debug, Clone, Copy, PartialEq, Eq, Structural)]
pub struct Receiver {
    pub state: State,
    pub count: u32,
    pub in_data: bool,
    pub data_encoding: Encoding,
}

/// What one receiver step does: the session after it, the bytes sent to the
/// peer, the bytes appended to the sink, and the step's result.
pub struct RecvOutcome {
    pub rcv: Receiver,
    pub out: Seq<u8>,
    pub sink: Seq<u8>,
    pub result: Result<Progress, ProtocolError>,
}

pub open spec fn outcome(
    rcv: Receiver,
    out: Seq<u8>,
    sink: Seq<u8>,
    result: Result<Progress, ProtocolError>,
) -> RecvOutcome {
    RecvOutcome { rcv, out, sink, result }
}

pub open spec fn zrpos_wire(c: u32) -> Seq<u8> {
    count_wire(Encoding::Hex, ZRPOS, c)
}

/// A step inside a data frame: one subpacket is appended to the sink and
/// acknowledged as its terminator asks; a bad CRC asks for a resend from `count`.
pub open spec fn data_step(r: Receiver, w: Seq<u8>, pos: int) -> RecvOutcome {
    match read_subpacket_spec(w, pos, r.data_encoding) {
        SubpacketScan::Short => outcome(r, Seq::empty(), Seq::empty(), Ok(Progress::Wait(pos as usize))),
        SubpacketScan::Error(e) => outcome(r, Seq::empty(), Seq::empty(), Err(e)),
        SubpacketScan::CrcBad(n) => outcome(
            Receiver { in_data: false, ..r },
            zrpos_wire(r.count),
            Seq::empty(),
            Ok(Progress::Consumed(n as usize)),
        ),
        SubpacketScan::Packet(d, t, n) => if d.len() > 0xFFFF_FFFF - r.count {
            outcome(
                Receiver { in_data: false, ..r },
                zrpos_wire(r.count),
                Seq::empty(),
                Ok(Progress::Consumed(n as usize)),
            )
        } else {
            let c = (r.count + d.len()) as u32;
            outcome(
                Receiver { count: c, in_data: term_action(t).1, ..r },
                if term_action(t).0 {
                    count_wire(Encoding::Hex, ZACK, c)
                } else {
                    Seq::empty()
                },
                d,
                Ok(Progress::Consumed(n as usize)),
            )
        },
    }
}

/// The action on entering `next` after a header with encoding `e` and
/// count `fc` that ends at `n`, its pad at `p - 1`.
pub open spec fn enter_step(
    r: Receiver,
    next: State,
    e: Encoding,
    fc: int,
    w: Seq<u8>,
    p: int,
    n: int,
) -> RecvOutcome {
    let moved = Receiver { state: next, ..r };
    match next {
        State::SendingZRINIT => outcome(moved, zrinit_wire(), Seq::empty(), Ok(Progress::Consumed(n as usize))),
        State::ProcessingZFILE => match read_subpacket_spec(w, n, e) {
            SubpacketScan::Short => outcome(r, Seq::empty(), Seq::empty(), Ok(Progress::Wait((p - 1) as usize))),
            SubpacketScan::Error(x) => outcome(r, Seq::empty(), Seq::empty(), Err(x)),
            SubpacketScan::CrcBad(m) => outcome(moved, hex_plain(ZNAK), Seq::empty(), Ok(Progress::Consumed(m as usize))),
            SubpacketScan::Packet(_, _, m) => outcome(moved, zrpos_wire(r.count), Seq::empty(), Ok(Progress::Consumed(m as usize))),
        },
        State::ReceivingData => if fc != r.count {
            outcome(moved, zrpos_wire(r.count), Seq::empty(), Ok(Progress::Consumed(n as usize)))
        } else {
            outcome(
                Receiver { state: next, in_data: true, data_encoding: e, ..r },
                Seq::empty(),
                Seq::empty(),
                Ok(Progress::Consumed(n as usize)),
            )
        },
        State::CheckingData => outcome(
            moved,
            if fc == r.count {
                zrinit_wire()
            } else {
                Seq::empty()
            },
            Seq::empty(),
            Ok(Progress::Consumed(n as usize)),
        ),
        State::Done => outcome(moved, hex_plain(ZFIN), Seq::empty(), Ok(Progress::Consumed(n as usize))),
    }
}

/// A step between frames: find the next header, move by the transition table
/// and perform the action of the state entered; a damaged header gets ZNAK,
/// or ZRPOS while receiving data.
pub open spec fn header_step(r: Receiver, w: Seq<u8>, pos: int) -> RecvOutcome {
    match zpad_after(w, pos) {
        None => outcome(r, Seq::empty(), Seq::empty(), Ok(Progress::Wait(w.len() as usize))),
        Some(p) => match parse_header_spec(w, p) {
            HeaderScan::Short => outcome(r, Seq::empty(), Seq::empty(), Ok(Progress::Wait((p - 1) as usize))),
            HeaderScan::Error(e) => outcome(r, Seq::empty(), Seq::empty(), Err(e)),
            HeaderScan::NoFrame(n) => outcome(
                r,
                if r.state == State::ReceivingData {
                    zrpos_wire(r.count)
                } else {
                    hex_plain(ZNAK)
                },
                Seq::empty(),
                Ok(Progress::Consumed(n as usize)),
            ),
            HeaderScan::Frame(e, body, n) => enter_step(
                r,
                next_spec(r.state, body[0]),
                e,
                count_of(body.skip(1)),
                w,
                p,
                n,
            ),
        },
    }
}

pub open spec fn recv_step_spec(r: Receiver, w: Seq<u8>, pos: int) -> RecvOutcome {
    if r.in_data {
        data_step(r, w, pos)
    } else {
        header_step(r, w, pos)
    }
}

impl Receiver {
    pub fn new() -> (r: Receiver)
        ensures
            r.state == State::SendingZRINIT,
            r.count == 0,
            !r.in_data,
    {
        Receiver { state: State::new(), count: 0, in_data: false, data_encoding: Encoding::Bin32 }
    }

    /// The invitation that opens the session.
    pub fn start(&self, out: &mut Vec<u8>)
        ensures
            final(out)@ == old(out)@ + crate::proto::zrinit_wire(),
    {
        write_zrinit(out);
    }

    pub fn is_done(&self) -> (r: bool)
        ensures
            r == (self.state == State::Done),
    {
        self.state == State::Done
    }

    fn take_subpacket(&mut self, w: &[u8], pos: usize, out: &mut Vec<u8>, sink: &mut Vec<u8>) -> (r:
        Result<Progress, ProtocolError>)
        requires
            pos <= w@.len(),
            old(self).in_data,
        ensures
            *final(self) == data_step(*old(self), w@, pos as int).rcv,
            final(out)@ == old(out)@ + data_step(*old(self), w@, pos as int).out,
            final(sink)@ == old(sink)@ + data_step(*old(self), w@, pos as int).sink,
            r == data_step(*old(self), w@, pos as int).result,
            r matches Ok(Progress::Consumed(n)) ==> pos < n <= w@.len(),
    {
        proof {
            lemma_add_empty(out@);
            lemma_add_empty(sink@);
        }
        match read_subpacket(w, pos, self.data_encoding) {
            Subpacket::Short => Ok(Progress::Wait(pos)),
            Subpacket::Error(e) => Err(e),
            Subpacket::CrcBad(n) => {
                write_zrpos(out, self.count);
                self.in_data = false;
                Ok(Progress::Consumed(n))
            },
            Subpacket::Packet(d, t, n) => {
                if d.len() > (0xFFFF_FFFFu32 - self.count) as usize {
                    // beyond what 32-bit offsets can address
                    write_zrpos(out, self.count);
                    self.in_data = false;
                    return Ok(Progress::Consumed(n));
                }
                let mut d = d;
                self.count = self.count + d.len() as u32;
                sink.append(&mut d);
                if t == ZCRCQ {
                    write_zack(out, self.count);
                } else if t == ZCRCW {
                    write_zack(out, self.count);
                    self.in_data = false;
                } else if t == ZCRCE {
                    self.in_data = false;
                }
                Ok(Progress::Consumed(n))
            },
        }
    }

    /// Handles input from `pos`: one header with the action of the state it
    /// leads to, or one subpacket of the data frame being read. The count of
    /// bytes received never decreases, and grows by what is appended to the sink.
    pub fn step(&mut self, w: &[u8], pos: usize, out: &mut Vec<u8>, sink: &mut Vec<u8>) -> (r:
        Result<Progress, ProtocolError>)
        requires
            pos <= w@.len(),
        ensures
            *final(self) == recv_step_spec(*old(self), w@, pos as int).rcv,
            final(out)@ == old(out)@ + recv_step_spec(*old(self), w@, pos as int).out,
            final(sink)@ == old(sink)@ + recv_step_spec(*old(self), w@, pos as int).sink,
            r == recv_step_spec(*old(self), w@, pos as int).result,
            final(self).count >= old(self).count,
            final(sink)@.len() == old(sink)@.len() + (final(self).count - old(self).count),
            r matches Ok(Progress::Consumed(n)) ==> pos < n <= w@.len(),
            r matches Ok(Progress::Wait(n)) ==> pos <= n <= w@.len(),
    {
        proof {
            lemma_add_empty(out@);
            lemma_add_empty(sink@);
        }
        if self.in_data {
            return self.take_subpacket(w, pos, out, sink);
        }
        let p = match find_zpad(w, pos) {
            None => {
                return Ok(Progress::Wait(w.len()));
            },
            Some(p) => p,
        };
        match parse_header(w, p) {
            Parsed::Short => Ok(Progress::Wait(p - 1)),
            Parsed::Error(e) => Err(e),
            Parsed::NoFrame(n) => {
                if self.state == State::ReceivingData {
                    write_zrpos(out, self.count);
                } else {
                    write_znak(out);
                }
                Ok(Progress::Consumed(n))
            },
            Parsed::Frame(h, n) => {
                proof {
                    assert(header_body(h)[0] == h.frame_type);
                    assert(header_body(h).skip(1) =~= h.flags@);
                }
                let next = self.state.next(&h);
                match next {
                    State::SendingZRINIT => {
                        write_zrinit(out);
                    },
                    State::ProcessingZFILE => {
                        match read_subpacket(w, n, h.encoding) {
                            Subpacket::Short => {
                                return Ok(Progress::Wait(p - 1));
                            },
                            Subpacket::Error(e) => {
                                return Err(e);
                            },
                            Subpacket::CrcBad(m) => {
                                write_znak(out);
                                self.state = next;
                                return Ok(Progress::Consumed(m));
                            },
                            Subpacket::Packet(_, _, m) => {
                                write_zrpos(out, self.count);
                                self.state = next;
                                return Ok(Progress::Consumed(m));
                            },
                        }
                    },
                    State::ReceivingData => {
                        if h.get_count() != self.count {
                            write_zrpos(out, self.count);
                        } else {
                            self.in_data = true;
                            self.data_encoding = h.encoding;
                        }
                    },
                    State::CheckingData => {
                        if h.get_count() == self.count {
                            write_zrinit(out);
                        }
                    },
                    State::Done => {
                        write_zfin(out);
                    },
                }
                self.state = next;
                Ok(Progress::Consumed(n))
            },
        }
    }
}

proof fn lemma_add_empty(s: Seq<u8>)
    ensures
        s + Seq::<u8>::empty() == s,
{
    assert(s + Seq::<u8>::empty() =~= s);
}

} // verus!
