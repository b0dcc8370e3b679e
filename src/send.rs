use vstd::prelude::*;
use vstd::string::StringSliceAdditionalSpecFns;

use crate::consts::{
    SUBPACKET_PER_ACK, SUBPACKET_SIZE, ZACK, ZCRCG, ZCRCW, ZDATA, ZEOF, ZFIN, ZRINIT, ZRPOS,
};
use crate::error::ProtocolError;
use crate::consts::{ZNAK, ZPAD, ZRQINIT};
use crate::frame::{
    Encoding, HeaderScan, Header, Parsed, count_flags, count_of, header_body, lemma_body_round_trip,
    lemma_count_flags, parse_header, parse_header_spec, subpacket_wire, write_zlde_data,
};
use crate::proto::{
    count_wire, find_zpad, hex_plain, write_over_and_out, write_zdata, write_zeof, write_zfile,
    write_zfin, write_znak, write_zrqinit, zfile_wire, zpad_after,
};

verus! {

/// Sender session states.
#[derive(Debug, PartialEq, Eq, Structural, Clone, Copy)]
pub enum State {
    /// Waiting ZRINIT invite (do nothing)
    WaitingInit,
    /// Sending ZRQINIT
    SendingZRQINIT,
    /// Sending ZFILE frame
    SendingZFILE,
    /// Do nothing, just waiting for ZPOS
    WaitingZPOS,
    /// Sending ZDATA & subpackets
    SendingData,
    /// Sending ZFIN
    SendingZFIN,
    /// All works done, exiting
    Done,
}

/// The sender's transition table.
pub open spec fn next_spec(s: State, t: u8) -> State {
    match s {
        State::WaitingInit => if t == ZRINIT {
            State::SendingZFILE
        } else {
            State::SendingZRQINIT
        },
        State::SendingZRQINIT => if t == ZRINIT {
            State::SendingZFILE
        } else {
            State::SendingZRQINIT
        },
        State::SendingZFILE => if t == ZRPOS {
            State::SendingData
        } else if t == ZRINIT {
            State::WaitingZPOS
        } else {
            State::SendingZFILE
        },
        State::WaitingZPOS => if t == ZRPOS {
            State::SendingData
        } else {
            State::WaitingZPOS
        },
        State::SendingData => if t == ZRINIT {
            State::SendingZFIN
        } else {
            State::SendingData
        },
        State::SendingZFIN => if t == ZFIN {
            State::Done
        } else {
            State::SendingZFIN
        },
        State::Done => State::Done,
    }
}

impl State {
    pub fn new() -> (r: State)
        ensures
            r == State::WaitingInit,
    {
        State::WaitingInit
    }

    /// The state entered on receiving `frame`; an unexpected frame keeps the state.
    pub fn next(self, frame: &Header) -> (r: State)
        ensures
            r == next_spec(self, frame.frame_type),
    {
        let t = frame.get_frame_type();
        match self {
            State::WaitingInit => if t == ZRINIT {
                State::SendingZFILE
            } else {
                State::SendingZRQINIT
            },
            State::SendingZRQINIT => if t == ZRINIT {
                State::SendingZFILE
            } else {
                State::SendingZRQINIT
            },
            State::SendingZFILE => if t == ZRPOS {
                State::SendingData
            } else if t == ZRINIT {
                State::WaitingZPOS
            } else {
                State::SendingZFILE
            },
            State::WaitingZPOS => if t == ZRPOS {
                State::SendingData
            } else {
                State::WaitingZPOS
            },
            State::SendingData => if t == ZRINIT {
                State::SendingZFIN
            } else {
                State::SendingData
            },
            State::SendingZFIN => if t == ZFIN {
                State::Done
            } else {
                State::SendingZFIN
            },
            State::Done => State::Done,
        }
    }
}

/// Largest source window one burst can use.
pub const BURST_WINDOW: usize = 90112;

/// Bytes `[k * SUBPACKET_SIZE, (k + 1) * SUBPACKET_SIZE)` of `win`, cut at its end.
pub open spec fn chunk(win: Seq<u8>, k: nat) -> Seq<u8> {
    let a = k * SUBPACKET_SIZE;
    let b = (k + 1) * SUBPACKET_SIZE;
    win.subrange(
        if a < win.len() {
            a as int
        } else {
            win.len() as int
        },
        if b < win.len() {
            b as int
        } else {
            win.len() as int
        },
    )
}

/// Number of ZCRCG subpackets in a burst over a window of `len` bytes: one per
/// full subpacket, at least one, at most SUBPACKET_PER_ACK.
pub open spec fn go_count(len: nat) -> nat {
    let full = len / (SUBPACKET_SIZE as nat);
    if full >= SUBPACKET_PER_ACK {
        SUBPACKET_PER_ACK as nat
    } else if full == 0 {
        1
    } else {
        full
    }
}

pub open spec fn go_packets(win: Seq<u8>, k: nat) -> Seq<u8>
    decreases k,
{
    if k == 0 {
        Seq::empty()
    } else {
        go_packets(win, (k - 1) as nat) + subpacket_wire(
            Encoding::Bin32,
            chunk(win, (k - 1) as nat),
            ZCRCG,
        )
    }
}

/// What the sender emits from `offset` given the source bytes from there
/// (`win`, shorter than BURST_WINDOW only at the end of the source): ZEOF when
/// nothing is left, else ZDATA, ZCRCG subpackets and a closing ZCRCW one.
pub open spec fn burst_wire(offset: u32, win: Seq<u8>) -> Seq<u8> {
    if win.len() == 0 {
        count_wire(Encoding::Hex, ZEOF, offset)
    } else {
        let m = go_count(win.len());
        count_wire(Encoding::Bin32, ZDATA, offset) + go_packets(win, m) + subpacket_wire(
            Encoding::Bin32,
            chunk(win, m),
            ZCRCW,
        )
    }
}

fn chunk_exec(win: &[u8], k: usize) -> (r: &[u8])
    requires
        k <= SUBPACKET_PER_ACK,
        win@.len() <= BURST_WINDOW,
    ensures
        r@ == chunk(win@, k as nat),
{
    let a = k * SUBPACKET_SIZE;
    let b = (k + 1) * SUBPACKET_SIZE;
    let a = if a < win.len() {
        a
    } else {
        win.len()
    };
    let b = if b < win.len() {
        b
    } else {
        win.len()
    };
    vstd::slice::slice_subrange(win, a, b)
}

/// Emits the response to a ZRPOS or ZACK at `offset`, `window` holding the
/// source from there.
pub fn send_burst(out: &mut Vec<u8>, offset: u32, window: &[u8])
    requires
        window@.len() <= BURST_WINDOW,
    ensures
        final(out)@ == old(out)@ + burst_wire(offset, window@),
{
    if window.len() == 0 {
        write_zeof(out, offset);
        return;
    }
    let ghost start = out@;
    write_zdata(out, offset);
    let full = window.len() / SUBPACKET_SIZE;
    let m: usize = if full >= SUBPACKET_PER_ACK {
        SUBPACKET_PER_ACK
    } else if full == 0 {
        1
    } else {
        full
    };
    assert(m == go_count(window@.len()));
    let mut k: usize = 0;
    while k < m
        invariant
            k <= m,
            m <= SUBPACKET_PER_ACK,
            window@.len() <= BURST_WINDOW,
            out@ == start + count_wire(Encoding::Bin32, ZDATA, offset) + go_packets(
                window@,
                k as nat,
            ),
        decreases m - k,
    {
        let c = chunk_exec(window, k);
        write_zlde_data(out, Encoding::Bin32, ZCRCG, c);
        k = k + 1;
        assert(out@ =~= start + count_wire(Encoding::Bin32, ZDATA, offset) + go_packets(
            window@,
            k as nat,
        ));
    }
    let c = chunk_exec(window, m);
    write_zlde_data(out, Encoding::Bin32, ZCRCW, c);
    assert(out@ =~= start + burst_wire(offset, window@));
}

/// What the caller does after a sender step.
#[derive(Debug, PartialEq, Eq, Structural, Clone, Copy)]
pub enum SendProgress {
    /// Input up to the position was handled.
    Consumed(usize),
    /// More input is needed; bytes before the position may be dropped.
    Wait(usize),
    /// Input up to the position was handled; now read the source from the
    /// offset and call `send_burst`.
    Burst(usize, u32),
}

/// What one sender step does: the state and offset after it, the bytes sent
/// to the peer, and the step's result.
pub struct SendOutcome {
    pub state: State,
    pub offset: u32,
    pub out: Seq<u8>,
    pub result: Result<SendProgress, ProtocolError>,
}

pub open spec fn send_outcome(
    state: State,
    offset: u32,
    out: Seq<u8>,
    result: Result<SendProgress, ProtocolError>,
) -> SendOutcome {
    SendOutcome { state, offset, out, result }
}

/// The action on entering `next` after a header carrying count `fc` that ends at `n`.
pub open spec fn send_enter(
    next: State,
    offset: u32,
    fc: u32,
    name: Seq<u8>,
    size: Option<u32>,
    n: int,
) -> SendOutcome {
    let done = Ok(SendProgress::Consumed(n as usize));
    match next {
        State::SendingZRQINIT => send_outcome(next, offset, hex_plain(ZRQINIT), done),
        State::SendingZFILE => send_outcome(next, offset, zfile_wire(name, size), done),
        State::SendingData => send_outcome(next, fc, Seq::empty(), Ok(SendProgress::Burst(n as usize, fc))),
        State::SendingZFIN => send_outcome(next, offset, hex_plain(ZFIN), done),
        State::Done => send_outcome(next, offset, seq![0x4Fu8, 0x4Fu8], done),
        _ => send_outcome(next, offset, Seq::empty(), done),
    }
}

/// One sender step: find the next header, move by the transition table and
/// perform the action of the state entered; a damaged header gets ZNAK.
pub open spec fn send_step_spec(
    state: State,
    offset: u32,
    name: Seq<u8>,
    size: Option<u32>,
    w: Seq<u8>,
    pos: int,
) -> SendOutcome {
    match zpad_after(w, pos) {
        None => send_outcome(state, offset, Seq::empty(), Ok(SendProgress::Wait(w.len() as usize))),
        Some(p) => match parse_header_spec(w, p) {
            HeaderScan::Short => send_outcome(state, offset, Seq::empty(), Ok(SendProgress::Wait((p - 1) as usize))),
            HeaderScan::Error(e) => send_outcome(state, offset, Seq::empty(), Err(e)),
            HeaderScan::NoFrame(n) => send_outcome(state, offset, hex_plain(ZNAK), Ok(SendProgress::Consumed(n as usize))),
            HeaderScan::Frame(_, body, n) => send_enter(
                next_spec(state, body[0]),
                offset,
                count_of(body.skip(1)) as u32,
                name,
                size,
                n,
            ),
        },
    }
}

/// A send session: its state, the offset last asked for, and the file offered.
pub struct Sender {
    pub state: State,
    pub offset: u32,
    pub filename: Vec<u8>,
    pub filesize: Option<u32>,
}

impl Sender {
    pub fn new(filename: &str, filesize: Option<u32>) -> (r: Sender)
        ensures
            r.state == State::WaitingInit,
            r.offset == 0,
            r.filename@ == filename.spec_bytes(),
            r.filesize == filesize,
    {
        let b = filename.as_bytes();
        let mut name: Vec<u8> = Vec::new();
        let mut i: usize = 0;
        while i < b.len()
            invariant
                i <= b@.len(),
                name@ == b@.take(i as int),
            decreases b@.len() - i,
        {
            name.push(b[i]);
            assert(name@ =~= b@.take(i as int + 1));
            i = i + 1;
        }
        assert(name@ =~= b@);
        Sender { state: State::new(), offset: 0, filename: name, filesize }
    }

    /// The request that opens the session.
    pub fn start(&self, out: &mut Vec<u8>)
        ensures
            final(out)@ == old(out)@ + crate::proto::hex_plain(crate::consts::ZRQINIT),
    {
        write_zrqinit(out);
    }

    pub fn is_done(&self) -> (r: bool)
        ensures
            r == (self.state == State::Done),
    {
        self.state == State::Done
    }

    /// Handles the next header from `pos` and performs the action of the state
    /// it leads to; entering SendingData sets the offset to the frame's count
    /// and asks for a burst from there.
    pub fn step(&mut self, w: &[u8], pos: usize, out: &mut Vec<u8>) -> (r: Result<
        SendProgress,
        ProtocolError,
    >)
        requires
            pos <= w@.len(),
        ensures
            final(self).filename == old(self).filename,
            final(self).filesize == old(self).filesize,
            final(self).state == send_step_spec(old(self).state, old(self).offset, old(self).filename@, old(self).filesize, w@, pos as int).state,
            final(self).offset == send_step_spec(old(self).state, old(self).offset, old(self).filename@, old(self).filesize, w@, pos as int).offset,
            final(out)@ == old(out)@ + send_step_spec(old(self).state, old(self).offset, old(self).filename@, old(self).filesize, w@, pos as int).out,
            r == send_step_spec(old(self).state, old(self).offset, old(self).filename@, old(self).filesize, w@, pos as int).result,
            r matches Ok(SendProgress::Consumed(n)) ==> pos < n <= w@.len(),
            r matches Ok(SendProgress::Burst(n, _)) ==> pos < n <= w@.len(),
            r matches Ok(SendProgress::Wait(n)) ==> pos <= n <= w@.len(),
    {
        proof {
            assert(out@ + Seq::<u8>::empty() =~= out@);
        }
        let p = match find_zpad(w, pos) {
            None => {
                return Ok(SendProgress::Wait(w.len()));
            },
            Some(p) => p,
        };
        match parse_header(w, p) {
            Parsed::Short => Ok(SendProgress::Wait(p - 1)),
            Parsed::Error(e) => Err(e),
            Parsed::NoFrame(n) => {
                write_znak(out);
                Ok(SendProgress::Consumed(n))
            },
            Parsed::Frame(h, n) => {
                proof {
                    assert(header_body(h)[0] == h.frame_type);
                    assert(header_body(h).skip(1) =~= h.flags@);
                }
                let next = self.state.next(&h);
                self.state = next;
                match next {
                    State::SendingZRQINIT => {
                        write_zrqinit(out);
                    },
                    State::SendingZFILE => {
                        write_zfile(out, self.filename.as_slice(), self.filesize);
                    },
                    State::SendingData => {
                        self.offset = h.get_count();
                        return Ok(SendProgress::Burst(n, self.offset));
                    },
                    State::SendingZFIN => {
                        write_zfin(out);
                    },
                    State::Done => {
                        write_over_and_out(out);
                    },
                    _ => {},
                }
                Ok(SendProgress::Consumed(n))
            },
        }
    }
}

/// The payloads of chunks `0..k`, one after another.
pub open spec fn chunks_concat(win: Seq<u8>, k: nat) -> Seq<u8>
    decreases k,
{
    if k == 0 {
        Seq::empty()
    } else {
        chunks_concat(win, (k - 1) as nat) + chunk(win, (k - 1) as nat)
    }
}

/// The subpackets of a burst carry the source in order and without gaps: the
/// payloads of its first `k` subpackets are the first `k * SUBPACKET_SIZE`
/// bytes of the window (all of it, where it is shorter), so subpacket `k`
/// starts at `offset + k * SUBPACKET_SIZE` and offsets within a burst only grow.
pub proof fn lemma_burst_in_order(win: Seq<u8>, k: nat)
    ensures
        chunks_concat(win, k) == win.take(
            if k * SUBPACKET_SIZE < win.len() {
                (k * SUBPACKET_SIZE) as int
            } else {
                win.len() as int
            },
        ),
    decreases k,
{
    if k == 0 {
        assert(win.take(0) =~= Seq::<u8>::empty());
    } else {
        lemma_burst_in_order(win, (k - 1) as nat);
        let a = (k - 1) * SUBPACKET_SIZE;
        let b = k * SUBPACKET_SIZE;
        assert(b == a + SUBPACKET_SIZE);
        let ea: int = if a < win.len() {
            a as int
        } else {
            win.len() as int
        };
        let eb: int = if b < win.len() {
            b as int
        } else {
            win.len() as int
        };
        assert(win.take(ea) + win.subrange(ea, eb) =~= win.take(eb));
    }
}

/// The offsets a sender emits are the counts its receiver reports: a ZRPOS
/// (or, while sending data, a ZACK) carrying `c`, written as the receiver
/// writes it, makes the sender ask for a burst from exactly `c`. As the
/// receiver's count never decreases, neither do the offsets.
pub proof fn lemma_sender_follows_receiver(
    state: State,
    offset: u32,
    name: Seq<u8>,
    size: Option<u32>,
    t: u8,
    c: u32,
)
    requires
        (t == ZRPOS && (state == State::SendingZFILE || state == State::WaitingZPOS
            || state == State::SendingData)) || (t == ZACK && state == State::SendingData),
    ensures
        send_step_spec(state, offset, name, size, count_wire(Encoding::Hex, t, c), 0)
            == send_outcome(State::SendingData, c, Seq::empty(), Ok(SendProgress::Burst(18, c))),
{
    let body = seq![t] + count_flags(c);
    let w = count_wire(Encoding::Hex, t, c);
    lemma_count_flags(c);
    lemma_body_round_trip(Encoding::Hex, body);
    assert(w[0] == ZPAD);
    assert(zpad_after(w, 0) == Some(1int));
    assert(body[0] == t);
    assert(body.skip(1) =~= count_flags(c));
}

} // verus!
