use zmodem::consts::{SUBPACKET_PER_ACK, SUBPACKET_SIZE, ZCRCG, ZCRCW, ZEOF};
use zmodem::frame::{encode_header, write_zlde_data, Encoding, Header};
use zmodem::proto::{write_zdata, write_zeof};
use zmodem::read_write::AsyncReadWrite;
use zmodem::recv::{self, Progress, Receiver};
use zmodem::send::{self, send_burst, SendProgress, Sender, BURST_WINDOW};

struct Outcome {
    sink: Vec<u8>,
    count: u32,
    receiver_counts: Vec<u32>,
    bursts: Vec<u32>,
    zrpos_seen: bool,
}

/// Runs a sender and a receiver against each other in memory. `corrupt`
/// flips one byte of the first burst at the given distance from its start.
fn transfer(data: &[u8], name: &str, size: Option<u32>, corrupt: Option<usize>) -> Outcome {
    let mut snd = Sender::new(name, size);
    let mut rcv = Receiver::new();
    let mut to_rcv: Vec<u8> = Vec::new();
    let mut to_snd: Vec<u8> = Vec::new();
    snd.start(&mut to_rcv);
    rcv.start(&mut to_snd);
    let mut sink = Vec::new();
    let mut receiver_counts = vec![rcv.count];
    let mut bursts = Vec::new();
    let mut corrupt = corrupt;
    let mut zrpos_seen = false;
    for _ in 0..100_000 {
        let mut pos = 0;
        while !rcv.is_done() {
            match rcv.step(&to_rcv, pos, &mut to_snd, &mut sink).unwrap() {
                Progress::Consumed(n) => pos = n,
                Progress::Wait(n) => {
                    pos = n;
                    break;
                }
            }
            receiver_counts.push(rcv.count);
        }
        to_rcv.drain(..pos);
        if to_snd.windows(4).any(|w| w == b"\x18B09") {
            zrpos_seen = true;
        }
        let mut pos = 0;
        while !snd.is_done() {
            match snd.step(&to_snd, pos, &mut to_rcv).unwrap() {
                SendProgress::Consumed(n) => pos = n,
                SendProgress::Wait(n) => {
                    pos = n;
                    break;
                }
                SendProgress::Burst(n, offset) => {
                    pos = n;
                    bursts.push(offset);
                    let start = (offset as usize).min(data.len());
                    let end = (start + BURST_WINDOW).min(data.len());
                    let before = to_rcv.len();
                    send_burst(&mut to_rcv, offset, &data[start..end]);
                    if let Some(k) = corrupt {
                        if end > start {
                            to_rcv[before + k] ^= 0x01;
                            corrupt = None;
                        }
                    }
                }
            }
        }
        to_snd.drain(..pos);
        if rcv.is_done() && snd.is_done() {
            return Outcome { sink, count: rcv.count, receiver_counts, bursts, zrpos_seen };
        }
    }
    panic!("session did not finish");
}

#[test]
fn empty_file() {
    let mut snd = Sender::new("empty", Some(0));
    let mut rcv = Receiver::new();
    let mut to_rcv: Vec<u8> = Vec::new();
    let mut to_snd: Vec<u8> = Vec::new();
    let mut sink = Vec::new();
    snd.start(&mut to_rcv);
    rcv.start(&mut to_snd);
    // the receiver's invitation: the sender offers the file
    assert_eq!(snd.step(&to_snd, 0, &mut to_rcv).unwrap(), SendProgress::Consumed(18));
    assert_eq!(snd.state, send::State::SendingZFILE);
    to_snd.clear();
    // ZRQINIT then ZFILE: the receiver answers ZRINIT, then ZRPOS(0)
    let mut pos = 0;
    while let Progress::Consumed(n) = rcv.step(&to_rcv, pos, &mut to_snd, &mut sink).unwrap() {
        pos = n;
    }
    assert_eq!(rcv.state, recv::State::ProcessingZFILE);
    to_rcv.clear();
    let mut pos = 0;
    let mut offset = None;
    loop {
        match snd.step(&to_snd, pos, &mut to_rcv).unwrap() {
            SendProgress::Consumed(n) => pos = n,
            SendProgress::Burst(n, o) => {
                pos = n;
                offset = Some(o);
            }
            SendProgress::Wait(_) => break,
        }
    }
    assert_eq!(snd.state, send::State::SendingData);
    assert_eq!(offset, Some(0));
    let mut burst = Vec::new();
    send_burst(&mut burst, 0, b"");
    let mut zeof = Vec::new();
    write_zeof(&mut zeof, 0);
    assert_eq!(burst, zeof);
    assert!(sink.is_empty());
    assert_eq!(rcv.count, 0);
}

#[test]
fn zero_byte_burst_is_zeof() {
    let mut out = Vec::new();
    send_burst(&mut out, 0, b"");
    assert_eq!(out, encode_header(&Header::with_count(Encoding::Hex, ZEOF, 0)));
}

#[test]
fn small_file_hello() {
    let out = transfer(b"hello", "hello.txt", Some(5), None);
    assert_eq!(out.sink, b"hello".to_vec());
    assert_eq!(out.count, 5);
}

#[test]
fn subpacket_boundary_file() {
    let data = vec![0xAAu8; 8192];
    let mut burst = Vec::new();
    send_burst(&mut burst, 0, &data);
    let mut expect = Vec::new();
    write_zdata(&mut expect, 0);
    write_zlde_data(&mut expect, Encoding::Bin32, ZCRCG, &data);
    write_zlde_data(&mut expect, Encoding::Bin32, ZCRCW, &[]);
    assert_eq!(burst, expect);
    let out = transfer(&data, "aa", Some(8192), None);
    assert_eq!(out.sink, data);
    assert_eq!(out.bursts, vec![0, 8192]);
}

#[test]
fn full_burst_then_zeof() {
    let len = SUBPACKET_SIZE * SUBPACKET_PER_ACK;
    let data: Vec<u8> = (0..len).map(|i| (i % 251) as u8).collect();
    let mut burst = Vec::new();
    send_burst(&mut burst, 0, &data);
    let mut expect = Vec::new();
    write_zdata(&mut expect, 0);
    for k in 0..SUBPACKET_PER_ACK {
        write_zlde_data(&mut expect, Encoding::Bin32, ZCRCG, &data[k * SUBPACKET_SIZE..(k + 1) * SUBPACKET_SIZE]);
    }
    write_zlde_data(&mut expect, Encoding::Bin32, ZCRCW, &[]);
    assert_eq!(burst, expect);
    let mut next = Vec::new();
    send_burst(&mut next, len as u32, &[]);
    let mut zeof = Vec::new();
    write_zeof(&mut zeof, len as u32);
    assert_eq!(next, zeof);
    let out = transfer(&data, "burst", Some(len as u32), None);
    assert_eq!(out.sink, data);
    assert_eq!(out.bursts, vec![0, len as u32]);
}

#[test]
fn eleven_mib_random() {
    let mut state: u64 = 0x5EED;
    let data: Vec<u8> = (0..11 * 1024 * 1024)
        .map(|_| {
            state = state.wrapping_mul(6364136223846793005).wrapping_add(1442695040888963407);
            (state >> 33) as u8
        })
        .collect();
    let out = transfer(&data, "random", None, None);
    assert_eq!(out.count as usize, data.len());
    assert!(out.sink == data);
    assert!(out.bursts.windows(2).all(|w| w[0] <= w[1]));
}

#[test]
fn control_bytes_recovered() {
    let data: Vec<u8> = (0..3000).map(|i| [0x18u8, 0x11, 0x13, b'x'][i % 4]).collect();
    let out = transfer(&data, "ctl", Some(3000), None);
    assert_eq!(out.sink, data);
}

#[test]
fn corruption_triggers_zrpos_and_resend() {
    let data = vec![b'A'; 20000];
    let out = transfer(&data, "c", Some(20000), Some(100));
    assert!(out.zrpos_seen);
    assert_eq!(out.sink, data);
    assert!(out.bursts.iter().filter(|&&o| o == 0).count() >= 2);
}

#[test]
fn receiver_count_never_decreases() {
    let data = vec![b'A'; 30000];
    let out = transfer(&data, "m", None, Some(200));
    assert!(out.receiver_counts.windows(2).all(|w| w[0] <= w[1]));
    assert_eq!(out.sink, data);
}

#[test]
fn state_tables() {
    let zrinit = Header::new(Encoding::Hex, 1, [0, 0, 0, 0]);
    let zrpos = Header::with_count(Encoding::Hex, 9, 0);
    let other = Header::new(Encoding::Hex, 6, [0, 0, 0, 0]);
    assert_eq!(send::State::new().next(&zrinit), send::State::SendingZFILE);
    assert_eq!(send::State::new().next(&other), send::State::SendingZRQINIT);
    assert_eq!(send::State::SendingZFILE.next(&zrinit), send::State::WaitingZPOS);
    assert_eq!(send::State::WaitingZPOS.next(&zrpos), send::State::SendingData);
    assert_eq!(send::State::SendingData.next(&zrinit), send::State::SendingZFIN);
    let zfile = Header::new(Encoding::Bin32, 4, [0, 0, 0, 0]);
    let zeof = Header::with_count(Encoding::Hex, 11, 0);
    let zfin = Header::new(Encoding::Hex, 8, [0, 0, 0, 0]);
    assert_eq!(recv::State::new().next(&zfile), recv::State::ProcessingZFILE);
    assert_eq!(recv::State::ReceivingData.next(&zeof), recv::State::CheckingData);
    assert_eq!(recv::State::CheckingData.next(&zfin), recv::State::Done);
    assert_eq!(recv::State::ProcessingZFILE.next(&zfin), recv::State::ProcessingZFILE);
}

#[test]
fn read_write_pair() {
    let rw = AsyncReadWrite::new(1u8, "w");
    assert_eq!(rw.inner_read, 1);
    assert_eq!(rw.inner_write, "w");
}
