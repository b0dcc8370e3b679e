use vstd::prelude::*;

use crate::consts::{ZDLE, is_terminator};

verus! {

/// Bytes that never travel bare on the wire: ZDLE, DLE, XON, XOFF, their
/// high-bit twins, and CR with the high bit set.
pub open spec fn must_escape(b: u8) -> bool {
    b == ZDLE || b == 0x10 || b == 0x11 || b == 0x13 || b == 0x90 || b == 0x91 || b == 0x93
        || b == 0x8D
}

/// Wire form of one logical byte.
pub open spec fn escape_byte(b: u8) -> Seq<u8> {
    if must_escape(b) {
        seq![ZDLE, b ^ 0x40]
    } else {
        seq![b]
    }
}

/// Wire form of a logical byte sequence.
pub open spec fn zdle_encode_spec(s: Seq<u8>) -> Seq<u8>
    decreases s.len(),
{
    if s.len() == 0 {
        Seq::empty()
    } else {
        escape_byte(s[0]) + zdle_encode_spec(s.skip(1))
    }
}

/// A byte that may follow ZDLE to stand for `c ^ 0x40`.
pub open spec fn is_escape_code(c: u8) -> bool {
    c & 0x60 == 0x40
}

/// What the wire holds at position `i`.
pub enum Unit {
    /// A logical byte.
    Byte(u8),
    /// ZDLE followed by a subpacket terminator.
    Term(u8),
    /// ZDLE followed by a byte that is neither an escape nor a terminator.
    Bad(u8),
    /// The wire ends before the unit does.
    Short,
}

pub open spec fn unit_at(w: Seq<u8>, i: int) -> Unit {
    if i < 0 || i >= w.len() {
        Unit::Short
    } else if w[i] != ZDLE {
        Unit::Byte(w[i])
    } else if i + 1 >= w.len() {
        Unit::Short
    } else if is_terminator(w[i + 1]) {
        Unit::Term(w[i + 1])
    } else if is_escape_code(w[i + 1]) {
        Unit::Byte(w[i + 1] ^ 0x40)
    } else {
        Unit::Bad(w[i + 1])
    }
}

/// Number of wire bytes taken by the unit at `i`.
pub open spec fn unit_len(w: Seq<u8>, i: int) -> int {
    if 0 <= i < w.len() && w[i] == ZDLE {
        2
    } else {
        1
    }
}

/// Whole-buffer decoding: `None` where an escape is illegal, a terminator or cut short.
pub open spec fn zdle_decode_spec(w: Seq<u8>) -> Option<Seq<u8>>
    decreases w.len(),
{
    if w.len() == 0 {
        Some(Seq::empty())
    } else if w[0] != ZDLE {
        match zdle_decode_spec(w.skip(1)) {
            Some(r) => Some(seq![w[0]] + r),
            None => None,
        }
    } else if w.len() >= 2 && is_escape_code(w[1]) {
        match zdle_decode_spec(w.skip(2)) {
            Some(r) => Some(seq![w[1] ^ 0x40] + r),
            None => None,
        }
    } else {
        None
    }
}

/// Result of scanning escaped data on the wire.
pub enum Scan {
    /// Logical bytes, the terminator that closed them (0 for fixed-length fields)
    /// and the position after the last wire byte taken.
    Done(Seq<u8>, u8, int),
    Bad(u8),
    Short,
}

pub open spec fn scan_prepend(b: u8, s: Scan) -> Scan {
    match s {
        Scan::Done(d, t, n) => Scan::Done(seq![b] + d, t, n),
        other => other,
    }
}

/// Logical bytes from `i` up to and including the next terminator.
pub open spec fn scan_data(w: Seq<u8>, i: int) -> Scan
    decreases w.len() - i,
{
    if i < 0 || i >= w.len() {
        Scan::Short
    } else {
        match unit_at(w, i) {
            Unit::Byte(b) => scan_prepend(b, scan_data(w, i + unit_len(w, i))),
            Unit::Term(t) => Scan::Done(Seq::empty(), t, i + 2),
            Unit::Bad(c) => Scan::Bad(c),
            Unit::Short => Scan::Short,
        }
    }
}

/// Exactly `n` logical bytes from `i`; a terminator there is refused.
pub open spec fn scan_fixed(w: Seq<u8>, i: int, n: nat) -> Scan
    decreases n,
{
    if n == 0 {
        Scan::Done(Seq::empty(), 0, i)
    } else {
        match unit_at(w, i) {
            Unit::Byte(b) => scan_prepend(b, scan_fixed(w, i + unit_len(w, i), (n - 1) as nat)),
            Unit::Term(t) => Scan::Bad(t),
            Unit::Bad(c) => Scan::Bad(c),
            Unit::Short => Scan::Short,
        }
    }
}

proof fn lemma_escape_code(b: u8)
    requires
        must_escape(b),
    ensures
        is_escape_code(b ^ 0x40),
        (b ^ 0x40) ^ 0x40 == b,
        !is_terminator(b ^ 0x40),
        b ^ 0x40 != ZDLE,
{
    assert((b ^ 0x40u8) ^ 0x40u8 == b) by (bit_vector);
    if b == 0x18 {
    } else if b == 0x10 {
    } else if b == 0x11 {
    } else if b == 0x13 {
    } else if b == 0x90 {
        assert(0x90u8 ^ 0x40u8 == 0xD0u8) by (bit_vector);
    } else if b == 0x91 {
        assert(0x91u8 ^ 0x40u8 == 0xD1u8) by (bit_vector);
    } else if b == 0x93 {
        assert(0x93u8 ^ 0x40u8 == 0xD3u8) by (bit_vector);
    } else {
        assert(0x8Du8 ^ 0x40u8 == 0xCDu8) by (bit_vector);
    }
    assert(0x18u8 ^ 0x40u8 == 0x58u8) by (bit_vector);
    assert(0x10u8 ^ 0x40u8 == 0x50u8) by (bit_vector);
    assert(0x11u8 ^ 0x40u8 == 0x51u8) by (bit_vector);
    assert(0x13u8 ^ 0x40u8 == 0x53u8) by (bit_vector);
    assert(0x58u8 & 0x60u8 == 0x40u8) by (bit_vector);
    assert(0x50u8 & 0x60u8 == 0x40u8) by (bit_vector);
    assert(0x51u8 & 0x60u8 == 0x40u8) by (bit_vector);
    assert(0x53u8 & 0x60u8 == 0x40u8) by (bit_vector);
    assert(0xD0u8 & 0x60u8 == 0x40u8) by (bit_vector);
    assert(0xD1u8 & 0x60u8 == 0x40u8) by (bit_vector);
    assert(0xD3u8 & 0x60u8 == 0x40u8) by (bit_vector);
    assert(0xCDu8 & 0x60u8 == 0x40u8) by (bit_vector);
}

/// Escaping distributes over concatenation.
pub proof fn lemma_encode_append(a: Seq<u8>, b: Seq<u8>)
    ensures
        zdle_encode_spec(a + b) == zdle_encode_spec(a) + zdle_encode_spec(b),
    decreases a.len(),
{
    if a.len() == 0 {
        assert(a + b =~= b);
        assert(zdle_encode_spec(a) + zdle_encode_spec(b) =~= zdle_encode_spec(b));
    } else {
        lemma_encode_append(a.skip(1), b);
        assert((a + b).skip(1) =~= a.skip(1) + b);
        assert((a + b)[0] == a[0]);
        assert(zdle_encode_spec(a + b) =~= escape_byte(a[0]) + zdle_encode_spec(a.skip(1) + b));
    }
}

/// Unescaping the wire form of any byte sequence gives the sequence back.
pub proof fn lemma_zdle_round_trip(s: Seq<u8>)
    ensures
        zdle_decode_spec(zdle_encode_spec(s)) == Some(s),
    decreases s.len(),
{
    let w = zdle_encode_spec(s);
    if s.len() == 0 {
    } else {
        let b = s[0];
        let rest = zdle_encode_spec(s.skip(1));
        lemma_zdle_round_trip(s.skip(1));
        assert(seq![b] + s.skip(1) =~= s);
        if must_escape(b) {
            lemma_escape_code(b);
            assert(w.skip(2) =~= rest);
            assert(w[0] == ZDLE && w[1] == b ^ 0x40);
        } else {
            assert(w.skip(1) =~= rest);
            assert(w[0] == b);
        }
    }
}

/// Appends the wire form of `data` to `out`.
pub fn zdle_encode_into(out: &mut Vec<u8>, data: &[u8])
    ensures
        final(out)@ == old(out)@ + zdle_encode_spec(data@),
{
    let ghost start = out@;
    let mut i: usize = 0;
    while i < data.len()
        invariant
            i <= data@.len(),
            out@ == start + zdle_encode_spec(data@.take(i as int)),
        decreases data@.len() - i,
    {
        let b = data[i];
        proof {
            lemma_encode_append(data@.take(i as int), seq![b]);
            assert(data@.take(i as int + 1) =~= data@.take(i as int) + seq![b]);
            assert(seq![b].skip(1) =~= Seq::<u8>::empty());
            assert(zdle_encode_spec(Seq::<u8>::empty()) =~= Seq::<u8>::empty());
            assert(zdle_encode_spec(seq![b]) == escape_byte(b) + zdle_encode_spec(seq![b].skip(1)));
            assert(zdle_encode_spec(seq![b]) =~= escape_byte(b));
        }
        if b == ZDLE || b == 0x10 || b == 0x11 || b == 0x13 || b == 0x90 || b == 0x91 || b
            == 0x93 || b == 0x8D {
            out.push(ZDLE);
            out.push(b ^ 0x40);
        } else {
            out.push(b);
        }
        i = i + 1;
    }
    assert(data@.take(i as int) =~= data@);
}

/// The wire form of `data`.
pub fn zdle_encode(data: &[u8]) -> (r: Vec<u8>)
    ensures
        r@ == zdle_encode_spec(data@),
{
    let mut out: Vec<u8> = Vec::new();
    zdle_encode_into(&mut out, data);
    assert(out@ =~= zdle_encode_spec(data@));
    out
}

/// Reads the unit at `i`; returns it with its width.
pub fn read_unit(w: &[u8], i: usize) -> (r: (Unit, usize))
    ensures
        r.0 == unit_at(w@, i as int),
        r.1 == unit_len(w@, i as int),
        (r.0 is Byte || r.0 is Term) ==> i + r.1 <= w@.len(),
{
    if i >= w.len() {
        (Unit::Short, 1)
    } else if w[i] != ZDLE {
        (Unit::Byte(w[i]), 1)
    } else if i + 1 >= w.len() {
        (Unit::Short, 2)
    } else {
        let c = w[i + 1];
        if c == 0x68 || c == 0x69 || c == 0x6A || c == 0x6B {
            (Unit::Term(c), 2)
        } else if c & 0x60 == 0x40 {
            (Unit::Byte(c ^ 0x40), 2)
        } else {
            (Unit::Bad(c), 2)
        }
    }
}

pub open spec fn option_prepend(p: Seq<u8>, o: Option<Seq<u8>>) -> Option<Seq<u8>> {
    match o {
        Some(r) => Some(p + r),
        None => None,
    }
}

/// Unescapes a whole buffer; `None` where an escape is illegal, a terminator or cut short.
pub fn zdle_decode(w: &[u8]) -> (r: Option<Vec<u8>>)
    ensures
        r matches Some(v) ==> zdle_decode_spec(w@) == Some(v@),
        r is None ==> zdle_decode_spec(w@) is None,
{
    let mut out: Vec<u8> = Vec::new();
    let mut i: usize = 0;
    proof {
        assert(w@.skip(0) =~= w@);
        match zdle_decode_spec(w@) {
            Some(r) => assert(out@ + r =~= r),
            None => {},
        }
    }
    while i < w.len()
        invariant
            i <= w@.len(),
            zdle_decode_spec(w@) == option_prepend(out@, zdle_decode_spec(w@.skip(i as int))),
        decreases w@.len() - i,
    {
        let ghost t = w@.skip(i as int);
        let ghost o = out@;
        if w[i] != ZDLE {
            let b = w[i];
            proof {
                assert(t.skip(1) =~= w@.skip(i as int + 1));
                assert(t[0] == b);
                match zdle_decode_spec(t.skip(1)) {
                    Some(r) => assert(o + (seq![b] + r) =~= o.push(b) + r),
                    None => {},
                }
            }
            out.push(b);
            i = i + 1;
        } else if i + 1 < w.len() && w[i + 1] & 0x60 == 0x40 {
            let b = w[i + 1] ^ 0x40;
            proof {
                assert(t.skip(2) =~= w@.skip(i as int + 2));
                assert(t[1] == w@[i as int + 1]);
                match zdle_decode_spec(t.skip(2)) {
                    Some(r) => assert(o + (seq![b] + r) =~= o.push(b) + r),
                    None => {},
                }
            }
            out.push(b);
            i = i + 2;
        } else {
            return None;
        }
    }
    assert(w@.skip(i as int) =~= Seq::<u8>::empty());
    assert(out@ + Seq::<u8>::empty() =~= out@);
    Some(out)
}

/// Scanned data as the executable side holds it.
pub enum Scanned {
    Done(Vec<u8>, u8, usize),
    Bad(u8),
    Short,
}

pub open spec fn scanned_view(r: Scanned) -> Scan {
    match r {
        Scanned::Done(v, t, n) => Scan::Done(v@, t, n as int),
        Scanned::Bad(c) => Scan::Bad(c),
        Scanned::Short => Scan::Short,
    }
}

pub open spec fn scan_prefix(p: Seq<u8>, s: Scan) -> Scan {
    match s {
        Scan::Done(d, t, n) => Scan::Done(p + d, t, n),
        other => other,
    }
}

proof fn lemma_prefix_push(p: Seq<u8>, b: u8, s: Scan)
    ensures
        scan_prefix(p, scan_prepend(b, s)) == scan_prefix(p.push(b), s),
{
    match s {
        Scan::Done(d, t, n) => {
            assert(p + (seq![b] + d) =~= p.push(b) + d);
        },
        _ => {},
    }
}

proof fn lemma_prefix_empty(s: Scan)
    ensures
        scan_prefix(Seq::empty(), s) == s,
{
    match s {
        Scan::Done(d, t, n) => {
            assert(Seq::<u8>::empty() + d =~= d);
        },
        _ => {},
    }
}

/// Reads exactly `n` logical bytes from `i`.
pub fn scan_fixed_exec(w: &[u8], i: usize, n: usize) -> (r: Scanned)
    requires
        i <= w@.len(),
    ensures
        scanned_view(r) == scan_fixed(w@, i as int, n as nat),
        r matches Scanned::Done(v, _, m) ==> m <= w@.len(),
{
    let mut out: Vec<u8> = Vec::new();
    let mut pos: usize = i;
    let mut k: usize = 0;
    proof {
        lemma_prefix_empty(scan_fixed(w@, i as int, n as nat));
    }
    while k < n
        invariant
            k <= n,
            pos <= w@.len(),
            scan_fixed(w@, i as int, n as nat) == scan_prefix(
                out@,
                scan_fixed(w@, pos as int, (n - k) as nat),
            ),
        decreases n - k,
    {
        if pos >= w.len() {
            return Scanned::Short;
        }
        let (u, len) = read_unit(w, pos);
        match u {
            Unit::Byte(b) => {
                proof {
                    lemma_prefix_push(
                        out@,
                        b,
                        scan_fixed(w@, pos as int + len as int, (n - k - 1) as nat),
                    );
                }
                out.push(b);
                pos = pos + len;
                k = k + 1;
            },
            Unit::Term(t) => {
                return Scanned::Bad(t);
            },
            Unit::Bad(c) => {
                return Scanned::Bad(c);
            },
            Unit::Short => {
                return Scanned::Short;
            },
        }
    }
    Scanned::Done(out, 0, pos)
}

/// Reads logical bytes from `i` up to and including the next terminator.
pub fn scan_data_exec(w: &[u8], i: usize) -> (r: Scanned)
    requires
        i <= w@.len(),
    ensures
        scanned_view(r) == scan_data(w@, i as int),
        r matches Scanned::Done(v, _, m) ==> m <= w@.len(),
{
    let mut out: Vec<u8> = Vec::new();
    let mut pos: usize = i;
    proof {
        lemma_prefix_empty(scan_data(w@, i as int));
    }
    loop
        invariant
            pos <= w@.len(),
            scan_data(w@, i as int) == scan_prefix(out@, scan_data(w@, pos as int)),
        decreases w@.len() - pos,
    {
        if pos >= w.len() {
            return Scanned::Short;
        }
        if pos >= w.len() {
            return Scanned::Short;
        }
        let (u, len) = read_unit(w, pos);
        match u {
            Unit::Byte(b) => {
                proof {
                    lemma_prefix_push(out@, b, scan_data(w@, pos as int + len as int));
                }
                out.push(b);
                pos = pos + len;
            },
            Unit::Term(t) => {
                proof {
                    assert(out@ + Seq::<u8>::empty() =~= out@);
                }
                return Scanned::Done(out, t, pos + 2);
            },
            Unit::Bad(c) => {
                return Scanned::Bad(c);
            },
            Unit::Short => {
                return Scanned::Short;
            },
        }
    }
}

/// What `scan_fixed` reads has the requested length and ends past its start.
pub proof fn lemma_scan_fixed_len(w: Seq<u8>, i: int, n: nat)
    ensures
        scan_fixed(w, i, n) matches Scan::Done(d, _, m) ==> d.len() == n && m >= i + n,
    decreases n,
{
    if n > 0 {
        lemma_scan_fixed_len(w, i + unit_len(w, i), (n - 1) as nat);
    }
}

proof fn lemma_encode_first(s: Seq<u8>, w: Seq<u8>, i: int)
    requires
        s.len() > 0,
        0 <= i,
        i + zdle_encode_spec(s).len() <= w.len(),
        w.subrange(i, i + zdle_encode_spec(s).len()) == zdle_encode_spec(s),
    ensures
        unit_at(w, i) == Unit::Byte(s[0]),
        unit_len(w, i) == escape_byte(s[0]).len(),
        w.subrange(
            i + unit_len(w, i),
            i + unit_len(w, i) + zdle_encode_spec(s.skip(1)).len(),
        ) == zdle_encode_spec(s.skip(1)),
        zdle_encode_spec(s).len() == unit_len(w, i) + zdle_encode_spec(s.skip(1)).len(),
{
    let b = s[0];
    let e = escape_byte(b);
    let rest = zdle_encode_spec(s.skip(1));
    let sub = w.subrange(i, i + zdle_encode_spec(s).len());
    assert(sub[0] == w[i]);
    if must_escape(b) {
        lemma_escape_code(b);
        assert(sub[1] == w[i + 1]);
        assert(w[i] == ZDLE);
        assert(w[i + 1] == b ^ 0x40);
    } else {
        assert(w[i] == b);
    }
    assert(w.subrange(i + e.len(), i + e.len() + rest.len()) =~= sub.subrange(
        e.len() as int,
        sub.len() as int,
    ));
    assert(sub.subrange(e.len() as int, sub.len() as int) =~= rest);
}

/// Reading `s.len()` bytes from the wire form of `s` gives `s` back.
pub proof fn lemma_scan_fixed_encoded(w: Seq<u8>, i: int, s: Seq<u8>)
    requires
        0 <= i,
        i + zdle_encode_spec(s).len() <= w.len(),
        w.subrange(i, i + zdle_encode_spec(s).len()) == zdle_encode_spec(s),
    ensures
        scan_fixed(w, i, s.len()) == Scan::Done(s, 0, i + zdle_encode_spec(s).len()),
    decreases s.len(),
{
    if s.len() == 0 {
        assert(s =~= Seq::<u8>::empty());
    } else {
        lemma_encode_first(s, w, i);
        lemma_scan_fixed_encoded(w, i + unit_len(w, i), s.skip(1));
        assert(seq![s[0]] + s.skip(1) =~= s);
    }
}

/// Scanning the wire form of `p` closed by ZDLE and a terminator gives `p` and it.
pub proof fn lemma_scan_data_encoded(w: Seq<u8>, i: int, p: Seq<u8>, t: u8)
    requires
        0 <= i,
        is_terminator(t),
        i + zdle_encode_spec(p).len() + 2 <= w.len(),
        w.subrange(i, i + zdle_encode_spec(p).len()) == zdle_encode_spec(p),
        w[i + zdle_encode_spec(p).len()] == ZDLE,
        w[i + zdle_encode_spec(p).len() + 1] == t,
    ensures
        scan_data(w, i) == Scan::Done(p, t, i + zdle_encode_spec(p).len() + 2),
    decreases p.len(),
{
    if p.len() == 0 {
        assert(p =~= Seq::<u8>::empty());
    } else {
        lemma_encode_first(p, w, i);
        lemma_scan_data_encoded(w, i + unit_len(w, i), p.skip(1), t);
        assert(seq![p[0]] + p.skip(1) =~= p);
    }
}

/// A scan of data ends past its start.
pub proof fn lemma_scan_data_advances(w: Seq<u8>, i: int)
    ensures
        scan_data(w, i) matches Scan::Done(_, _, m) ==> m > i,
    decreases w.len() - i,
{
    if 0 <= i < w.len() && unit_at(w, i) is Byte {
        lemma_scan_data_advances(w, i + unit_len(w, i));
    }
}

} // verus!
