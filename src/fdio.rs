//! Framing of the messages that children send to the parent: each message is
//! its length as eight little-endian bytes, then its UTF-8 bytes.

use vstd::prelude::*;
use vstd::string::StringSliceAdditionalSpecFns;

verus! {

/// `256` to the power `n`.
pub open spec fn pow256(n: nat) -> nat
    decreases n,
{
    if n == 0 {
        1
    } else {
        256 * pow256((n - 1) as nat)
    }
}

/// The `n` low-order bytes of `v`, least significant first.
pub open spec fn le_bytes(v: nat, n: nat) -> Seq<u8>
    decreases n,
{
    if n == 0 {
        Seq::empty()
    } else {
        seq![(v % 256) as u8] + le_bytes(v / 256, (n - 1) as nat)
    }
}

/// The number that bytes denote, least significant first.
pub open spec fn le_value(b: Seq<u8>) -> nat
    decreases b.len(),
{
    if b.len() == 0 {
        0
    } else {
        b[0] as nat + 256 * le_value(b.drop_first())
    }
}

/// The frame that carries `msg`.
pub open spec fn frame(msg: Seq<u8>) -> Seq<u8> {
    le_bytes(msg.len(), 8) + msg
}

/// Whether `b` starts with a whole frame.
pub open spec fn frame_complete(b: Seq<u8>) -> bool {
    b.len() >= 8 && b.len() - 8 >= le_value(b.subrange(0, 8))
}

/// Where the frame at the start of `b` ends.
pub open spec fn frame_end(b: Seq<u8>) -> int {
    8 + le_value(b.subrange(0, 8)) as int
}

/// The messages of the whole frames at the start of `b`, in order.
pub open spec fn decode_frames(b: Seq<u8>) -> Seq<Seq<u8>>
    decreases b.len(),
{
    if frame_complete(b) {
        seq![b.subrange(8, frame_end(b))] + decode_frames(b.subrange(frame_end(b), b.len() as int))
    } else {
        Seq::empty()
    }
}

/// What is left of `b` after its whole frames: the start of an incomplete one.
pub open spec fn leftover(b: Seq<u8>) -> Seq<u8>
    decreases b.len(),
{
    if frame_complete(b) {
        leftover(b.subrange(frame_end(b), b.len() as int))
    } else {
        b
    }
}

/// The bytes of a sequence of messages, each in its frame.
pub open spec fn frames(msgs: Seq<Seq<u8>>) -> Seq<u8>
    decreases msgs.len(),
{
    if msgs.len() == 0 {
        Seq::empty()
    } else {
        frame(msgs[0]) + frames(msgs.drop_first())
    }
}

pub proof fn lemma_le_bytes_len(v: nat, n: nat)
    ensures
        le_bytes(v, n).len() == n,
    decreases n,
{
    if n > 0 {
        lemma_le_bytes_len(v / 256, (n - 1) as nat);
    }
}

pub proof fn lemma_le_round_trip(v: nat, n: nat)
    requires
        v < pow256(n),
    ensures
        le_value(le_bytes(v, n)) == v,
    decreases n,
{
    if n > 0 {
        let p = pow256((n - 1) as nat);
        assert(v / 256 < p) by (nonlinear_arith)
            requires
                v < 256 * p,
        ;
        lemma_le_round_trip(v / 256, (n - 1) as nat);
        assert(le_bytes(v, n).drop_first() =~= le_bytes(v / 256, (n - 1) as nat));
    }
}

pub proof fn lemma_le_value_bound(b: Seq<u8>)
    ensures
        le_value(b) < pow256(b.len()),
    decreases b.len(),
{
    if b.len() > 0 {
        lemma_le_value_bound(b.drop_first());
        let p = pow256(b.drop_first().len());
        let r = le_value(b.drop_first());
        assert(b[0] as nat + 256 * r < 256 * p) by (nonlinear_arith)
            requires
                r < p,
                b[0] < 256,
        ;
    }
}

pub proof fn lemma_pow256_8()
    ensures
        pow256(8) == 0x1_0000_0000_0000_0000,
{
    reveal_with_fuel(pow256, 9);
}

/// A frame made of a short enough message starts with that whole frame.
pub proof fn lemma_frame_then(msg: Seq<u8>, rest: Seq<u8>)
    requires
        msg.len() < pow256(8),
    ensures
        frame_complete(frame(msg) + rest),
        frame_end(frame(msg) + rest) == 8 + msg.len() as int,
        (frame(msg) + rest).subrange(8, 8 + msg.len() as int) == msg,
        (frame(msg) + rest).subrange(8 + msg.len() as int, (frame(msg) + rest).len() as int) == rest,
{
    let b = frame(msg) + rest;
    lemma_le_bytes_len(msg.len(), 8);
    assert(b.subrange(0, 8) =~= le_bytes(msg.len(), 8));
    lemma_le_round_trip(msg.len(), 8);
    assert(b.subrange(8, 8 + msg.len() as int) =~= msg);
    assert(b.subrange(8 + msg.len() as int, b.len() as int) =~= rest);
}

/// Frames decode to the messages they carry, with nothing left over.
pub proof fn lemma_frames_round_trip(msgs: Seq<Seq<u8>>)
    requires
        forall|i: int| 0 <= i < msgs.len() ==> (#[trigger] msgs[i]).len() < pow256(8),
    ensures
        decode_frames(frames(msgs)) == msgs,
        leftover(frames(msgs)) == Seq::<u8>::empty(),
    decreases msgs.len(),
{
    if msgs.len() == 0 {
        assert(!frame_complete(Seq::<u8>::empty()));
    } else {
        let tail = msgs.drop_first();
        assert forall|i: int| 0 <= i < tail.len() implies (#[trigger] tail[i]).len() < pow256(8) by {
            assert(tail[i] == msgs[i + 1]);
        }
        lemma_frames_round_trip(tail);
        lemma_frame_then(msgs[0], frames(tail));
        assert(msgs =~= seq![msgs[0]] + tail);
    }
}

/// Decoding a stream in two parts: the frames of the first part, then those
/// of its leftover followed by the second part.
pub proof fn lemma_decode_append(a: Seq<u8>, c: Seq<u8>)
    ensures
        decode_frames(a + c) == decode_frames(a) + decode_frames(leftover(a) + c),
        leftover(a + c) == leftover(leftover(a) + c),
    decreases a.len(),
{
    if frame_complete(a) {
        let e = frame_end(a);
        let ac = a + c;
        assert(ac.subrange(0, 8) =~= a.subrange(0, 8));
        assert(frame_complete(ac));
        assert(ac.subrange(8, e) =~= a.subrange(8, e));
        let a2 = a.subrange(e, a.len() as int);
        assert(ac.subrange(e, ac.len() as int) =~= a2 + c);
        lemma_decode_append(a2, c);
        assert(decode_frames(a) == seq![a.subrange(8, e)] + decode_frames(a2));
        assert(decode_frames(ac) == seq![a.subrange(8, e)] + decode_frames(a2 + c));
        assert(decode_frames(ac) =~= decode_frames(a) + decode_frames(leftover(a) + c));
    } else {
        assert(decode_frames(a) =~= Seq::<Seq<u8>>::empty());
        assert(decode_frames(a + c) =~= decode_frames(a) + decode_frames(leftover(a) + c));
    }
}

/// Appends `val` as eight little-endian bytes.
pub fn write_usize(out: &mut Vec<u8>, val: usize)
    ensures
        final(out)@ == old(out)@ + le_bytes(val as nat, 8),
{
    let mut x: u64 = val as u64;
    let mut i: usize = 0;
    assert(old(out)@ + le_bytes(val as nat, 8) =~= out@ + le_bytes(x as nat, 8));
    while i < 8
        invariant
            i <= 8,
            out@ + le_bytes(x as nat, (8 - i) as nat) == old(out)@ + le_bytes(val as nat, 8),
        decreases 8 - i,
    {
        let ghost before = out@;
        out.push((x % 256) as u8);
        proof {
            let n = (8 - i) as nat;
            assert(le_bytes(x as nat, n) == seq![(x as nat % 256) as u8] + le_bytes(
                x as nat / 256,
                (n - 1) as nat,
            ));
            assert(out@ + le_bytes(x as nat / 256, (n - 1) as nat) =~= before + le_bytes(
                x as nat,
                n,
            ));
        }
        x = x / 256;
        i = i + 1;
    }
    assert(le_bytes(x as nat, 0) =~= Seq::<u8>::empty());
    assert(out@ =~= out@ + le_bytes(x as nat, 0));
}

/// Appends the frame that carries `s`: its length, then its UTF-8 bytes.
pub fn write_str(out: &mut Vec<u8>, s: &str)
    ensures
        final(out)@ == old(out)@ + frame(s.spec_bytes()),
{
    let bytes = s.as_bytes();
    write_usize(out, bytes.len());
    let ghost mid = out@;
    let mut i: usize = 0;
    while i < bytes.len()
        invariant
            i <= bytes@.len(),
            out@ == mid + bytes@.subrange(0, i as int),
        decreases bytes@.len() - i,
    {
        out.push(bytes[i]);
        assert(bytes@.subrange(0, i + 1) =~= bytes@.subrange(0, i as int).push(bytes@[i as int]));
        i = i + 1;
    }
    assert(bytes@.subrange(0, bytes@.len() as int) =~= bytes@);
    assert(out@ =~= old(out)@ + frame(s.spec_bytes()));
}

/// The number in the eight little-endian bytes at `pos`.
pub fn read_usize(data: &[u8], pos: usize) -> (r: u64)
    requires
        pos + 8 <= data@.len(),
    ensures
        r == le_value(data@.subrange(pos as int, pos + 8)),
{
    let ghost b = data@.subrange(pos as int, pos + 8);
    let len = data.len();
    let mut acc: u64 = 0;
    let mut i: usize = 8;
    proof {
        lemma_pow256_8();
    }
    assert(b.subrange(8, 8) =~= Seq::<u8>::empty());
    while i > 0
        invariant
            i <= 8,
            pos + 8 <= data@.len(),
            len == data@.len(),
            b == data@.subrange(pos as int, pos + 8),
            acc == le_value(b.subrange(i as int, 8)),
            pow256(8) == 0x1_0000_0000_0000_0000,
        decreases i,
    {
        let ghost tail = b.subrange(i as int, 8);
        let ghost next = b.subrange(i - 1, 8);
        assert(next.drop_first() =~= tail);
        assert(next[0] == data@[pos + i - 1]);
        proof {
            lemma_le_value_bound(next);
            lemma_pow_mono((8 - i + 1) as nat, 8);
        }
        acc = acc * 256 + data[pos + i - 1] as u64;
        i = i - 1;
    }
    assert(b.subrange(0, 8) =~= b);
    acc
}

proof fn lemma_pow_mono(a: nat, b: nat)
    requires
        a <= b,
    ensures
        pow256(a) <= pow256(b),
    decreases b - a,
{
    if a < b {
        lemma_pow_mono(a, (b - 1) as nat);
    }
}

} // verus!
