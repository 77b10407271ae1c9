//! The binary form of frames: the fourteen bytes of each frame in the
//! order of its fields, frame after frame.

use crate::model::{Address, Frame, Segment};
use vstd::prelude::*;

verus! {

/// The bytes of one frame: source, entry segment, destination, payload.
pub open spec fn frame_bytes(f: Frame) -> Seq<u8> {
    f.src.data@ + f.src_seg.data@ + f.dst.data@ + f.data@
}

/// The bytes of frames, one frame after the other.
pub open spec fn frames_bytes(frames: Seq<Frame>) -> Seq<u8>
    decreases frames.len(),
{
    if frames.len() == 0 {
        Seq::empty()
    } else {
        frames_bytes(frames.drop_last()) + frame_bytes(frames.last())
    }
}

/// The bytes of frames fill fourteen places for each frame.
pub proof fn lemma_frames_bytes_len(frames: Seq<Frame>)
    ensures
        frames_bytes(frames).len() == 14 * frames.len(),
    decreases frames.len(),
{
    if frames.len() > 0 {
        lemma_frames_bytes_len(frames.drop_last());
    }
}

/// Frames with the same bytes are the same frames: the binary form can be
/// read back in one way only.
pub proof fn lemma_frames_bytes_injective(a: Seq<Frame>, b: Seq<Frame>)
    requires
        frames_bytes(a) == frames_bytes(b),
    ensures
        a == b,
    decreases a.len(),
{
    lemma_frames_bytes_len(a);
    lemma_frames_bytes_len(b);
    if a.len() > 0 {
        lemma_frames_bytes_len(a.drop_last());
        lemma_frames_bytes_len(b.drop_last());
        let n = 14 * (a.len() - 1);
        let whole = frames_bytes(a);
        assert(frames_bytes(a.drop_last()) =~= whole.subrange(0, n));
        assert(frames_bytes(b.drop_last()) =~= whole.subrange(0, n));
        assert(frame_bytes(a.last()) =~= whole.subrange(n, n + 14));
        assert(frame_bytes(b.last()) =~= whole.subrange(n, n + 14));
        lemma_frames_bytes_injective(a.drop_last(), b.drop_last());
        lemma_frame_bytes_injective(a.last(), b.last());
        assert(a =~= a.drop_last().push(a.last()));
        assert(b =~= b.drop_last().push(b.last()));
    } else {
        assert(a =~= b);
    }
}

/// Two frames with the same bytes are one frame.
pub proof fn lemma_frame_bytes_injective(f: Frame, g: Frame)
    requires
        frame_bytes(f) == frame_bytes(g),
    ensures
        f == g,
{
    let x = frame_bytes(f);
    let y = frame_bytes(g);
    assert(f.src.data@ =~= x.subrange(0, 4));
    assert(g.src.data@ =~= y.subrange(0, 4));
    assert(f.src_seg.data@ =~= x.subrange(4, 6));
    assert(g.src_seg.data@ =~= y.subrange(4, 6));
    assert(f.dst.data@ =~= x.subrange(6, 10));
    assert(g.dst.data@ =~= y.subrange(6, 10));
    assert(f.data@ =~= x.subrange(10, 14));
    assert(g.data@ =~= y.subrange(10, 14));
    assert(f.src.data == g.src.data);
    assert(f.src_seg.data == g.src_seg.data);
    assert(f.dst.data == g.dst.data);
    assert(f.data == g.data);
}

fn push_frame(out: &mut Vec<u8>, f: &Frame)
    ensures
        final(out)@ == old(out)@ + frame_bytes(*f),
{
    out.push(f.src.data[0]);
    out.push(f.src.data[1]);
    out.push(f.src.data[2]);
    out.push(f.src.data[3]);
    out.push(f.src_seg.data[0]);
    out.push(f.src_seg.data[1]);
    out.push(f.dst.data[0]);
    out.push(f.dst.data[1]);
    out.push(f.dst.data[2]);
    out.push(f.dst.data[3]);
    out.push(f.data[0]);
    out.push(f.data[1]);
    out.push(f.data[2]);
    out.push(f.data[3]);
    assert(out@ =~= old(out)@ + frame_bytes(*f));
}

fn read_frame(bytes: &Vec<u8>, at: usize) -> (f: Frame)
    requires
        at + 14 <= bytes@.len(),
    ensures
        frame_bytes(f) == bytes@.subrange(at as int, at + 14),
{
    let len: usize = bytes.len();
    let f = Frame {
        src: Address { data: [bytes[at], bytes[at + 1], bytes[at + 2], bytes[at + 3]] },
        src_seg: Segment { data: [bytes[at + 4], bytes[at + 5]] },
        dst: Address { data: [bytes[at + 6], bytes[at + 7], bytes[at + 8], bytes[at + 9]] },
        data: [bytes[at + 10], bytes[at + 11], bytes[at + 12], bytes[at + 13]],
    };
    assert(frame_bytes(f) =~= bytes@.subrange(at as int, at + 14));
    f
}

/// Write frames in their binary form.
pub fn encode_frames(frames: &Vec<Frame>) -> (out: Vec<u8>)
    ensures
        out@ == frames_bytes(frames@),
{
    let mut out: Vec<u8> = Vec::new();
    let n: usize = frames.len();
    let mut i: usize = 0;
    while i < n
        invariant
            i <= n,
            n == frames@.len(),
            out@ == frames_bytes(frames@.take(i as int)),
        decreases n - i,
    {
        push_frame(&mut out, &frames[i]);
        i += 1;
        assert(frames@.take(i as int).drop_last() =~= frames@.take(i - 1));
    }
    assert(frames@.take(n as int) =~= frames@);
    out
}

/// Read frames from their binary form. Bytes that are not a whole number
/// of frames are the form of no frames at all; all others are read.
pub fn decode_frames(bytes: &Vec<u8>) -> (out: Option<Vec<Frame>>)
    ensures
        out is Some <==> bytes@.len() % 14 == 0,
        out matches Some(frames) ==> frames_bytes(frames@) == bytes@,
{
    let len: usize = bytes.len();
    if len % 14 != 0 {
        return None;
    }
    let n: usize = len / 14;
    let mut frames: Vec<Frame> = Vec::new();
    let mut i: usize = 0;
    while i < n
        invariant
            i <= n,
            len == bytes@.len(),
            len == 14 * n,
            frames@.len() == i,
            frames_bytes(frames@) == bytes@.subrange(0, 14 * i),
        decreases n - i,
    {
        let ghost before = frames@;
        let f = read_frame(bytes, 14 * i);
        frames.push(f);
        i += 1;
        proof {
            assert(frames@.drop_last() =~= before);
            assert(frames_bytes(frames@) =~= bytes@.subrange(0, 14 * i));
        }
    }
    assert(bytes@.subrange(0, 14 * n) =~= bytes@);
    Some(frames)
}

/// Binary round trip: the binary form of frames is a whole number of
/// frames, so it is read, and the frames that are read from it are those
/// that were written.
pub proof fn lemma_binary_round_trip(frames: Seq<Frame>)
    ensures
        frames_bytes(frames).len() % 14 == 0,
        forall|read: Seq<Frame>| frames_bytes(read) == frames_bytes(frames) ==> read == frames,
{
    lemma_frames_bytes_len(frames);
    assert forall|read: Seq<Frame>| frames_bytes(read) == frames_bytes(frames) implies read
        == frames by {
        lemma_frames_bytes_injective(read, frames);
    }
}

} // verus!
