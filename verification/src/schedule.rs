//! The replay schedule: the frames of a run cut into buckets of one
//! millisecond each, and the part of the schedule that is due at a given
//! time.

use crate::bridge::Event;
use crate::model::Frame;
use vstd::prelude::*;

verus! {

/// Whether cut positions can part `len` frames: they never step back and
/// none lies behind the last frame.
pub open spec fn cuts_fit(cuts: Seq<usize>, len: nat) -> bool {
    &&& forall|i: int, j: int| 0 <= i <= j < cuts.len() ==> cuts[i] <= cuts[j]
    &&& forall|i: int| 0 <= i < cuts.len() ==> cuts[i] <= len
}

/// Whether cut positions can part `len` frames.
pub fn check_cuts(cuts: &Vec<usize>, len: usize) -> (b: bool)
    ensures
        b == cuts_fit(cuts@, len as nat),
{
    let n: usize = cuts.len();
    let mut i: usize = 0;
    while i < n
        invariant
            i <= n,
            n == cuts@.len(),
            forall|a: int, b: int| 0 <= a <= b < i ==> cuts@[a] <= cuts@[b],
            forall|a: int| 0 <= a < i ==> cuts@[a] <= len,
        decreases n - i,
    {
        if cuts[i] > len || (i > 0 && cuts[i - 1] > cuts[i]) {
            return false;
        }
        i += 1;
    }
    true
}

/// Where bucket `i` begins: at the cut of the bucket before it.
pub open spec fn bucket_start(cuts: Seq<usize>, i: int) -> int {
    if i <= 0 {
        0
    } else {
        cuts[i - 1] as int
    }
}

/// Where bucket `i` ends: at its own cut, and the last bucket behind the
/// last frame.
pub open spec fn bucket_end(cuts: Seq<usize>, len: nat, i: int) -> int {
    if i == cuts.len() - 1 {
        len as int
    } else {
        cuts[i] as int
    }
}

/// The frames of bucket `i`.
pub open spec fn bucket(frames: Seq<Frame>, cuts: Seq<usize>, i: int) -> Seq<Frame> {
    frames.subrange(bucket_start(cuts, i), bucket_end(cuts, frames.len(), i))
}

/// The frames of the buckets from `from` up to `to`, one bucket after the
/// other.
pub open spec fn joined(buckets: Seq<Vec<Frame>>, from: int, to: int) -> Seq<Frame>
    decreases to - from,
{
    if to <= from {
        Seq::empty()
    } else {
        joined(buckets, from, to - 1) + buckets[to - 1]@
    }
}

/// The number of frames in the buckets from `from` up to `to`.
pub open spec fn joined_len(buckets: Seq<Vec<Frame>>, from: int, to: int) -> nat {
    joined(buckets, from, to).len()
}

/// Whether buckets are the parts into which the cuts divide the frames.
pub open spec fn is_distribution(
    buckets: Seq<Vec<Frame>>,
    frames: Seq<Frame>,
    cuts: Seq<usize>,
) -> bool {
    &&& buckets.len() == cuts.len()
    &&& forall|i: int| 0 <= i < buckets.len() ==> (#[trigger] buckets[i])@ == bucket(frames, cuts, i)
}

/// The buckets of a distribution hold every frame once, in the order of the
/// frames: their sizes add up to the number of frames.
pub proof fn lemma_distribution_keeps_frames(
    buckets: Seq<Vec<Frame>>,
    frames: Seq<Frame>,
    cuts: Seq<usize>,
)
    requires
        cuts_fit(cuts, frames.len()),
        cuts.len() > 0,
        is_distribution(buckets, frames, cuts),
    ensures
        joined(buckets, 0, buckets.len() as int) == frames,
        joined_len(buckets, 0, buckets.len() as int) == frames.len(),
{
    lemma_joined_prefix(buckets, frames, cuts, buckets.len() as int);
    assert(frames.subrange(0, frames.len() as int) =~= frames);
}

proof fn lemma_joined_prefix(
    buckets: Seq<Vec<Frame>>,
    frames: Seq<Frame>,
    cuts: Seq<usize>,
    n: int,
)
    requires
        cuts_fit(cuts, frames.len()),
        is_distribution(buckets, frames, cuts),
        0 <= n <= buckets.len(),
    ensures
        n < buckets.len() ==> joined(buckets, 0, n) == frames.subrange(0, bucket_start(cuts, n)),
        n == buckets.len() && n > 0 ==> joined(buckets, 0, n) == frames.subrange(
            0,
            frames.len() as int,
        ),
    decreases n,
{
    if n == 0 {
        assert(frames.subrange(0, 0) =~= Seq::<Frame>::empty());
    } else {
        lemma_joined_prefix(buckets, frames, cuts, n - 1);
        assert(buckets[n - 1]@ == bucket(frames, cuts, n - 1));
        if n - 1 > 0 {
            assert(cuts[n - 2] <= cuts[n - 1]);
        }
        let head = frames.subrange(0, bucket_start(cuts, n - 1));
        if n < buckets.len() {
            assert(head + bucket(frames, cuts, n - 1) =~= frames.subrange(
                0,
                bucket_start(cuts, n),
            ));
        } else {
            assert(head + bucket(frames, cuts, n - 1) =~= frames.subrange(
                0,
                frames.len() as int,
            ));
        }
    }
}

fn copy_range(frames: &Vec<Frame>, from: usize, to: usize) -> (out: Vec<Frame>)
    requires
        from <= to <= frames@.len(),
    ensures
        out@ == frames@.subrange(from as int, to as int),
{
    let mut out: Vec<Frame> = Vec::new();
    let mut i: usize = from;
    while i < to
        invariant
            from <= i <= to,
            to <= frames@.len(),
            out@ == frames@.subrange(from as int, i as int),
        decreases to - i,
    {
        out.push(frames[i]);
        i += 1;
        assert(out@ =~= frames@.subrange(from as int, i as int));
    }
    out
}

/// Distribute the frames over one bucket for each cut position: a bucket
/// takes the frames from the cut before it up to its own, and the last
/// bucket takes what is left behind its cut as well.
pub fn distribute(frame_seq: &Vec<Frame>, cuts: &Vec<usize>) -> (buckets: Vec<Vec<Frame>>)
    requires
        cuts_fit(cuts@, frame_seq@.len()),
        cuts@.len() > 0 || frame_seq@.len() == 0,
    ensures
        is_distribution(buckets@, frame_seq@, cuts@),
        cuts@.len() > 0 ==> joined(buckets@, 0, buckets@.len() as int) == frame_seq@,
{
    let mut buckets: Vec<Vec<Frame>> = Vec::new();
    let n: usize = cuts.len();
    let len: usize = frame_seq.len();
    let mut last_pos: usize = 0;
    let mut i: usize = 0;
    while i < n
        invariant
            i <= n,
            n == cuts@.len(),
            len == frame_seq@.len(),
            cuts_fit(cuts@, frame_seq@.len()),
            last_pos == bucket_start(cuts@, i as int),
            last_pos <= len,
            buckets@.len() == i,
            forall|j: int| 0 <= j < i ==> (#[trigger] buckets@[j])@ == bucket(frame_seq@, cuts@, j),
        decreases n - i,
    {
        let pos: usize = cuts[i];
        proof {
            if i > 0 {
                assert(cuts@[i - 1] <= cuts@[i as int]);
            }
        }
        let end: usize = if i + 1 == n {
            len
        } else {
            pos
        };
        let part = copy_range(frame_seq, last_pos, end);
        buckets.push(part);
        last_pos = pos;
        i += 1;
    }
    proof {
        if n > 0 {
            lemma_distribution_keeps_frames(buckets@, frame_seq@, cuts@);
        }
    }
    buckets
}

/// What two ticks hand out one after the other is what one tick over both
/// spans hands out: no bucket is sent twice, none is left out, and the
/// order of the buckets is kept.
pub proof fn lemma_joined_spans(buckets: Seq<Vec<Frame>>, from: int, mid: int, to: int)
    requires
        from <= mid <= to,
    ensures
        joined(buckets, from, mid) + joined(buckets, mid, to) == joined(buckets, from, to),
    decreases to - mid,
{
    if to == mid {
        assert(joined(buckets, from, mid) + joined(buckets, mid, to) =~= joined(buckets, from, to));
    } else {
        lemma_joined_spans(buckets, from, mid, to - 1);
        assert(joined(buckets, from, mid) + joined(buckets, mid, to) =~= joined(buckets, from, to));
    }
}

/// The requests for frames, one for each, in order.
pub open spec fn requests_for(frames: Seq<Frame>) -> Seq<Event> {
    frames.map_values(|f: Frame| Event::Request(f))
}

/// Where the replay stands after a tick at `cur` milliseconds: behind the
/// last bucket once the time has run out, else at the bucket of that
/// millisecond, and never before where it stood.
pub open spec fn replay_mark(len: nat, last: usize, cur: u64) -> int {
    if cur >= len {
        len as int
    } else if cur > last {
        cur as int
    } else {
        last as int
    }
}

/// The replay of a distribution: the buckets, and the first bucket that
/// has not been sent.
pub struct Replay {
    pub buckets: Vec<Vec<Frame>>,
    pub last: usize,
}

impl Replay {
    /// The mark lies within the schedule.
    pub open spec fn wf(&self) -> bool {
        self.last <= self.buckets@.len()
    }

    /// A replay that has sent nothing.
    pub fn new(buckets: Vec<Vec<Frame>>) -> (r: Self)
        ensures
            r.buckets == buckets,
            r.last == 0,
            r.wf(),
    {
        Replay { buckets, last: 0 }
    }

    /// Whether the mark lies within the schedule.
    pub fn is_sound(&self) -> (b: bool)
        ensures
            b == self.wf(),
    {
        self.last <= self.buckets.len()
    }

    /// Whether every bucket has been sent.
    pub fn is_done(&self) -> (b: bool)
        ensures
            b == (self.last >= self.buckets@.len()),
    {
        self.last >= self.buckets.len()
    }

    /// The requests that are due `cur` milliseconds after the start: the
    /// frames of every bucket from the mark up to that millisecond, bucket
    /// by bucket and in the order within each; all that is left once the
    /// time has run out. The mark moves behind what was handed out.
    pub fn tick(&mut self, cur: u64) -> (out: Vec<Event>)
        requires
            old(self).wf(),
        ensures
            final(self).wf(),
            final(self).buckets == old(self).buckets,
            final(self).last == replay_mark(old(self).buckets@.len(), old(self).last, cur),
            out@ == requests_for(
                joined(old(self).buckets@, old(self).last as int, final(self).last as int),
            ),
    {
        let n: usize = self.buckets.len();
        let to: usize = if cur >= n as u64 {
            n
        } else if cur > self.last as u64 {
            cur as usize
        } else {
            self.last
        };
        let mut out: Vec<Event> = Vec::new();
        let mut i: usize = self.last;
        while i < to
            invariant
                self.last <= i <= to <= n,
                n == self.buckets@.len(),
                out@ == requests_for(joined(self.buckets@, self.last as int, i as int)),
            decreases to - i,
        {
            let m: usize = self.buckets[i].len();
            let ghost base = out@;
            let mut j: usize = 0;
            while j < m
                invariant
                    i < n,
                    n == self.buckets@.len(),
                    j <= m,
                    m == self.buckets@[i as int]@.len(),
                    out@ == base + requests_for(self.buckets@[i as int]@.take(j as int)),
                decreases m - j,
            {
                out.push(Event::Request(self.buckets[i][j]));
                j += 1;
                assert(out@ =~= base + requests_for(self.buckets@[i as int]@.take(j as int)));
            }
            i += 1;
            proof {
                assert(self.buckets@[i - 1]@.take(m as int) =~= self.buckets@[i - 1]@);
                assert(out@ =~= requests_for(joined(self.buckets@, self.last as int, i as int)));
            }
        }
        self.last = to;
        out
    }
}

} // verus!
