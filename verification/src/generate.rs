//! Making test data: random addresses, segments and payloads, and the
//! assignment of addresses to segments.

use crate::model::{Address, FrameData, Segment};
use vstd::prelude::*;

verus! {

/// `fastrand::u8` with the full range: any byte may come back.
#[verifier::external_body]
fn random_byte() -> (b: u8) {
    fastrand::u8(..)
}

/// `fastrand::usize` with the range from zero up to `n`, `n` left out: the
/// number that comes back lies in that range. On an empty range the
/// function panics, so `n` is not zero.
#[verifier::external_body]
fn random_index(n: usize) -> (i: usize)
    requires
        n > 0,
    ensures
        i < n,
{
    fastrand::usize(0..n)
}

/// Generate a physical address.
pub fn gen_addr() -> (a: Address) {
    Address { data: [random_byte(), random_byte(), random_byte(), random_byte()] }
}

/// Generate a segment.
pub fn gen_seg() -> (s: Segment) {
    Segment { data: [random_byte(), random_byte()] }
}

/// Generate frame data.
pub fn gen_data() -> (d: FrameData) {
    [random_byte(), random_byte(), random_byte(), random_byte()]
}

/// Draw one address of a pool.
pub fn pick_addr(pool: &Vec<Address>) -> (a: Address)
    requires
        pool@.len() > 0,
    ensures
        pool@.contains(a),
{
    pool[random_index(pool.len())]
}

/// Draw one segment of a pool.
pub fn pick_seg(pool: &Vec<Segment>) -> (s: Segment)
    requires
        pool@.len() > 0,
    ensures
        pool@.contains(s),
{
    pool[random_index(pool.len())]
}

/// The number of addresses that every segment gets in turn.
pub open spec fn share(addrs: nat, segs: nat) -> nat
    recommends
        segs > 0,
{
    addrs / segs
}

/// Whether pairs assign the addresses of a pool to the segments of a pool:
/// each address once and in the order of the pool; the first segment gets
/// the first share of addresses, the second the next, and so on; what is
/// left over when the shares are dealt goes to segments of the pool, any of
/// them.
pub open spec fn is_assignment(
    pairs: Seq<(Address, Segment)>,
    addr_pool: Seq<Address>,
    seg_pool: Seq<Segment>,
) -> bool {
    let least = share(addr_pool.len(), seg_pool.len());
    &&& pairs.len() == addr_pool.len()
    &&& forall|k: int| 0 <= k < pairs.len() ==> (#[trigger] pairs[k]).0 == addr_pool[k]
    &&& forall|k: int|
        0 <= k < least * seg_pool.len() ==> (#[trigger] pairs[k]).1 == seg_pool[k / (least as int)]
    &&& forall|k: int|
        least * seg_pool.len() <= k < pairs.len() ==> seg_pool.contains((#[trigger] pairs[k]).1)
}

/// Generate a mapping from address to segment from their pools.
pub fn gen_addr_seg(addr_pool: &Vec<Address>, seg_pool: &Vec<Segment>) -> (seq: Vec<
    (Address, Segment),
>)
    requires
        seg_pool@.len() > 0,
    ensures
        is_assignment(seq@, addr_pool@, seg_pool@),
{
    let mut seq: Vec<(Address, Segment)> = Vec::new();
    let segs: usize = seg_pool.len();
    let total: usize = addr_pool.len();
    let least: usize = total / segs;
    assert(least * segs <= total) by (nonlinear_arith)
        requires
            least == total / segs,
            segs > 0,
    ;
    let mut i: usize = 0;
    while i < segs
        invariant
            i <= segs,
            segs == seg_pool@.len(),
            total == addr_pool@.len(),
            least == total / segs,
            least * segs <= total,
            seq@.len() == i * least,
            forall|k: int| 0 <= k < seq@.len() ==> (#[trigger] seq@[k]).0 == addr_pool@[k],
            forall|k: int|
                0 <= k < seq@.len() ==> (#[trigger] seq@[k]).1 == seg_pool@[k / (least as int)],
        decreases segs - i,
    {
        let seg: Segment = seg_pool[i];
        let mut j: usize = 0;
        while j < least
            invariant
                i < segs,
                j <= least,
                segs == seg_pool@.len(),
                total == addr_pool@.len(),
                least * segs <= total,
                seg == seg_pool@[i as int],
                seq@.len() == i * least + j,
                forall|k: int| 0 <= k < seq@.len() ==> (#[trigger] seq@[k]).0 == addr_pool@[k],
                forall|k: int|
                    0 <= k < seq@.len() ==> (#[trigger] seq@[k]).1 == seg_pool@[k / (
                    least as int)],
            decreases least - j,
        {
            assert(i * least + j < least * segs && (i * least + j) / (least as int) == i)
                by (nonlinear_arith)
                requires
                    i < segs,
                    j < least,
            ;
            let ghost at = seq@.len() as int;
            seq.push((addr_pool[seq.len()], seg));
            j += 1;
            assert(seq@[at].1 == seg_pool@[at / (least as int)]);
        }
        i += 1;
        assert(i * least == (i - 1) * least + least) by (nonlinear_arith);
    }
    let ghost dealt = seq@;
    let mut k: usize = seq.len();
    while k < total
        invariant
            segs * least <= k <= total,
            segs == seg_pool@.len(),
            segs > 0,
            total == addr_pool@.len(),
            seq@.len() == k,
            dealt.len() == segs * least,
            forall|m: int| 0 <= m < dealt.len() ==> seq@[m] == dealt[m],
            forall|m: int| 0 <= m < seq@.len() ==> (#[trigger] seq@[m]).0 == addr_pool@[m],
            forall|m: int| segs * least <= m < seq@.len() ==> seg_pool@.contains(
                (#[trigger] seq@[m]).1,
            ),
        decreases total - k,
    {
        let s: Segment = seg_pool[random_index(segs)];
        seq.push((addr_pool[k], s));
        k += 1;
    }
    proof {
        assert(least * segs == segs * least) by (nonlinear_arith);
        assert forall|m: int| 0 <= m < least * segs implies (#[trigger] seq@[m]).1 == seg_pool@[m
            / (least as int)] by {
            assert(seq@[m] == dealt[m]);
        }
    }
    seq
}

} // verus!
