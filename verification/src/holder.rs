//! The holder: frames that wait, filed by destination, while a probe for
//! that destination is in flight.

use crate::model::{Address, Frame};
use std::collections::BTreeMap;
use vstd::prelude::*;

verus! {

broadcast use vstd::laws_cmp::group_laws_cmp;

/// What waits for a destination, oldest first; nothing where the
/// destination has no entry.
pub open spec fn waiting(held: Map<u32, Seq<Frame>>, k: u32) -> Seq<Frame> {
    if held.contains_key(k) {
        held[k]
    } else {
        Seq::empty()
    }
}

/// The holder's contents after one more frame has joined the queue of its
/// destination.
pub open spec fn held_after_hold(held: Map<u32, Seq<Frame>>, frame: Frame) -> Map<
    u32,
    Seq<Frame>,
> {
    held.insert(frame.dst.spec_key(), waiting(held, frame.dst.spec_key()).push(frame))
}

/// Every entry holds at least one frame, and every frame is filed under the
/// key of its own destination.
pub open spec fn held_is_sound(held: Map<u32, Seq<Frame>>) -> bool {
    &&& held.dom().finite()
    &&& forall|k: u32| #[trigger] held.contains_key(k) ==> held[k].len() > 0
    &&& forall|k: u32, i: int|
        held.contains_key(k) && 0 <= i < held[k].len() ==> (#[trigger] held[k][i]).dst.spec_key()
            == k
}

/// Waiting list of frames, keyed by destination address.
pub struct Holder {
    map: BTreeMap<u32, Vec<Frame>>,
}

impl View for Holder {
    type V = Map<u32, Seq<Frame>>;

    /// For each destination key with an entry, its frames in the order in
    /// which they were held.
    closed spec fn view(&self) -> Map<u32, Seq<Frame>> {
        Map::new(|k: u32| self.map@.contains_key(k), |k: u32| self.map@[k]@)
    }
}

impl Holder {
    /// The invariant of the holder: an entry exists exactly where a frame
    /// waits.
    pub open spec fn wf(&self) -> bool {
        held_is_sound(self@)
    }

    /// An empty holder.
    pub fn new() -> (h: Self)
        ensures
            h@ == Map::<u32, Seq<Frame>>::empty(),
            h.wf(),
    {
        let h = Holder { map: BTreeMap::new() };
        assert(h@ =~= Map::<u32, Seq<Frame>>::empty());
        h
    }

    /// Check if there exist frames of a specific address.
    pub fn exist_addr(&self, addr: &Address) -> (b: bool)
        ensures
            b == self@.contains_key(addr.spec_key()),
    {
        let k: u32 = addr.key();
        self.map.contains_key(&k)
    }

    /// Hold a frame: it joins the end of the queue of its destination.
    pub fn hold(&mut self, frame: Frame)
        requires
            old(self).wf(),
        ensures
            final(self)@ == held_after_hold(old(self)@, frame),
            final(self).wf(),
    {
        let k: u32 = frame.dst.key();
        let mut frames: Vec<Frame> = match self.map.remove(&k) {
            Some(v) => v,
            None => Vec::new(),
        };
        frames.push(frame);
        self.map.insert(k, frames);
        assert(self@ =~= held_after_hold(old(self)@, frame));
    }

    /// Release frames of the same address, oldest first. The entry is gone
    /// afterwards; where there was none, nothing is released.
    pub fn release(&mut self, addr: Address) -> (out: Vec<Frame>)
        requires
            old(self).wf(),
        ensures
            out@ == waiting(old(self)@, addr.spec_key()),
            final(self)@ == old(self)@.remove(addr.spec_key()),
            final(self).wf(),
    {
        let k: u32 = addr.key();
        let out: Vec<Frame> = match self.map.remove(&k) {
            Some(v) => v,
            None => Vec::new(),
        };
        assert(self@ =~= old(self)@.remove(k));
        out
    }

    /// The number of destinations that have frames waiting.
    pub fn len(&self) -> (n: usize)
        ensures
            n == self@.len(),
    {
        assert(self@.dom() =~= self.map@.dom());
        self.map.len()
    }
}

} // verus!
