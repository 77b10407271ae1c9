//! The bridge: a learning table from addresses to segments and a holder of
//! frames whose destination is being probed, advanced one event at a time.

use crate::holder::{held_after_hold, held_is_sound, waiting, Holder};
use crate::model::{Address, Frame, Segment};
use crate::stat::{BridgePendingStat, BridgeStat, BridgeStatRecord};
use std::collections::BTreeMap;
use vstd::prelude::*;

verus! {

broadcast use vstd::laws_cmp::group_laws_cmp;

/// Event that bridge receives.
#[derive(Debug, Copy, Clone, PartialEq, Eq)]
pub enum Event {
    /// Incoming request of routing a frame.
    Request(Frame),
    /// Found segment that accept an address.
    Success(Address, Segment),
    /// No segment accepts an address.
    Failure(Address),
    /// Simulation finishing and the bridge should be exiting.
    Shutdown,
}

/// Command that bridge emits.
#[derive(Debug, Copy, Clone, PartialEq, Eq)]
pub enum Command {
    /// Broadcast an address to segments
    Broadcast(Address),
    /// Dispatch a frame to a segment
    Dispatch(Frame, Segment),
    /// Discard a frame
    Discard(Frame),
}

/// What the bridge knows between two events: the learning table and the
/// holder, both by the keys of addresses.
pub struct BridgeState {
    pub mapping: Map<u32, Segment>,
    pub pending: Map<u32, Seq<Frame>>,
}

/// The state of a bridge that has seen nothing.
pub open spec fn initial_state() -> BridgeState {
    BridgeState { mapping: Map::empty(), pending: Map::empty() }
}

/// The learning table after the source of a frame was observed: a source
/// that the table does not know is filed with the segment on which the
/// frame came in; a known one keeps its entry.
pub open spec fn learn_source(mapping: Map<u32, Segment>, frame: Frame) -> Map<u32, Segment> {
    if mapping.contains_key(frame.src.spec_key()) {
        mapping
    } else {
        mapping.insert(frame.src.spec_key(), frame.src_seg)
    }
}

/// The state after one event.
pub open spec fn next_state(st: BridgeState, ev: Event) -> BridgeState {
    match ev {
        Event::Request(frame) => {
            let mapping = learn_source(st.mapping, frame);
            if mapping.contains_key(frame.dst.spec_key()) {
                BridgeState { mapping, pending: st.pending }
            } else {
                BridgeState { mapping, pending: held_after_hold(st.pending, frame) }
            }
        },
        Event::Success(addr, seg) => BridgeState {
            mapping: st.mapping.insert(addr.spec_key(), seg),
            pending: st.pending.remove(addr.spec_key()),
        },
        Event::Failure(addr) => BridgeState {
            mapping: st.mapping,
            pending: st.pending.remove(addr.spec_key()),
        },
        Event::Shutdown => st,
    }
}

/// The commands that one event makes the bridge emit, in order.
pub open spec fn emitted(st: BridgeState, ev: Event) -> Seq<Command> {
    match ev {
        Event::Request(frame) => {
            let mapping = learn_source(st.mapping, frame);
            if mapping.contains_key(frame.dst.spec_key()) {
                seq![Command::Dispatch(frame, mapping[frame.dst.spec_key()])]
            } else if !st.pending.contains_key(frame.dst.spec_key()) {
                seq![Command::Broadcast(frame.dst)]
            } else {
                Seq::empty()
            }
        },
        Event::Success(addr, seg) => waiting(st.pending, addr.spec_key()).map_values(
            |f: Frame| Command::Dispatch(f, seg),
        ),
        Event::Failure(addr) => waiting(st.pending, addr.spec_key()).map_values(
            |f: Frame| Command::Discard(f),
        ),
        Event::Shutdown => Seq::empty(),
    }
}

/// The transitions that one event adds to the statistics, in order.
pub open spec fn recorded(st: BridgeState, ev: Event) -> Seq<BridgeStatRecord> {
    match ev {
        Event::Request(frame) => {
            if learn_source(st.mapping, frame).contains_key(frame.dst.spec_key()) {
                seq![BridgeStatRecord::Dispatch(frame)]
            } else {
                seq![BridgeStatRecord::Broadcast(frame)]
            }
        },
        Event::Success(addr, seg) => waiting(st.pending, addr.spec_key()).map_values(
            |f: Frame| BridgeStatRecord::Dispatch(f),
        ),
        Event::Failure(addr) => waiting(st.pending, addr.spec_key()).map_values(
            |f: Frame| BridgeStatRecord::Discard(f),
        ),
        Event::Shutdown => Seq::empty(),
    }
}

/// The samples of the holder's depth that one event adds: the depth before
/// a frame is held, the depth after a release, none for a frame that is
/// dispatched at once.
pub open spec fn sampled(st: BridgeState, ev: Event) -> Seq<usize> {
    match ev {
        Event::Request(frame) => {
            if learn_source(st.mapping, frame).contains_key(frame.dst.spec_key()) {
                Seq::empty()
            } else {
                seq![st.pending.len() as usize]
            }
        },
        Event::Success(addr, seg) => seq![st.pending.remove(addr.spec_key()).len() as usize],
        Event::Failure(addr) => seq![st.pending.remove(addr.spec_key()).len() as usize],
        Event::Shutdown => Seq::empty(),
    }
}

/// The state after a run.
pub open spec fn run(st: BridgeState, events: Seq<Event>) -> BridgeState
    decreases events.len(),
{
    if events.len() == 0 {
        st
    } else {
        next_state(run(st, events.drop_last()), events.last())
    }
}

/// The commands that a run emits, in order.
pub open spec fn run_emitted(st: BridgeState, events: Seq<Event>) -> Seq<Command>
    decreases events.len(),
{
    if events.len() == 0 {
        Seq::empty()
    } else {
        run_emitted(st, events.drop_last()) + emitted(
            run(st, events.drop_last()),
            events.last(),
        )
    }
}

/// The transitions that a run adds to the statistics, in order.
pub open spec fn run_recorded(st: BridgeState, events: Seq<Event>) -> Seq<BridgeStatRecord>
    decreases events.len(),
{
    if events.len() == 0 {
        Seq::empty()
    } else {
        run_recorded(st, events.drop_last()) + recorded(
            run(st, events.drop_last()),
            events.last(),
        )
    }
}

/// The samples of the holder's depth that a run adds, in order.
pub open spec fn run_sampled(st: BridgeState, events: Seq<Event>) -> Seq<usize>
    decreases events.len(),
{
    if events.len() == 0 {
        Seq::empty()
    } else {
        run_sampled(st, events.drop_last()) + sampled(run(st, events.drop_last()), events.last())
    }
}

/// The number of events before the first shutdown: the events that a
/// bridge lives to take.
pub open spec fn live_len(events: Seq<Event>) -> nat
    decreases events.len(),
{
    if events.len() == 0 || events[0] is Shutdown {
        0
    } else {
        1 + live_len(events.skip(1))
    }
}

proof fn lemma_live_len(events: Seq<Event>, i: int)
    requires
        0 <= i <= events.len(),
        forall|j: int| 0 <= j < i ==> !(#[trigger] events[j] is Shutdown),
        i < events.len() ==> events[i] is Shutdown,
    ensures
        live_len(events) == i,
    decreases i,
{
    if i > 0 {
        let rest = events.skip(1);
        assert(!(events[0] is Shutdown));
        assert forall|j: int| 0 <= j < i - 1 implies !(#[trigger] rest[j] is Shutdown) by {
            assert(rest[j] == events[j + 1]);
        }
        if i - 1 < rest.len() {
            assert(rest[i - 1] == events[i]);
        }
        lemma_live_len(rest, i - 1);
    }
}

/// A network bridge between two events.
pub struct Bridge {
    mapping: BTreeMap<u32, Segment>,
    pending: Holder,
    stat: BridgeStat,
    pending_stat: BridgePendingStat,
}

impl View for Bridge {
    type V = BridgeState;

    closed spec fn view(&self) -> BridgeState {
        BridgeState { mapping: self.mapping@, pending: self.pending@ }
    }
}

impl Bridge {
    /// The transitions recorded so far.
    pub closed spec fn spec_stat(&self) -> BridgeStat {
        self.stat
    }

    /// The samples of the holder's depth taken so far.
    pub closed spec fn spec_pending_stat(&self) -> BridgePendingStat {
        self.pending_stat
    }

    /// The holder and both statistics are sound.
    pub open spec fn wf(&self) -> bool {
        &&& held_is_sound(self@.pending)
        &&& self@.mapping.dom().finite()
        &&& self.spec_stat().wf()
        &&& self.spec_pending_stat().wf()
    }

    /// A bridge that has seen nothing; the clocks of its statistics start.
    pub fn new() -> (b: Self)
        ensures
            b@ == initial_state(),
            b.spec_stat().records@.len() == 0,
            b.spec_pending_stat().records@.len() == 0,
            b.wf(),
    {
        let b = Bridge {
            mapping: BTreeMap::new(),
            pending: Holder::new(),
            stat: BridgeStat::new(),
            pending_stat: BridgePendingStat::new(),
        };
        b
    }

    /// The transitions recorded so far.
    pub fn stat(&self) -> (s: &BridgeStat)
        ensures
            *s == self.spec_stat(),
    {
        &self.stat
    }

    /// The samples of the holder's depth taken so far.
    pub fn pending_stat(&self) -> (s: &BridgePendingStat)
        ensures
            *s == self.spec_pending_stat(),
    {
        &self.pending_stat
    }

    /// The segment that the learning table has for an address, if any.
    pub fn lookup(&self, addr: &Address) -> (seg: Option<Segment>)
        ensures
            seg == (if self@.mapping.contains_key(addr.spec_key()) {
                Some(self@.mapping[addr.spec_key()])
            } else {
                None
            }),
    {
        let k: u32 = addr.key();
        match self.mapping.get(&k) {
            Some(s) => Some(*s),
            None => None,
        }
    }

    /// The number of addresses in the learning table.
    pub fn known(&self) -> (n: usize)
        ensures
            n == self@.mapping.len(),
    {
        self.mapping.len()
    }

    /// Whether frames wait for an address.
    pub fn is_pending(&self, addr: &Address) -> (b: bool)
        ensures
            b == self@.pending.contains_key(addr.spec_key()),
    {
        self.pending.exist_addr(addr)
    }

    /// The number of destinations that frames wait for.
    pub fn pending_len(&self) -> (n: usize)
        ensures
            n == self@.pending.len(),
    {
        self.pending.len()
    }

    /// Take one event: learn, hold or release as the event asks, record
    /// each transition and each sample, and hand back the commands to send,
    /// in order. `Shutdown` changes nothing and emits nothing.
    pub fn step(&mut self, event: Event) -> (out: Vec<Command>)
        requires
            old(self).wf(),
        ensures
            final(self).wf(),
            final(self)@ == next_state(old(self)@, event),
            out@ == emitted(old(self)@, event),
            final(self).spec_stat().records@ == old(self).spec_stat().records@ + recorded(
                old(self)@,
                event,
            ),
            final(self).spec_pending_stat().records@ == old(self).spec_pending_stat().records@
                + sampled(old(self)@, event),
            old(self).spec_stat().times@.is_prefix_of(final(self).spec_stat().times@),
            old(self).spec_pending_stat().times@.is_prefix_of(
                final(self).spec_pending_stat().times@,
            ),
            final(self).spec_stat().init == old(self).spec_stat().init,
            final(self).spec_pending_stat().init == old(self).spec_pending_stat().init,
    {
        let mut out: Vec<Command> = Vec::new();
        match event {
            Event::Request(frame) => {
                let src: u32 = frame.src.key();
                let dst: u32 = frame.dst.key();
                if !self.mapping.contains_key(&src) {
                    self.mapping.insert(src, frame.src_seg);
                }
                assert(self.mapping@ == learn_source(old(self)@.mapping, frame));
                let known: Option<Segment> = match self.mapping.get(&dst) {
                    Some(s) => Some(*s),
                    None => None,
                };
                match known {
                    Some(segment) => {
                        self.stat.dispatch(frame);
                        out.push(Command::Dispatch(frame, segment));
                    },
                    None => {
                        self.stat.broadcast(frame);
                        if !self.pending.exist_addr(&frame.dst) {
                            out.push(Command::Broadcast(frame.dst));
                        }
                        self.pending_stat.rec(self.pending.len());
                        self.pending.hold(frame);
                    },
                }
                proof {
                    assert(out@ =~= emitted(old(self)@, event));
                    assert(self.stat.records@ =~= old(self).stat.records@ + recorded(
                        old(self)@,
                        event,
                    ));
                    assert(self.pending_stat.records@ =~= old(self).pending_stat.records@
                        + sampled(old(self)@, event));
                }
            },
            Event::Success(address, segment) => {
                self.mapping.insert(address.key(), segment);
                let frames: Vec<Frame> = self.pending.release(address);
                let n: usize = frames.len();
                let mut i: usize = 0;
                while i < n
                    invariant
                        i <= n,
                        n == frames@.len(),
                        self.stat.wf(),
                        self.stat.init == old(self).stat.init,
                        old(self).stat.times@.is_prefix_of(self.stat.times@),
                        self.pending.wf(),
                        self.pending_stat == old(self).pending_stat,
                        self@ == next_state(old(self)@, event),
                        out@ == frames@.take(i as int).map_values(
                            |f: Frame| Command::Dispatch(f, segment),
                        ),
                        self.stat.records@ == old(self).stat.records@ + frames@.take(
                            i as int,
                        ).map_values(|f: Frame| BridgeStatRecord::Dispatch(f)),
                    decreases n - i,
                {
                    let frame: Frame = frames[i];
                    self.stat.dispatch(frame);
                    out.push(Command::Dispatch(frame, segment));
                    i += 1;
                    proof {
                        assert(frames@.take(i as int) =~= frames@.take(i - 1).push(frame));
                        assert(out@ =~= frames@.take(i as int).map_values(
                            |f: Frame| Command::Dispatch(f, segment),
                        ));
                        assert(self.stat.records@ =~= old(self).stat.records@ + frames@.take(
                            i as int,
                        ).map_values(|f: Frame| BridgeStatRecord::Dispatch(f)));
                    }
                }
                self.pending_stat.rec(self.pending.len());
                proof {
                    assert(frames@.take(n as int) =~= frames@);
                    assert(self.pending_stat.records@ =~= old(self).pending_stat.records@
                        + sampled(old(self)@, event));
                }
            },
            Event::Failure(address) => {
                let frames: Vec<Frame> = self.pending.release(address);
                let n: usize = frames.len();
                let mut i: usize = 0;
                while i < n
                    invariant
                        i <= n,
                        n == frames@.len(),
                        self.stat.wf(),
                        self.stat.init == old(self).stat.init,
                        old(self).stat.times@.is_prefix_of(self.stat.times@),
                        self.pending.wf(),
                        self.pending_stat == old(self).pending_stat,
                        self@ == next_state(old(self)@, event),
                        out@ == frames@.take(i as int).map_values(|f: Frame| Command::Discard(f)),
                        self.stat.records@ == old(self).stat.records@ + frames@.take(
                            i as int,
                        ).map_values(|f: Frame| BridgeStatRecord::Discard(f)),
                    decreases n - i,
                {
                    let frame: Frame = frames[i];
                    self.stat.discard(frame);
                    out.push(Command::Discard(frame));
                    i += 1;
                    proof {
                        assert(frames@.take(i as int) =~= frames@.take(i - 1).push(frame));
                        assert(out@ =~= frames@.take(i as int).map_values(
                            |f: Frame| Command::Discard(f),
                        ));
                        assert(self.stat.records@ =~= old(self).stat.records@ + frames@.take(
                            i as int,
                        ).map_values(|f: Frame| BridgeStatRecord::Discard(f)));
                    }
                }
                self.pending_stat.rec(self.pending.len());
                proof {
                    assert(frames@.take(n as int) =~= frames@);
                    assert(self.pending_stat.records@ =~= old(self).pending_stat.records@
                        + sampled(old(self)@, event));
                }
            },
            Event::Shutdown => {
                proof {
                    assert(self.stat.records@ =~= old(self).stat.records@ + recorded(
                        old(self)@,
                        event,
                    ));
                    assert(self.pending_stat.records@ =~= old(self).pending_stat.records@
                        + sampled(old(self)@, event));
                }
            },
        }
        out
    }
}

/// Launch network bridge on the events given: a new bridge takes them in
/// order up to the first shutdown, and is handed back as the run left it,
/// with every command that it emitted, in order.
pub fn bridge(events: &Vec<Event>) -> (out: (Bridge, Vec<Command>))
    ensures
        out.0.wf(),
        out.0@ == run(initial_state(), events@.take(live_len(events@) as int)),
        out.1@ == run_emitted(initial_state(), events@.take(live_len(events@) as int)),
        out.0.spec_stat().records@ == run_recorded(
            initial_state(),
            events@.take(live_len(events@) as int),
        ),
        out.0.spec_pending_stat().records@ == run_sampled(
            initial_state(),
            events@.take(live_len(events@) as int),
        ),
{
    let mut b = Bridge::new();
    let mut out: Vec<Command> = Vec::new();
    let n: usize = events.len();
    let mut i: usize = 0;
    let mut live: bool = true;
    while i < n && live
        invariant
            i <= n,
            n == events@.len(),
            b.wf(),
            live ==> forall|j: int| 0 <= j < i ==> !(#[trigger] events@[j] is Shutdown),
            !live ==> i < n && events@[i as int] is Shutdown && forall|j: int|
                0 <= j < i ==> !(#[trigger] events@[j] is Shutdown),
            b@ == run(initial_state(), events@.take(i as int)),
            out@ == run_emitted(initial_state(), events@.take(i as int)),
            b.spec_stat().records@ == run_recorded(initial_state(), events@.take(i as int)),
            b.spec_pending_stat().records@ == run_sampled(initial_state(), events@.take(i as int)),
        decreases n - i, (if live { 1int } else { 0int }),
    {
        match events[i] {
            Event::Shutdown => {
                live = false;
            },
            event => {
                let mut cmds = b.step(event);
                out.append(&mut cmds);
                i += 1;
                proof {
                    assert(events@.take(i as int).drop_last() =~= events@.take(i - 1));
                    assert(events@.take(i as int).last() == event);
                }
            },
        }
    }
    proof {
        lemma_live_len(events@, i as int);
    }
    (b, out)
}

} // verus!
