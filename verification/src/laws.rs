//! What holds of every run of the bridge: a run is a sequence of events
//! taken one after the other from some state.

use crate::bridge::{
    emitted, initial_state, learn_source, next_state, recorded, run, run_emitted, run_recorded,
    BridgeState, Command, Event,
};
use crate::holder::{held_after_hold, waiting};
use crate::model::{Address, Frame, Segment};
use crate::stat::BridgeStatRecord;
use vstd::prelude::*;

verus! {

/// Whether a command ends the way of a frame through the bridge.
pub open spec fn is_terminal(c: Command) -> bool {
    c is Dispatch || c is Discard
}

/// The number of dispatches and discards among commands.
pub open spec fn terminal_count(cmds: Seq<Command>) -> nat
    decreases cmds.len(),
{
    if cmds.len() == 0 {
        0
    } else {
        terminal_count(cmds.drop_last()) + if is_terminal(cmds.last()) {
            1nat
        } else {
            0nat
        }
    }
}

/// The number of requests among events.
pub open spec fn request_count(events: Seq<Event>) -> nat
    decreases events.len(),
{
    if events.len() == 0 {
        0
    } else {
        request_count(events.drop_last()) + if events.last() is Request {
            1nat
        } else {
            0nat
        }
    }
}

/// The number of frames that wait under keys below `n`.
pub open spec fn held_below(held: Map<u32, Seq<Frame>>, n: nat) -> nat
    decreases n,
{
    if n == 0 {
        0
    } else {
        held_below(held, (n - 1) as nat) + waiting(held, (n - 1) as u32).len()
    }
}

/// The number of frames that wait in a holder, over all destinations.
pub open spec fn held_count(held: Map<u32, Seq<Frame>>) -> nat {
    held_below(held, 0x1_0000_0000)
}

/// Whether an event is a request for the destination with key `d`.
pub open spec fn is_request_to(ev: Event, d: u32) -> bool {
    ev matches Event::Request(f) && f.dst.spec_key() == d
}

/// Whether an event is the answer to a probe for the address with key `d`.
pub open spec fn resolves(ev: Event, d: u32) -> bool {
    ||| (ev matches Event::Success(a, _) && a.spec_key() == d)
    ||| (ev matches Event::Failure(a) && a.spec_key() == d)
}

/// Whether a request finds its destination `d` unknown to the learning
/// table, its own source counted in, and without a probe in flight.
pub open spec fn is_fresh_request(st: BridgeState, ev: Event, d: u32) -> bool {
    ev matches Event::Request(f) && f.dst.spec_key() == d && !learn_source(
        st.mapping,
        f,
    ).contains_key(d) && !st.pending.contains_key(d)
}

/// The number of requests of a run that find their destination `d` neither
/// in the learning table nor in the holder.
pub open spec fn fresh_request_count(st: BridgeState, events: Seq<Event>, d: u32) -> nat
    decreases events.len(),
{
    if events.len() == 0 {
        0
    } else {
        fresh_request_count(st, events.drop_last(), d) + if is_fresh_request(
            run(st, events.drop_last()),
            events.last(),
            d,
        ) {
            1nat
        } else {
            0nat
        }
    }
}

/// The number of probes for the address with key `d` among commands.
pub open spec fn probe_count(cmds: Seq<Command>, d: u32) -> nat
    decreases cmds.len(),
{
    if cmds.len() == 0 {
        0
    } else {
        probe_count(cmds.drop_last(), d) + if (cmds.last() matches Command::Broadcast(a)
            && a.spec_key() == d) {
            1nat
        } else {
            0nat
        }
    }
}

/// The frames of the requests for destination `d` among events, in the
/// order of arrival.
pub open spec fn requests_to(events: Seq<Event>, d: u32) -> Seq<Frame>
    decreases events.len(),
{
    if events.len() == 0 {
        Seq::empty()
    } else {
        let before = requests_to(events.drop_last(), d);
        match events.last() {
            Event::Request(f) => if f.dst.spec_key() == d {
                before.push(f)
            } else {
                before
            },
            _ => before,
        }
    }
}

proof fn lemma_terminal_count_add(a: Seq<Command>, b: Seq<Command>)
    ensures
        terminal_count(a + b) == terminal_count(a) + terminal_count(b),
    decreases b.len(),
{
    if b.len() == 0 {
        assert(a + b =~= a);
    } else {
        assert((a + b).drop_last() =~= a + b.drop_last());
        lemma_terminal_count_add(a, b.drop_last());
    }
}

proof fn lemma_probe_count_add(a: Seq<Command>, b: Seq<Command>, d: u32)
    ensures
        probe_count(a + b, d) == probe_count(a, d) + probe_count(b, d),
    decreases b.len(),
{
    if b.len() == 0 {
        assert(a + b =~= a);
    } else {
        assert((a + b).drop_last() =~= a + b.drop_last());
        lemma_probe_count_add(a, b.drop_last(), d);
    }
}

proof fn lemma_counts_of_short(cmds: Seq<Command>, d: u32)
    requires
        cmds.len() <= 1,
    ensures
        cmds.len() == 0 ==> terminal_count(cmds) == 0 && probe_count(cmds, d) == 0,
        cmds.len() == 1 ==> terminal_count(cmds) == (if is_terminal(cmds[0]) {
            1nat
        } else {
            0nat
        }) && probe_count(cmds, d) == (if (cmds[0] matches Command::Broadcast(a) && a.spec_key()
            == d) {
            1nat
        } else {
            0nat
        }),
{
    reveal_with_fuel(terminal_count, 2);
    reveal_with_fuel(probe_count, 2);
}

proof fn lemma_released_counts(frames: Seq<Frame>, ev: Event, d: u32)
    requires
        ev is Success || ev is Failure,
    ensures
        ev matches Event::Success(_, seg) ==> {
            let cmds = frames.map_values(|f: Frame| Command::Dispatch(f, seg));
            terminal_count(cmds) == frames.len() && probe_count(cmds, d) == 0
        },
        ev is Failure ==> {
            let cmds = frames.map_values(|f: Frame| Command::Discard(f));
            terminal_count(cmds) == frames.len() && probe_count(cmds, d) == 0
        },
    decreases frames.len(),
{
    if frames.len() > 0 {
        lemma_released_counts(frames.drop_last(), ev, d);
        if let Event::Success(_, seg) = ev {
            assert(frames.map_values(|f: Frame| Command::Dispatch(f, seg)).drop_last()
                =~= frames.drop_last().map_values(|f: Frame| Command::Dispatch(f, seg)));
        } else {
            assert(frames.map_values(|f: Frame| Command::Discard(f)).drop_last()
                =~= frames.drop_last().map_values(|f: Frame| Command::Discard(f)));
        }
    }
}

proof fn lemma_held_below_change(a: Map<u32, Seq<Frame>>, b: Map<u32, Seq<Frame>>, k: u32, n: nat)
    requires
        n <= 0x1_0000_0000,
        forall|j: u32| j != k ==> waiting(a, j) == waiting(b, j),
    ensures
        held_below(b, n) + (if k < n {
            waiting(a, k).len()
        } else {
            0
        }) == held_below(a, n) + (if k < n {
            waiting(b, k).len()
        } else {
            0
        }),
    decreases n,
{
    if n > 0 {
        lemma_held_below_change(a, b, k, (n - 1) as nat);
    }
}

/// One event keeps the frames: what it dispatches or discards and what
/// waits afterwards are what waited before and, for a request, the frame
/// that came.
pub proof fn lemma_step_conserves_frames(st: BridgeState, ev: Event)
    ensures
        terminal_count(emitted(st, ev)) + held_count(next_state(st, ev).pending) == held_count(
            st.pending,
        ) + (if ev is Request {
            1nat
        } else {
            0nat
        }),
{
    let cmds = emitted(st, ev);
    let after = next_state(st, ev).pending;
    match ev {
        Event::Request(frame) => {
            let d = frame.dst.spec_key();
            lemma_counts_of_short(cmds, 0);
            if !learn_source(st.mapping, frame).contains_key(d) {
                assert(after == held_after_hold(st.pending, frame));
                lemma_held_below_change(st.pending, after, d, 0x1_0000_0000);
            }
        },
        Event::Success(addr, seg) => {
            lemma_released_counts(waiting(st.pending, addr.spec_key()), ev, 0);
            lemma_held_below_change(st.pending, after, addr.spec_key(), 0x1_0000_0000);
        },
        Event::Failure(addr) => {
            lemma_released_counts(waiting(st.pending, addr.spec_key()), ev, 0);
            lemma_held_below_change(st.pending, after, addr.spec_key(), 0x1_0000_0000);
        },
        Event::Shutdown => {},
    }
}

/// Conservation: over any run, the frames dispatched or discarded and the
/// frames still waiting at its end are the frames that waited at its start
/// and the requests that came.
pub proof fn lemma_run_conserves_frames(st: BridgeState, events: Seq<Event>)
    ensures
        terminal_count(run_emitted(st, events)) + held_count(run(st, events).pending)
            == held_count(st.pending) + request_count(events),
    decreases events.len(),
{
    if events.len() > 0 {
        let before = events.drop_last();
        lemma_run_conserves_frames(st, before);
        lemma_step_conserves_frames(run(st, before), events.last());
        lemma_terminal_count_add(run_emitted(st, before), emitted(run(st, before), events.last()));
    }
}

/// Conservation from the start: a run of a new bridge that leaves nothing in
/// the holder has dispatched or discarded exactly as many frames as were
/// requested.
pub proof fn lemma_every_request_ends(events: Seq<Event>)
    requires
        held_count(run(initial_state(), events).pending) == 0,
    ensures
        terminal_count(run_emitted(initial_state(), events)) == request_count(events),
{
    lemma_run_conserves_frames(initial_state(), events);
    lemma_empty_holds_nothing(0x1_0000_0000);
}

proof fn lemma_empty_holds_nothing(n: nat)
    ensures
        held_below(Map::<u32, Seq<Frame>>::empty(), n) == 0,
    decreases n,
{
    if n > 0 {
        lemma_empty_holds_nothing((n - 1) as nat);
    }
}

/// Probe de-duplication: over any run, the probes sent for a destination
/// are as many as the requests to it that found it neither in the learning
/// table nor in the holder.
pub proof fn lemma_one_probe_per_fresh_request(st: BridgeState, events: Seq<Event>, d: u32)
    ensures
        probe_count(run_emitted(st, events), d) == fresh_request_count(st, events, d),
    decreases events.len(),
{
    if events.len() > 0 {
        let before = events.drop_last();
        let mid = run(st, before);
        let ev = events.last();
        lemma_one_probe_per_fresh_request(st, before, d);
        lemma_probe_count_add(run_emitted(st, before), emitted(mid, ev), d);
        let cmds = emitted(mid, ev);
        match ev {
            Event::Request(frame) => {
                lemma_counts_of_short(cmds, d);
            },
            Event::Success(addr, seg) => {
                lemma_released_counts(waiting(mid.pending, addr.spec_key()), ev, d);
            },
            Event::Failure(addr) => {
                lemma_released_counts(waiting(mid.pending, addr.spec_key()), ev, d);
            },
            Event::Shutdown => {},
        }
    }
}

/// While frames wait for a destination and no answer for it arrives, the
/// entry stays and no further probe for it is sent: at most one probe per
/// unresolved interval.
pub proof fn lemma_no_second_probe(st: BridgeState, events: Seq<Event>, d: u32)
    requires
        st.pending.contains_key(d),
        forall|i: int| 0 <= i < events.len() ==> !resolves(#[trigger] events[i], d),
    ensures
        run(st, events).pending.contains_key(d),
        probe_count(run_emitted(st, events), d) == 0,
    decreases events.len(),
{
    if events.len() > 0 {
        let before = events.drop_last();
        assert forall|i: int| 0 <= i < before.len() implies !resolves(#[trigger] before[i], d) by {
            assert(before[i] == events[i]);
        }
        lemma_no_second_probe(st, before, d);
        lemma_one_probe_per_fresh_request(st, events, d);
        lemma_one_probe_per_fresh_request(st, before, d);
        assert(!resolves(events[events.len() - 1], d));
    }
}

/// A request that is answered by a probe leaves its destination in the
/// holder.
pub proof fn lemma_probe_opens_entry(st: BridgeState, ev: Event, d: u32)
    requires
        probe_count(emitted(st, ev), d) > 0,
    ensures
        is_fresh_request(st, ev, d),
        next_state(st, ev).pending.contains_key(d),
{
    let cmds = emitted(st, ev);
    match ev {
        Event::Request(frame) => {
            lemma_counts_of_short(cmds, d);
        },
        Event::Success(addr, seg) => {
            lemma_released_counts(waiting(st.pending, addr.spec_key()), ev, d);
        },
        Event::Failure(addr) => {
            lemma_released_counts(waiting(st.pending, addr.spec_key()), ev, d);
        },
        Event::Shutdown => {},
    }
}

/// Learning monotonicity: over any run, every address that the learning
/// table knew is still known, and the table has not shrunk.
pub proof fn lemma_learning_is_monotonic(st: BridgeState, events: Seq<Event>)
    requires
        st.mapping.dom().finite(),
    ensures
        st.mapping.dom().subset_of(run(st, events).mapping.dom()),
        run(st, events).mapping.dom().finite(),
        st.mapping.len() <= run(st, events).mapping.len(),
    decreases events.len(),
{
    if events.len() > 0 {
        let before = events.drop_last();
        lemma_learning_is_monotonic(st, before);
        let mid = run(st, before);
        let end = run(st, events);
        assert(mid.mapping.dom().subset_of(end.mapping.dom()));
        assert(end.mapping.dom().finite());
        vstd::set_lib::lemma_len_subset(mid.mapping.dom(), end.mapping.dom());
    }
}

/// An entry that an answer to a probe put into the learning table stays
/// until another answer for the same address replaces it.
pub proof fn lemma_learned_entry_stays(st: BridgeState, events: Seq<Event>, a: u32)
    requires
        st.mapping.contains_key(a),
        forall|i: int|
            0 <= i < events.len() ==> !(#[trigger] events[i] matches Event::Success(x, _)
                && x.spec_key() == a),
    ensures
        run(st, events).mapping.contains_key(a),
        run(st, events).mapping[a] == st.mapping[a],
    decreases events.len(),
{
    if events.len() > 0 {
        let before = events.drop_last();
        assert forall|i: int| 0 <= i < before.len() implies !(#[trigger] before[i] matches Event::Success(
            x,
            _,
        ) && x.spec_key() == a) by {
            assert(before[i] == events[i]);
        }
        lemma_learned_entry_stays(st, before, a);
        assert(!(events[events.len() - 1] matches Event::Success(x, _) && x.spec_key() == a));
    }
}

/// Order preservation: where a run brings no answer for a destination and
/// leaves it unknown to the learning table, every request to it is held, and
/// the frames wait in the order in which they came, behind those that
/// waited before.
pub proof fn lemma_held_in_arrival_order(st: BridgeState, events: Seq<Event>, d: u32)
    requires
        forall|i: int| 0 <= i < events.len() ==> !resolves(#[trigger] events[i], d),
        !run(st, events).mapping.contains_key(d),
    ensures
        waiting(run(st, events).pending, d) == waiting(st.pending, d) + requests_to(events, d),
    decreases events.len(),
{
    if events.len() == 0 {
        assert(waiting(st.pending, d) + requests_to(events, d) =~= waiting(st.pending, d));
    } else {
        let before = events.drop_last();
        let mid = run(st, before);
        let ev = events.last();
        assert forall|i: int| 0 <= i < before.len() implies !resolves(#[trigger] before[i], d) by {
            assert(before[i] == events[i]);
        }
        assert(mid.mapping.dom().subset_of(next_state(mid, ev).mapping.dom()));
        assert(!mid.mapping.contains_key(d));
        lemma_held_in_arrival_order(st, before, d);
        assert(!resolves(events[events.len() - 1], d));
        assert(waiting(run(st, events).pending, d) =~= waiting(st.pending, d) + requests_to(
            events,
            d,
        ));
    }
}

/// Order preservation: the answer to a probe releases the frames that wait
/// for the address in the order in which they wait, each dispatched to the
/// segment of the answer or each discarded, and nothing else.
pub proof fn lemma_release_keeps_order(st: BridgeState, ev: Event, i: int)
    requires
        ev is Success || ev is Failure,
        0 <= i < emitted(st, ev).len(),
    ensures
        ev matches Event::Success(a, s) ==> emitted(st, ev).len() == waiting(
            st.pending,
            a.spec_key(),
        ).len() && emitted(st, ev)[i] == Command::Dispatch(
            waiting(st.pending, a.spec_key())[i],
            s,
        ),
        ev matches Event::Failure(a) ==> emitted(st, ev).len() == waiting(
            st.pending,
            a.spec_key(),
        ).len() && emitted(st, ev)[i] == Command::Discard(waiting(st.pending, a.spec_key())[i]),
{
}

/// Holder emptiness: once a probe for an address has succeeded, nothing
/// waits for that address again, whatever follows.
pub proof fn lemma_nothing_waits_after_success(
    st: BridgeState,
    addr: Address,
    seg: Segment,
    events: Seq<Event>,
)
    ensures
        !run(next_state(st, Event::Success(addr, seg)), events).pending.contains_key(
            addr.spec_key(),
        ),
        run(next_state(st, Event::Success(addr, seg)), events).mapping.contains_key(
            addr.spec_key(),
        ),
    decreases events.len(),
{
    if events.len() > 0 {
        lemma_nothing_waits_after_success(st, addr, seg, events.drop_last());
    }
}

/// Holder emptiness: once a probe for an address has failed, nothing waits
/// for that address as long as no further request to it arrives.
pub proof fn lemma_nothing_waits_after_failure(st: BridgeState, addr: Address, events: Seq<Event>)
    requires
        forall|i: int|
            0 <= i < events.len() ==> !is_request_to(#[trigger] events[i], addr.spec_key()),
    ensures
        !run(next_state(st, Event::Failure(addr)), events).pending.contains_key(addr.spec_key()),
    decreases events.len(),
{
    if events.len() > 0 {
        let before = events.drop_last();
        assert forall|i: int| 0 <= i < before.len() implies !is_request_to(
            #[trigger] before[i],
            addr.spec_key(),
        ) by {
            assert(before[i] == events[i]);
        }
        lemma_nothing_waits_after_failure(st, addr, before);
        assert(!is_request_to(events[events.len() - 1], addr.spec_key()));
    }
}

/// Whether an event is a request from the source with key `a`.
pub open spec fn is_request_from(ev: Event, a: u32) -> bool {
    ev matches Event::Request(f) && f.src.spec_key() == a
}

/// Whether an event is a successful answer for the address with key `a`.
pub open spec fn is_success_for(ev: Event, a: u32) -> bool {
    ev matches Event::Success(x, _) && x.spec_key() == a
}

/// An address stays unknown while no request comes from it and no probe for
/// it succeeds.
pub proof fn lemma_unseen_source_stays_unknown(st: BridgeState, events: Seq<Event>, a: u32)
    requires
        !st.mapping.contains_key(a),
        forall|i: int|
            0 <= i < events.len() ==> !is_request_from(#[trigger] events[i], a) && !is_success_for(
                events[i],
                a,
            ),
    ensures
        !run(st, events).mapping.contains_key(a),
    decreases events.len(),
{
    if events.len() > 0 {
        let before = events.drop_last();
        assert forall|i: int| 0 <= i < before.len() implies !is_request_from(
            #[trigger] before[i],
            a,
        ) && !is_success_for(before[i], a) by {
            assert(before[i] == events[i]);
        }
        lemma_unseen_source_stays_unknown(st, before, a);
        assert(!is_request_from(events[events.len() - 1], a));
    }
}

/// Source learning is first-wins: for an address that the table did not
/// know, and for which no probe succeeds during the run, the table holds
/// after the run the entry segment of the first request from that address.
pub proof fn lemma_first_source_wins(st: BridgeState, events: Seq<Event>, a: u32, first: int)
    requires
        !st.mapping.contains_key(a),
        0 <= first < events.len(),
        is_request_from(events[first], a),
        forall|i: int| 0 <= i < first ==> !is_request_from(#[trigger] events[i], a),
        forall|i: int| 0 <= i < events.len() ==> !is_success_for(#[trigger] events[i], a),
    ensures
        run(st, events).mapping.contains_key(a),
        events[first] matches Event::Request(f) && run(st, events).mapping[a] == f.src_seg,
    decreases events.len(),
{
    let before = events.drop_last();
    assert forall|i: int| 0 <= i < before.len() implies !is_success_for(#[trigger] before[i], a) by {
        assert(before[i] == events[i]);
    }
    if first == events.len() - 1 {
        assert forall|i: int| 0 <= i < before.len() implies !is_request_from(
            #[trigger] before[i],
            a,
        ) && !is_success_for(before[i], a) by {
            assert(before[i] == events[i]);
        }
        lemma_unseen_source_stays_unknown(st, before, a);
    } else {
        assert(before[first] == events[first]);
        assert forall|i: int| 0 <= i < first implies !is_request_from(#[trigger] before[i], a) by {
            assert(before[i] == events[i]);
        }
        lemma_first_source_wins(st, before, a, first);
        assert(!is_success_for(events[events.len() - 1], a));
    }
}

/// Every frame that waits in the holder of a bridge was recorded as a
/// broadcast when it was held.
pub proof fn lemma_held_frames_were_recorded(events: Seq<Event>, d: u32, i: int)
    requires
        0 <= i < waiting(run(initial_state(), events).pending, d).len(),
    ensures
        run_recorded(initial_state(), events).contains(
            BridgeStatRecord::Broadcast(waiting(run(initial_state(), events).pending, d)[i]),
        ),
    decreases events.len(),
{
    if events.len() > 0 {
        let before = events.drop_last();
        let mid = run(initial_state(), before);
        let ev = events.last();
        let frame = waiting(run(initial_state(), events).pending, d)[i];
        let target = BridgeStatRecord::Broadcast(frame);
        let old_records = run_recorded(initial_state(), before);
        let new_records = recorded(mid, ev);
        if i < waiting(mid.pending, d).len() && waiting(mid.pending, d)[i] == frame {
            lemma_held_frames_were_recorded(before, d, i);
            let j = choose|j: int| 0 <= j < old_records.len() && old_records[j] == target;
            assert((old_records + new_records)[j] == target);
        } else {
            assert(ev is Request);
            assert(new_records[0] == target);
            assert((old_records + new_records)[old_records.len() as int] == target);
        }
    }
}

} // verus!
