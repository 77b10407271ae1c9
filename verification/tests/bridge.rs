use net_exp_bridge::bridge::{bridge, Bridge, Command, Event};
use net_exp_bridge::model::{Address, Frame, Segment};
use net_exp_bridge::stat::BridgeStatRecord;

fn addr(n: u8) -> Address {
    Address { data: [192, 168, 0, n] }
}

fn seg(n: u8) -> Segment {
    Segment { data: [0, n] }
}

fn frame(src: u8, src_seg: u8, dst: u8, tag: u8) -> Frame {
    Frame { src: addr(src), src_seg: seg(src_seg), dst: addr(dst), data: [tag, tag, tag, tag] }
}

fn count_terminal(cmds: &[Command]) -> usize {
    cmds.iter().filter(|c| matches!(c, Command::Dispatch(_, _) | Command::Discard(_))).count()
}

#[test]
fn direct_dispatch_after_source_learning() {
    let mut b = Bridge::new();
    let f1 = frame(1, 1, 2, 10);
    let f2 = frame(2, 2, 1, 20);
    let c1 = b.step(Event::Request(f1));
    assert_eq!(c1, vec![Command::Broadcast(addr(2))]);
    assert_eq!(b.pending_len(), 1);
    let c2 = b.step(Event::Request(f2));
    assert_eq!(c2, vec![Command::Dispatch(f2, seg(1))]);
    assert_eq!(b.pending_len(), 1);
}

#[test]
fn probe_is_sent_once_per_destination() {
    let mut b = Bridge::new();
    let mut all = Vec::new();
    for tag in 0..3u8 {
        all.extend(b.step(Event::Request(frame(1, 1, 9, tag))));
    }
    assert_eq!(all, vec![Command::Broadcast(addr(9))]);
    assert!(b.is_pending(&addr(9)));
    assert_eq!(b.pending_len(), 1);
    let released = b.step(Event::Failure(addr(9)));
    assert_eq!(released.len(), 3);
}

#[test]
fn success_releases_in_arrival_order() {
    let mut b = Bridge::new();
    let frames = [frame(1, 1, 9, 0), frame(1, 1, 9, 1), frame(1, 1, 9, 2)];
    for f in frames {
        b.step(Event::Request(f));
    }
    let out = b.step(Event::Success(addr(9), seg(7)));
    assert_eq!(
        out,
        vec![
            Command::Dispatch(frames[0], seg(7)),
            Command::Dispatch(frames[1], seg(7)),
            Command::Dispatch(frames[2], seg(7)),
        ]
    );
    assert!(!b.is_pending(&addr(9)));
    assert_eq!(b.lookup(&addr(9)), Some(seg(7)));
}

#[test]
fn failure_discards_in_arrival_order() {
    let mut b = Bridge::new();
    let f1 = frame(1, 1, 8, 1);
    let f2 = frame(1, 1, 8, 2);
    let mut sent = Vec::new();
    sent.extend(b.step(Event::Request(f1)));
    sent.extend(b.step(Event::Request(f2)));
    let known_before = b.known();
    sent.extend(b.step(Event::Failure(addr(8))));
    assert_eq!(sent, vec![Command::Broadcast(addr(8)), Command::Discard(f1), Command::Discard(f2)]);
    assert_eq!(b.known(), known_before);
    assert_eq!(b.lookup(&addr(8)), None);
    assert!(!b.is_pending(&addr(8)));
}

#[test]
fn learned_destination_is_dispatched_at_once() {
    let mut b = Bridge::new();
    assert!(b.step(Event::Success(addr(5), seg(9))).is_empty());
    let f = frame(1, 1, 5, 3);
    let out = b.step(Event::Request(f));
    assert_eq!(out, vec![Command::Dispatch(f, seg(9))]);
    assert_eq!(b.stat().records, vec![BridgeStatRecord::Dispatch(f)]);
    assert!(b.stat().export_latency_scatter().is_empty());
}

#[test]
fn every_request_ends_once() {
    let events = vec![
        Event::Request(frame(1, 1, 2, 0)),
        Event::Request(frame(2, 2, 1, 1)),
        Event::Request(frame(3, 3, 2, 2)),
        Event::Request(frame(3, 3, 7, 3)),
        Event::Success(addr(2), seg(2)),
        Event::Failure(addr(7)),
        Event::Request(frame(4, 4, 7, 4)),
        Event::Failure(addr(7)),
        Event::Shutdown,
    ];
    let (b, cmds) = bridge(&events);
    assert_eq!(count_terminal(&cmds), 5);
    assert_eq!(b.pending_len(), 0);
    let probes: Vec<&Command> = cmds.iter().filter(|c| matches!(c, Command::Broadcast(_))).collect();
    assert_eq!(
        probes,
        vec![&Command::Broadcast(addr(2)), &Command::Broadcast(addr(7)), &Command::Broadcast(addr(7))]
    );
}

#[test]
fn bridge_takes_nothing_after_shutdown() {
    let f = frame(1, 1, 2, 0);
    let events = vec![Event::Request(f), Event::Shutdown, Event::Request(frame(2, 2, 1, 1))];
    let (b, cmds) = bridge(&events);
    assert_eq!(cmds, vec![Command::Broadcast(addr(2))]);
    assert_eq!(b.stat().len(), 1);
    assert_eq!(b.known(), 1);
    assert!(b.is_pending(&addr(2)));
}

#[test]
fn shutdown_step_changes_nothing() {
    let mut b = Bridge::new();
    b.step(Event::Request(frame(1, 1, 2, 0)));
    let out = b.step(Event::Shutdown);
    assert!(out.is_empty());
    assert_eq!(b.stat().len(), 1);
    assert_eq!(b.pending_stat().len(), 1);
    assert_eq!(b.pending_len(), 1);
    assert_eq!(b.known(), 1);
}

#[test]
fn learning_table_never_shrinks() {
    let mut b = Bridge::new();
    let events = [
        Event::Request(frame(1, 1, 2, 0)),
        Event::Failure(addr(2)),
        Event::Success(addr(3), seg(3)),
        Event::Request(frame(1, 4, 3, 1)),
        Event::Failure(addr(3)),
        Event::Shutdown,
    ];
    let mut last = b.known();
    for e in events {
        b.step(e);
        assert!(b.known() >= last);
        last = b.known();
    }
    assert_eq!(b.lookup(&addr(3)), Some(seg(3)));
    assert_eq!(b.known(), 2);
}

#[test]
fn source_learning_is_first_wins() {
    let mut b = Bridge::new();
    b.step(Event::Request(frame(1, 1, 2, 0)));
    b.step(Event::Request(frame(1, 5, 2, 1)));
    assert_eq!(b.lookup(&addr(1)), Some(seg(1)));
}

#[test]
fn success_overwrites_a_learned_source() {
    let mut b = Bridge::new();
    b.step(Event::Request(frame(1, 1, 2, 0)));
    b.step(Event::Success(addr(1), seg(6)));
    assert_eq!(b.lookup(&addr(1)), Some(seg(6)));
    b.step(Event::Request(frame(1, 1, 2, 1)));
    assert_eq!(b.lookup(&addr(1)), Some(seg(6)));
}

#[test]
fn nothing_waits_after_an_answer() {
    let mut b = Bridge::new();
    b.step(Event::Request(frame(1, 1, 2, 0)));
    b.step(Event::Request(frame(1, 1, 3, 0)));
    b.step(Event::Success(addr(2), seg(2)));
    b.step(Event::Request(frame(4, 4, 2, 0)));
    b.step(Event::Failure(addr(3)));
    assert!(!b.is_pending(&addr(2)));
    assert!(!b.is_pending(&addr(3)));
    assert_eq!(b.pending_len(), 0);
}

#[test]
fn depth_is_sampled_before_hold_and_after_release() {
    let mut b = Bridge::new();
    b.step(Event::Request(frame(1, 1, 2, 0)));
    b.step(Event::Request(frame(1, 1, 3, 0)));
    b.step(Event::Request(frame(1, 1, 2, 1)));
    b.step(Event::Request(frame(2, 2, 1, 0)));
    b.step(Event::Success(addr(2), seg(2)));
    b.step(Event::Failure(addr(3)));
    b.step(Event::Failure(addr(3)));
    assert_eq!(b.pending_stat().records, vec![0, 1, 2, 1, 0, 0]);
    assert_eq!(b.pending_stat().times.len(), 6);
}

#[test]
fn held_frames_are_recorded_as_broadcast() {
    let mut b = Bridge::new();
    let f1 = frame(1, 1, 2, 0);
    let f2 = frame(1, 1, 2, 1);
    b.step(Event::Request(f1));
    b.step(Event::Request(f2));
    b.step(Event::Failure(addr(2)));
    assert_eq!(
        b.stat().records,
        vec![
            BridgeStatRecord::Broadcast(f1),
            BridgeStatRecord::Broadcast(f2),
            BridgeStatRecord::Discard(f1),
            BridgeStatRecord::Discard(f2),
        ]
    );
    assert_eq!(b.stat().times.len(), 4);
    assert!(b.stat().times.windows(2).all(|w| w[0] <= w[1]));
    assert_eq!(b.stat().export_latency_scatter().len(), 2);
}

#[test]
fn request_from_own_destination_is_dispatched() {
    let mut b = Bridge::new();
    let f = Frame { src: addr(1), src_seg: seg(4), dst: addr(1), data: [0, 0, 0, 0] };
    assert_eq!(b.step(Event::Request(f)), vec![Command::Dispatch(f, seg(4))]);
}
