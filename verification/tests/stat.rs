use net_exp_bridge::stat::{elapsed_micros, Activity, BridgePendingStat, BridgeStat, BridgeStatRecord};
use net_exp_bridge::{Address, Frame, Segment};
use std::time::{Duration, Instant};

fn frame(tag: u8) -> Frame {
    Frame {
        src: Address { data: [1, 1, 1, 1] },
        src_seg: Segment { data: [0, 1] },
        dst: Address { data: [2, 2, 2, 2] },
        data: [tag, 0, 0, 0],
    }
}

#[test]
fn record_frame_is_the_frame_of_each_kind() {
    assert_eq!(*BridgeStatRecord::Broadcast(frame(1)).frame(), frame(1));
    assert_eq!(*BridgeStatRecord::Dispatch(frame(2)).frame(), frame(2));
    assert_eq!(*BridgeStatRecord::Discard(frame(3)).frame(), frame(3));
}

#[test]
fn record_activity_names_the_kind() {
    assert_eq!(BridgeStatRecord::Broadcast(frame(1)).activity(), Activity::Broadcast);
    assert_eq!(BridgeStatRecord::Dispatch(frame(1)).activity(), Activity::Dispatch);
    assert_eq!(BridgeStatRecord::Discard(frame(1)).activity(), Activity::Discard);
}

#[test]
fn new_stat_is_empty() {
    let s = BridgeStat::new();
    assert_eq!(s.len(), 0);
    assert!(s.times.is_empty());
    let p = BridgePendingStat::new();
    assert_eq!(p.len(), 0);
    assert!(p.times.is_empty());
}

#[test]
fn records_get_one_time_each() {
    let mut s = BridgeStat::new();
    s.broadcast(frame(1));
    s.dispatch(frame(1));
    s.discard(frame(2));
    assert_eq!(s.len(), 3);
    assert_eq!(
        s.records,
        vec![
            BridgeStatRecord::Broadcast(frame(1)),
            BridgeStatRecord::Dispatch(frame(1)),
            BridgeStatRecord::Discard(frame(2)),
        ]
    );
    assert_eq!(s.times.len(), 3);
    assert!(s.times[0] <= s.times[1] && s.times[1] <= s.times[2]);
}

#[test]
fn record_at_never_steps_back() {
    let mut s = BridgeStat::new();
    s.record_at(BridgeStatRecord::Broadcast(frame(1)), 50);
    s.record_at(BridgeStatRecord::Dispatch(frame(1)), 20);
    s.record_at(BridgeStatRecord::Discard(frame(2)), 70);
    assert_eq!(s.times, vec![50, 50, 70]);
}

#[test]
fn activity_scatter_parts_times_by_kind() {
    let mut s = BridgeStat::new();
    s.record_at(BridgeStatRecord::Broadcast(frame(1)), 10);
    s.record_at(BridgeStatRecord::Dispatch(frame(2)), 20);
    s.record_at(BridgeStatRecord::Broadcast(frame(3)), 30);
    s.record_at(BridgeStatRecord::Discard(frame(1)), 40);
    s.record_at(BridgeStatRecord::Dispatch(frame(3)), 50);
    let sc = s.export_activity_scatter();
    assert_eq!(sc.broadcast, vec![10, 30]);
    assert_eq!(sc.dispatch, vec![20, 50]);
    assert_eq!(sc.discard, vec![40]);
}

#[test]
fn latency_is_time_from_broadcast_to_end() {
    let mut s = BridgeStat::new();
    s.record_at(BridgeStatRecord::Broadcast(frame(1)), 100);
    s.record_at(BridgeStatRecord::Broadcast(frame(2)), 150);
    s.record_at(BridgeStatRecord::Dispatch(frame(9)), 160);
    s.record_at(BridgeStatRecord::Discard(frame(2)), 400);
    s.record_at(BridgeStatRecord::Dispatch(frame(1)), 1000);
    assert_eq!(s.export_latency_scatter(), vec![(150, 250), (100, 900)]);
}

#[test]
fn latency_counts_an_end_once() {
    let mut s = BridgeStat::new();
    s.record_at(BridgeStatRecord::Broadcast(frame(1)), 5);
    s.record_at(BridgeStatRecord::Dispatch(frame(1)), 8);
    s.record_at(BridgeStatRecord::Dispatch(frame(1)), 9);
    assert_eq!(s.export_latency_scatter(), vec![(5, 3)]);
}

#[test]
fn later_broadcast_of_equal_frame_replaces_the_earlier() {
    let mut s = BridgeStat::new();
    s.record_at(BridgeStatRecord::Broadcast(frame(1)), 10);
    s.record_at(BridgeStatRecord::Broadcast(frame(1)), 30);
    s.record_at(BridgeStatRecord::Dispatch(frame(1)), 45);
    s.record_at(BridgeStatRecord::Dispatch(frame(1)), 60);
    assert_eq!(s.export_latency_scatter(), vec![(30, 15)]);
}

#[test]
fn empty_stat_exports_nothing() {
    let s = BridgeStat::new();
    let sc = s.export_activity_scatter();
    assert!(sc.broadcast.is_empty() && sc.dispatch.is_empty() && sc.discard.is_empty());
    assert!(s.export_latency_scatter().is_empty());
    assert!(BridgePendingStat::new().export_congestion_scatter().is_empty());
}

#[test]
fn congestion_pairs_time_with_depth() {
    let mut p = BridgePendingStat::new();
    p.rec_at(0, 7);
    p.rec_at(3, 9);
    p.rec_at(2, 8);
    assert_eq!(p.len(), 3);
    assert_eq!(p.export_congestion_scatter(), vec![(7, 0), (9, 3), (8, 2)]);
}

#[test]
fn rec_files_the_count_with_a_time() {
    let mut p = BridgePendingStat::new();
    p.rec(4);
    p.rec(1);
    assert_eq!(p.records, vec![4, 1]);
    assert_eq!(p.times.len(), 2);
}

#[test]
fn elapsed_micros_follows_the_clock() {
    let init = Instant::now();
    let early = elapsed_micros(&init);
    while init.elapsed() < Duration::from_millis(3) {}
    let late = elapsed_micros(&init);
    assert!(early <= late);
    assert!(late >= 3000);
    assert!(late <= init.elapsed().as_micros());
}

#[test]
fn soundness_of_records_is_checked() {
    let mut s = BridgeStat::new();
    assert!(s.is_sound());
    s.record_at(BridgeStatRecord::Broadcast(frame(1)), 10);
    s.record_at(BridgeStatRecord::Dispatch(frame(1)), 12);
    assert!(s.is_sound());
    s.times[1] = 5;
    assert!(!s.is_sound());
    s.times[1] = 10;
    assert!(s.is_sound());
    s.times.pop();
    assert!(!s.is_sound());
    let mut p = BridgePendingStat::new();
    p.rec_at(1, 1);
    assert!(p.is_sound());
    p.records.push(2);
    assert!(!p.is_sound());
}

#[test]
fn times_are_cut_to_sixty_four_bits() {
    let mut s = BridgeStat::new();
    s.record_at(BridgeStatRecord::Broadcast(frame(1)), (1u128 << 64) + 5);
    s.record_at(BridgeStatRecord::Dispatch(frame(1)), (1u128 << 64) + 9);
    assert_eq!(s.export_activity_scatter().broadcast, vec![5]);
    assert_eq!(s.export_latency_scatter(), vec![(5, 4)]);
}
