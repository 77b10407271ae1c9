use net_exp_bridge::bridge::{Command, Event};
use net_exp_bridge::facility::{facility, Facility, FacilityMeter};
use net_exp_bridge::{Address, Frame, Segment};

fn addr(n: u8) -> Address {
    Address { data: [10, 0, 0, n] }
}

fn seg(n: u8) -> Segment {
    Segment { data: [0, n] }
}

fn frame(tag: u8) -> Frame {
    Frame { src: addr(1), src_seg: seg(1), dst: addr(2), data: [tag, 0, 0, 0] }
}

#[test]
fn meter_counts_each_kind() {
    let mut m = FacilityMeter::new();
    assert_eq!(m, FacilityMeter { s_cnt: 0, f_cnt: 0, dp_cnt: 0, dc_cnt: 0 });
    m.inc_success();
    m.inc_failure();
    m.inc_failure();
    m.inc_dispatch();
    m.inc_dispatch();
    m.inc_dispatch();
    m.inc_discard();
    assert_eq!(m, FacilityMeter { s_cnt: 1, f_cnt: 2, dp_cnt: 3, dc_cnt: 1 });
}

#[test]
fn report_hands_out_counts_and_resets() {
    let mut m = FacilityMeter::new();
    m.inc_success();
    m.inc_discard();
    let r = m.report();
    assert_eq!(r, FacilityMeter { s_cnt: 1, f_cnt: 0, dp_cnt: 0, dc_cnt: 1 });
    assert_eq!(m, FacilityMeter::new());
}

#[test]
fn probe_is_answered_from_the_true_table() {
    let table = vec![(addr(2), seg(2)), (addr(3), seg(3))];
    let mut f = Facility::new(5, &table);
    assert_eq!(f.step(Command::Broadcast(addr(3))), vec![Event::Success(addr(3), seg(3))]);
    assert_eq!(f.step(Command::Broadcast(addr(9))), vec![Event::Failure(addr(9))]);
    assert_eq!(f.ended(), 0);
    assert_eq!(f.report(), FacilityMeter { s_cnt: 1, f_cnt: 1, dp_cnt: 0, dc_cnt: 0 });
}

#[test]
fn later_pair_replaces_earlier_in_the_true_table() {
    let table = vec![(addr(2), seg(2)), (addr(2), seg(8))];
    let mut f = Facility::new(5, &table);
    assert_eq!(f.step(Command::Broadcast(addr(2))), vec![Event::Success(addr(2), seg(8))]);
}

#[test]
fn shutdown_follows_the_last_awaited_frame() {
    let mut f = Facility::new(2, &Vec::new());
    assert!(f.can_step());
    assert!(f.step(Command::Dispatch(frame(1), seg(1))).is_empty());
    assert_eq!(f.ended(), 1);
    assert_eq!(f.step(Command::Discard(frame(2))), vec![Event::Shutdown]);
    assert_eq!(f.ended(), 2);
    assert_eq!(f.report(), FacilityMeter { s_cnt: 0, f_cnt: 0, dp_cnt: 1, dc_cnt: 1 });
}

#[test]
fn probe_with_nothing_awaited_is_answered_and_shuts_down() {
    let mut f = Facility::new(0, &Vec::new());
    assert_eq!(f.step(Command::Broadcast(addr(4))), vec![Event::Failure(addr(4)), Event::Shutdown]);
}

#[test]
fn facility_stops_behind_the_completing_command() {
    let table = vec![(addr(2), seg(2))];
    let commands = vec![
        Command::Broadcast(addr(2)),
        Command::Dispatch(frame(1), seg(2)),
        Command::Broadcast(addr(7)),
        Command::Discard(frame(2)),
        Command::Dispatch(frame(3), seg(2)),
    ];
    let (events, taken) = facility(2, &table, &commands);
    assert_eq!(taken, 4);
    assert_eq!(
        events,
        vec![Event::Success(addr(2), seg(2)), Event::Failure(addr(7)), Event::Shutdown]
    );
}

#[test]
fn facility_takes_all_where_the_run_is_not_completed() {
    let commands = vec![Command::Dispatch(frame(1), seg(2)), Command::Broadcast(addr(7))];
    let (events, taken) = facility(3, &Vec::new(), &commands);
    assert_eq!(taken, 2);
    assert_eq!(events, vec![Event::Failure(addr(7))]);
}

#[test]
fn full_meter_cannot_step() {
    let mut f = Facility::new(usize::MAX, &Vec::new());
    assert!(f.can_step());
    f.step(Command::Discard(frame(1)));
    assert!(f.can_step());
    assert_eq!(f.ended(), 1);
}

#[test]
fn report_keeps_the_count_of_ended_frames() {
    let mut f = Facility::new(3, &Vec::new());
    f.step(Command::Dispatch(frame(1), seg(1)));
    f.step(Command::Discard(frame(2)));
    f.report();
    assert_eq!(f.ended(), 2);
    assert_eq!(f.report(), FacilityMeter::new());
    assert_eq!(f.step(Command::Discard(frame(3))), vec![Event::Shutdown]);
}
