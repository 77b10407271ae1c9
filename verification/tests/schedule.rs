use net_exp_bridge::bridge::Event;
use net_exp_bridge::schedule::{check_cuts, distribute, Replay};
use net_exp_bridge::{Address, Frame, Segment};

fn frame(tag: u8) -> Frame {
    Frame {
        src: Address { data: [1, 1, 1, 1] },
        src_seg: Segment { data: [0, 1] },
        dst: Address { data: [2, 2, 2, 2] },
        data: [tag, 0, 0, 0],
    }
}

fn frames(n: u8) -> Vec<Frame> {
    (0..n).map(frame).collect()
}

#[test]
fn buckets_take_the_frames_between_cuts() {
    let fs = frames(10);
    let buckets = distribute(&fs, &vec![0, 1, 4, 4, 8]);
    assert_eq!(buckets.len(), 5);
    assert_eq!(buckets[0], Vec::<Frame>::new());
    assert_eq!(buckets[1], fs[0..1].to_vec());
    assert_eq!(buckets[2], fs[1..4].to_vec());
    assert_eq!(buckets[3], Vec::<Frame>::new());
    assert_eq!(buckets[4], fs[4..10].to_vec());
}

#[test]
fn bucket_sizes_add_up_to_the_number_of_frames() {
    let fs = frames(37);
    let cuts = vec![0, 0, 2, 5, 11, 18, 26, 32, 35, 36];
    let buckets = distribute(&fs, &cuts);
    assert_eq!(buckets.iter().map(|b| b.len()).sum::<usize>(), 37);
    assert_eq!(buckets.concat(), fs);
}

#[test]
fn no_frames_give_empty_buckets() {
    let buckets = distribute(&Vec::new(), &vec![0, 0, 0]);
    assert_eq!(buckets, vec![Vec::<Frame>::new(); 3]);
    assert!(distribute(&Vec::new(), &Vec::new()).is_empty());
}

#[test]
fn single_bucket_takes_everything() {
    let fs = frames(4);
    assert_eq!(distribute(&fs, &vec![0]), vec![fs.clone()]);
}

#[test]
fn replay_sends_buckets_as_time_passes() {
    let fs = frames(6);
    let buckets = distribute(&fs, &vec![0, 2, 3, 5]);
    let mut r = Replay::new(buckets);
    assert!(r.tick(0).is_empty());
    assert_eq!(r.last, 0);
    assert!(r.tick(1).is_empty());
    assert_eq!(r.last, 1);
    assert_eq!(r.tick(3), vec![Event::Request(fs[0]), Event::Request(fs[1]), Event::Request(fs[2])]);
    assert_eq!(r.last, 3);
    assert!(r.tick(2).is_empty());
    assert_eq!(r.last, 3);
    assert!(!r.is_done());
    assert_eq!(r.tick(4), vec![Event::Request(fs[3]), Event::Request(fs[4]), Event::Request(fs[5])]);
    assert!(r.is_done());
    assert!(r.tick(9).is_empty());
}

#[test]
fn replay_flushes_the_tail_when_time_has_run_out() {
    let fs = frames(5);
    let mut r = Replay::new(distribute(&fs, &vec![0, 1, 2, 3]));
    let sent = r.tick(1000);
    assert_eq!(sent.len(), 5);
    assert_eq!(sent[4], Event::Request(fs[4]));
    assert!(r.is_done());
}

#[test]
fn cuts_must_not_step_back_nor_pass_the_end() {
    assert!(check_cuts(&vec![0, 1, 1, 4], 4));
    assert!(check_cuts(&Vec::new(), 0));
    assert!(!check_cuts(&vec![0, 2, 1], 4));
    assert!(!check_cuts(&vec![0, 5], 4));
}

#[test]
fn replay_mark_must_lie_within_the_schedule() {
    let mut r = Replay::new(vec![frames(1), frames(2)]);
    assert!(r.is_sound());
    r.last = 2;
    assert!(r.is_sound() && r.is_done());
    r.last = 3;
    assert!(!r.is_sound());
}

#[test]
fn ticks_hand_out_every_frame_once_and_in_order() {
    let fs = frames(20);
    let mut r = Replay::new(distribute(&fs, &vec![0, 3, 3, 9, 14, 15]));
    let mut sent = Vec::new();
    for cur in [0u64, 2, 2, 3, 5, 7] {
        sent.extend(r.tick(cur));
    }
    let expected: Vec<Event> = fs.iter().map(|f| Event::Request(*f)).collect();
    assert_eq!(sent, expected);
}
