use net_exp_bridge::holder::Holder;
use net_exp_bridge::model::{Address, Frame, Segment};

fn frame(src: u8, dst: u8, tag: u8) -> Frame {
    Frame {
        src: Address { data: [10, 0, 0, src] },
        src_seg: Segment { data: [0, src] },
        dst: Address { data: [10, 0, 0, dst] },
        data: [tag, 0, 0, 0],
    }
}

#[test]
fn new_holder_is_empty() {
    let h = Holder::new();
    assert_eq!(h.len(), 0);
    assert!(!h.exist_addr(&Address { data: [10, 0, 0, 1] }));
}

#[test]
fn hold_keeps_arrival_order_per_destination() {
    let mut h = Holder::new();
    h.hold(frame(1, 9, 1));
    h.hold(frame(2, 8, 2));
    h.hold(frame(3, 9, 3));
    assert_eq!(h.len(), 2);
    assert!(h.exist_addr(&Address { data: [10, 0, 0, 9] }));
    let out = h.release(Address { data: [10, 0, 0, 9] });
    assert_eq!(out, vec![frame(1, 9, 1), frame(3, 9, 3)]);
    assert_eq!(h.len(), 1);
    assert!(!h.exist_addr(&Address { data: [10, 0, 0, 9] }));
}

#[test]
fn release_of_absent_address_is_empty() {
    let mut h = Holder::new();
    h.hold(frame(1, 9, 1));
    let out = h.release(Address { data: [10, 0, 0, 7] });
    assert!(out.is_empty());
    assert_eq!(h.len(), 1);
}
