use net_exp_bridge::model::{Address, Frame, Segment};

#[test]
fn address_key_is_big_endian() {
    assert_eq!(Address { data: [1, 2, 3, 4] }.key(), 0x0102_0304);
    assert_eq!(Address { data: [0, 0, 0, 0] }.key(), 0);
    assert_eq!(Address { data: [255, 255, 255, 255] }.key(), u32::MAX);
}

#[test]
fn address_from_key_inverts_key() {
    for k in [0u32, 1, 255, 256, 0x0102_0304, 0xdead_beef, u32::MAX] {
        assert_eq!(Address::from_key(k).key(), k);
    }
    assert_eq!(Address::from_key(0x0a0b_0c0d), Address { data: [10, 11, 12, 13] });
}

#[test]
fn key_order_is_address_order() {
    let a = Address { data: [1, 255, 0, 0] };
    let b = Address { data: [2, 0, 0, 0] };
    assert!(a < b);
    assert!(a.key() < b.key());
}

#[test]
fn segment_key_is_big_endian() {
    assert_eq!(Segment { data: [1, 2] }.key(), 0x0102);
    assert_eq!(Segment { data: [255, 255] }.key(), u16::MAX);
}

#[test]
fn frame_key_holds_every_field() {
    let f = Frame {
        src: Address { data: [1, 2, 3, 4] },
        src_seg: Segment { data: [5, 6] },
        dst: Address { data: [7, 8, 9, 10] },
        data: [11, 12, 13, 14],
    };
    assert_eq!(f.key(), 0x0102_0304_0506_0708_090a_0b0c_0d0e);
    let g = Frame { data: [11, 12, 13, 15], ..f };
    assert_ne!(f.key(), g.key());
}

#[test]
fn key_order_follows_bytes_at_each_place() {
    let pairs = [
        ([0u8, 0, 0, 1], [0u8, 0, 1, 0]),
        ([0, 255, 255, 255], [1, 0, 0, 0]),
        ([7, 7, 7, 7], [7, 7, 7, 8]),
        ([7, 7, 6, 255], [7, 7, 7, 0]),
    ];
    for (a, b) in pairs {
        let (a, b) = (Address { data: a }, Address { data: b });
        assert!(a < b && a.key() < b.key());
        assert!(!(b.key() < a.key()));
    }
    let (s, t) = (Segment { data: [0, 255] }, Segment { data: [1, 0] });
    assert!(s < t && s.key() < t.key());
}
