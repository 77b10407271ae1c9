use net_exp_bridge::{Address, Frame, Segment};

#[test]
fn address_text_is_lower_case_hex_with_colons() {
    assert_eq!(Address { data: [0, 10, 171, 255] }.to_string(), "00:0a:ab:ff");
    assert_eq!(Address { data: [18, 52, 86, 120] }.to_string(), "12:34:56:78");
}

#[test]
fn segment_text_is_lower_case_hex_with_colon() {
    assert_eq!(Segment { data: [1, 254] }.to_string(), "01:fe");
}

#[test]
fn address_is_read_from_text() {
    assert_eq!(Address::try_from("00:0a:ab:ff"), Ok(Address { data: [0, 10, 171, 255] }));
    assert_eq!(Address::try_from("DE:AD:be:EF"), Ok(Address { data: [0xde, 0xad, 0xbe, 0xef] }));
}

#[test]
fn address_text_round_trips() {
    for k in [0u32, 1, 0x0102_0304, 0x7fff_ffff, 0xdead_beef, u32::MAX] {
        let a = Address::from_key(k);
        let text = a.to_string();
        assert_eq!(text.len(), 11);
        assert_eq!(Address::try_from(text.as_str()), Ok(a));
    }
    assert_eq!(Address::try_from("9f:00:c3:1b").unwrap().to_string(), "9f:00:c3:1b");
}

#[test]
fn malformed_address_is_rejected() {
    assert_eq!(Address::try_from(""), Err(()));
    assert_eq!(Address::try_from("00:0a:ab:f"), Err(()));
    assert_eq!(Address::try_from("00:0a:ab:ff0"), Err(()));
    assert_eq!(Address::try_from("00:0g:ab:ff"), Err(()));
    assert_eq!(Address::try_from("+1:0a:ab:ff"), Err(()));
    assert_eq!(Address::try_from("00:0a:ab: f"), Err(()));
    assert_eq!(Address::try_from("00\u{e9}0a:ab:ff"), Err(()));
}

#[test]
fn segment_is_read_from_text() {
    assert_eq!(Segment::try_from("01:fe"), Ok(Segment { data: [1, 254] }));
    assert_eq!(Segment::try_from("01:f"), Err(()));
    assert_eq!(Segment::try_from("01:fx"), Err(()));
    assert_eq!(Segment::try_from("01:fe:"), Err(()));
    let s = Segment { data: [0xab, 0xcd] };
    assert_eq!(Segment::try_from(s.to_string().as_str()), Ok(s));
}

#[test]
fn frame_text_parts_fields_by_spaces() {
    let f = Frame {
        src: Address { data: [1, 2, 3, 4] },
        src_seg: Segment { data: [5, 6] },
        dst: Address { data: [7, 8, 9, 10] },
        data: [11, 12, 13, 255],
    };
    assert_eq!(f.to_string(), "01:02:03:04 05:06 07:08:09:0a 0b0c0dff");
    assert_eq!(Frame::try_from("01:02:03:04 05:06 07:08:09:0a 0b0c0dff"), Ok(f));
    assert_eq!(Frame::try_from(f.to_string().as_str()), Ok(f));
}

#[test]
fn malformed_frame_is_rejected() {
    assert_eq!(Frame::try_from(""), Err(()));
    assert_eq!(Frame::try_from("01:02:03:04 05:06 07:08:09:0a"), Err(()));
    assert_eq!(Frame::try_from("01:02:03:04 05:06 07:08:09:0a 0b0c0d"), Err(()));
    assert_eq!(Frame::try_from("01:02:03:04 05:06 07:08:09:0a 0b0c0dfg"), Err(()));
    assert_eq!(Frame::try_from("01:02:03:04_05:06 07:08:09:0a 0b0c0dff"), Err(()));
    assert_eq!(Frame::try_from("01:02:03:0x 05:06 07:08:09:0a 0b0c0dff"), Err(()));
    assert_eq!(Frame::try_from("01:02:03:04 05:0x 07:08:09:0a 0b0c0dff"), Err(()));
    assert_eq!(Frame::try_from("01:02:03:04 05:06 07:08:09:0x 0b0c0dff"), Err(()));
}
