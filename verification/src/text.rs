//! The written form of addresses, segments and frames: two lower-case hex
//! digits for each byte, bytes parted by a colon, the fields of a frame
//! parted by a space.

use crate::model::{Address, Frame, Segment};
use vstd::prelude::*;
use vstd::string::*;

verus! {

/// `String::push` appends one character to the end of the string.
pub assume_specification[ String::push ](s: &mut String, c: char)
    ensures
        final(s)@ == old(s)@.push(c),
;

/// The lower-case hex digit for a number below sixteen.
pub open spec fn hex_char(n: int) -> char {
    if n < 10 {
        ('0' as int + n) as char
    } else {
        ('a' as int + n - 10) as char
    }
}

/// The number that a hex digit of either case stands for.
pub open spec fn hex_value(c: char) -> Option<int> {
    if '0' <= c <= '9' {
        Some(c as int - '0' as int)
    } else if 'a' <= c <= 'f' {
        Some(c as int - 'a' as int + 10)
    } else if 'A' <= c <= 'F' {
        Some(c as int - 'A' as int + 10)
    } else {
        None
    }
}

/// Whether a character is an upper-case hex digit above nine.
pub open spec fn is_upper_digit(c: char) -> bool {
    'A' <= c <= 'F'
}

/// The two hex digits of a byte, the high one first.
pub open spec fn byte_text(b: u8) -> Seq<char> {
    seq![hex_char(b as int / 16), hex_char(b as int % 16)]
}

/// The byte that the two characters at `i` and `i + 1` spell, if both are
/// hex digits.
pub open spec fn byte_at(s: Seq<char>, i: int) -> Option<u8>
    recommends
        0 <= i,
        i + 1 < s.len(),
{
    match (hex_value(s[i]), hex_value(s[i + 1])) {
        (Some(h), Some(l)) => Some((h * 16 + l) as u8),
        _ => None,
    }
}

/// Whether a character is its own single byte in the text.
pub open spec fn is_plain(c: char) -> bool {
    c <= '\x7f'
}

/// The text of an address: the four bytes in hex, colons between them.
pub open spec fn address_text(d: Seq<u8>) -> Seq<char>
    recommends
        d.len() == 4,
{
    byte_text(d[0]) + seq![':'] + byte_text(d[1]) + seq![':'] + byte_text(d[2]) + seq![':']
        + byte_text(d[3])
}

/// The four bytes that a text spells as an address, if it does: eleven
/// characters, two hex digits of either case in each place of a byte, and
/// one plain character of any kind between two bytes.
pub open spec fn address_bytes(s: Seq<char>) -> Option<Seq<u8>> {
    if s.len() == 11 && byte_at(s, 0) is Some && byte_at(s, 3) is Some && byte_at(s, 6) is Some
        && byte_at(s, 9) is Some && is_plain(s[2]) && is_plain(s[5]) && is_plain(s[8]) {
        Some(
            seq![
                byte_at(s, 0).unwrap(),
                byte_at(s, 3).unwrap(),
                byte_at(s, 6).unwrap(),
                byte_at(s, 9).unwrap(),
            ],
        )
    } else {
        None
    }
}

/// The text of a segment: the two bytes in hex, a colon between them.
pub open spec fn segment_text(d: Seq<u8>) -> Seq<char>
    recommends
        d.len() == 2,
{
    byte_text(d[0]) + seq![':'] + byte_text(d[1])
}

/// The two bytes that a text spells as a segment, if it does: five
/// characters, two hex digits of either case for each byte and one plain
/// character of any kind between them.
pub open spec fn segment_bytes(s: Seq<char>) -> Option<Seq<u8>> {
    if s.len() == 5 && byte_at(s, 0) is Some && byte_at(s, 3) is Some && is_plain(s[2]) {
        Some(seq![byte_at(s, 0).unwrap(), byte_at(s, 3).unwrap()])
    } else {
        None
    }
}

/// The text of a payload: the four bytes in hex, nothing between them.
pub open spec fn payload_text(d: Seq<u8>) -> Seq<char>
    recommends
        d.len() == 4,
{
    byte_text(d[0]) + byte_text(d[1]) + byte_text(d[2]) + byte_text(d[3])
}

/// The four bytes that a text spells as a payload, if it does: eight hex
/// digits of either case.
pub open spec fn payload_bytes(s: Seq<char>) -> Option<Seq<u8>> {
    if s.len() == 8 && byte_at(s, 0) is Some && byte_at(s, 2) is Some && byte_at(s, 4) is Some
        && byte_at(s, 6) is Some {
        Some(
            seq![
                byte_at(s, 0).unwrap(),
                byte_at(s, 2).unwrap(),
                byte_at(s, 4).unwrap(),
                byte_at(s, 6).unwrap(),
            ],
        )
    } else {
        None
    }
}

/// Reading the two digits of a byte gives the byte back.
pub proof fn lemma_byte_round_trip(b: u8)
    ensures
        byte_at(byte_text(b), 0) == Some(b),
{
}

/// Writing the two digits of what was read gives lower-case digits back:
/// the same text, where its digits were lower-case.
pub proof fn lemma_byte_text_of_read(s: Seq<char>, i: int)
    requires
        0 <= i,
        i + 1 < s.len(),
        byte_at(s, i) is Some,
        !is_upper_digit(s[i]),
        !is_upper_digit(s[i + 1]),
    ensures
        byte_text(byte_at(s, i).unwrap()) == seq![s[i], s[i + 1]],
{
    let h = hex_value(s[i]).unwrap();
    let l = hex_value(s[i + 1]).unwrap();
    assert((h * 16 + l) / 16 == h && (h * 16 + l) % 16 == l);
    assert(hex_char(h) == s[i]);
    assert(hex_char(l) == s[i + 1]);
    assert(byte_text(byte_at(s, i).unwrap()) =~= seq![s[i], s[i + 1]]);
}

fn digit(n: u8) -> (c: char)
    requires
        n < 16,
    ensures
        c == hex_char(n as int),
{
    if n < 10 {
        ('0' as u8 + n) as char
    } else {
        ('a' as u8 + (n - 10)) as char
    }
}

fn digit_value(c: char) -> (v: Option<u8>)
    ensures
        match v {
            Some(n) => hex_value(c) == Some(n as int) && n < 16,
            None => hex_value(c) is None,
        },
{
    if '0' <= c && c <= '9' {
        Some((c as u32 - '0' as u32) as u8)
    } else if 'a' <= c && c <= 'f' {
        Some((c as u32 - 'a' as u32 + 10) as u8)
    } else if 'A' <= c && c <= 'F' {
        Some((c as u32 - 'A' as u32 + 10) as u8)
    } else {
        None
    }
}

fn push_byte(out: &mut String, b: u8)
    ensures
        final(out)@ == old(out)@ + byte_text(b),
{
    out.push(digit(b / 16));
    out.push(digit(b % 16));
    assert(out@ =~= old(out)@ + byte_text(b));
}

fn read_byte(s: &str, i: usize) -> (b: Option<u8>)
    requires
        i < 100,
        i + 1 < s@.len(),
    ensures
        b == byte_at(s@, i as int),
{
    let h = digit_value(s.get_char(i));
    let l = digit_value(s.get_char(i + 1));
    match (h, l) {
        (Some(h), Some(l)) => Some(h * 16 + l),
        _ => None,
    }
}

fn read_plain(s: &str, i: usize) -> (b: bool)
    requires
        i < s@.len(),
    ensures
        b == is_plain(s@[i as int]),
{
    s.get_char(i) <= '\x7f'
}

impl Address {
    /// The written form: `xx:xx:xx:xx`.
    pub open spec fn spec_text(&self) -> Seq<char> {
        address_text(self.data@)
    }

    /// The address in its written form, eleven characters.
    pub fn to_string(&self) -> (s: String)
        ensures
            s@ == self.spec_text(),
            s@.len() == 11,
    {
        let mut out = String::new();
        push_byte(&mut out, self.data[0]);
        out.push(':');
        push_byte(&mut out, self.data[1]);
        out.push(':');
        push_byte(&mut out, self.data[2]);
        out.push(':');
        push_byte(&mut out, self.data[3]);
        assert(out@ =~= address_text(self.data@));
        out
    }

    /// Read an address from its written form. The text is taken where it
    /// has eleven characters, two hex digits of either case in each of the
    /// four places of a byte and a plain character between two bytes; every
    /// other text is malformed.
    pub fn try_from(value: &str) -> (r: Result<Address, ()>)
        ensures
            match r {
                Ok(a) => address_bytes(value@) == Some(a.data@),
                Err(_) => address_bytes(value@) is None,
            },
    {
        if value.unicode_len() != 11 {
            return Err(());
        }
        let b0 = read_byte(value, 0);
        let b1 = read_byte(value, 3);
        let b2 = read_byte(value, 6);
        let b3 = read_byte(value, 9);
        let plain = read_plain(value, 2) && read_plain(value, 5) && read_plain(value, 8);
        match (b0, b1, b2, b3) {
            (Some(b0), Some(b1), Some(b2), Some(b3)) => {
                if plain {
                    let a = Address { data: [b0, b1, b2, b3] };
                    assert(a.data@ =~= seq![b0, b1, b2, b3]);
                    Ok(a)
                } else {
                    Err(())
                }
            },
            _ => Err(()),
        }
    }

    /// Writing an address and reading it again gives the address back.
    pub proof fn lemma_text_round_trip(self)
        ensures
            address_bytes(self.spec_text()) == Some(self.data@),
    {
        let d = self.data@;
        lemma_byte_round_trip(d[0]);
        lemma_byte_round_trip(d[1]);
        lemma_byte_round_trip(d[2]);
        lemma_byte_round_trip(d[3]);
        assert(address_bytes(self.spec_text()).unwrap() =~= d);
    }

    /// Reading a text with lower-case digits and colons, and writing what
    /// was read, gives the text back.
    pub proof fn lemma_read_round_trip(s: Seq<char>)
        requires
            address_bytes(s) is Some,
            s[2] == ':' && s[5] == ':' && s[8] == ':',
            forall|i: int| 0 <= i < 11 ==> !is_upper_digit(#[trigger] s[i]),
        ensures
            address_text(address_bytes(s).unwrap()) == s,
    {
        lemma_byte_text_of_read(s, 0);
        lemma_byte_text_of_read(s, 3);
        lemma_byte_text_of_read(s, 6);
        lemma_byte_text_of_read(s, 9);
        assert(address_text(address_bytes(s).unwrap()) =~= s);
    }
}

impl Segment {
    /// The written form: `xx:xx`.
    pub open spec fn spec_text(&self) -> Seq<char> {
        segment_text(self.data@)
    }

    /// The segment in its written form, five characters.
    pub fn to_string(&self) -> (s: String)
        ensures
            s@ == self.spec_text(),
            s@.len() == 5,
    {
        let mut out = String::new();
        push_byte(&mut out, self.data[0]);
        out.push(':');
        push_byte(&mut out, self.data[1]);
        assert(out@ =~= segment_text(self.data@));
        out
    }

    /// Read a segment from its written form: five characters, two hex
    /// digits of either case for each byte and a plain character between;
    /// every other text is malformed.
    pub fn try_from(value: &str) -> (r: Result<Segment, ()>)
        ensures
            match r {
                Ok(a) => segment_bytes(value@) == Some(a.data@),
                Err(_) => segment_bytes(value@) is None,
            },
    {
        if value.unicode_len() != 5 {
            return Err(());
        }
        let b0 = read_byte(value, 0);
        let b1 = read_byte(value, 3);
        let plain = read_plain(value, 2);
        match (b0, b1) {
            (Some(b0), Some(b1)) => {
                if plain {
                    let a = Segment { data: [b0, b1] };
                    assert(a.data@ =~= seq![b0, b1]);
                    Ok(a)
                } else {
                    Err(())
                }
            },
            _ => Err(()),
        }
    }

    /// Writing a segment and reading it again gives the segment back.
    pub proof fn lemma_text_round_trip(self)
        ensures
            segment_bytes(self.spec_text()) == Some(self.data@),
    {
        let d = self.data@;
        lemma_byte_round_trip(d[0]);
        lemma_byte_round_trip(d[1]);
        assert(segment_bytes(self.spec_text()).unwrap() =~= d);
    }
}

/// The text of a frame: source, entry segment, destination and payload,
/// with one space between two fields.
pub open spec fn frame_text(f: Frame) -> Seq<char> {
    address_text(f.src.data@) + seq![' '] + segment_text(f.src_seg.data@) + seq![' ']
        + address_text(f.dst.data@) + seq![' '] + payload_text(f.data@)
}

/// Whether a text has the layout of a frame: thirty-eight characters, with
/// a space behind the source, the entry segment and the destination.
pub open spec fn has_frame_layout(s: Seq<char>) -> bool {
    s.len() == 38 && s[11] == ' ' && s[17] == ' ' && s[29] == ' '
}

/// Whether a text spells a frame: it has the layout of one, and each field
/// spells its bytes.
pub open spec fn spells_frame(s: Seq<char>) -> bool {
    &&& has_frame_layout(s)
    &&& address_bytes(s.subrange(0, 11)) is Some
    &&& segment_bytes(s.subrange(12, 17)) is Some
    &&& address_bytes(s.subrange(18, 29)) is Some
    &&& payload_bytes(s.subrange(30, 38)) is Some
}

impl Frame {
    /// The written form: `<src> <src_seg> <dst> <payload>`.
    pub open spec fn spec_text(&self) -> Seq<char> {
        frame_text(*self)
    }

    /// The frame in its written form, thirty-eight characters.
    pub fn to_string(&self) -> (s: String)
        ensures
            s@ == self.spec_text(),
            s@.len() == 38,
    {
        let mut out = self.src.to_string();
        out.push(' ');
        let seg = self.src_seg.to_string();
        out.append(seg.as_str());
        out.push(' ');
        let dst = self.dst.to_string();
        out.append(dst.as_str());
        out.push(' ');
        push_byte(&mut out, self.data[0]);
        push_byte(&mut out, self.data[1]);
        push_byte(&mut out, self.data[2]);
        push_byte(&mut out, self.data[3]);
        assert(out@ =~= frame_text(*self));
        out
    }

    /// Read a frame from its written form. The payload is four bytes, as in
    /// the frame itself. A text that does not spell a frame is malformed.
    pub fn try_from(value: &str) -> (r: Result<Frame, ()>)
        ensures
            r is Ok <==> spells_frame(value@),
            r matches Ok(f) ==> {
                &&& address_bytes(value@.subrange(0, 11)) == Some(f.src.data@)
                &&& segment_bytes(value@.subrange(12, 17)) == Some(f.src_seg.data@)
                &&& address_bytes(value@.subrange(18, 29)) == Some(f.dst.data@)
                &&& payload_bytes(value@.subrange(30, 38)) == Some(f.data@)
            },
    {
        if value.unicode_len() != 38 {
            return Err(());
        }
        if value.get_char(11) != ' ' || value.get_char(17) != ' ' || value.get_char(29) != ' ' {
            return Err(());
        }
        let src = match Address::try_from(value.substring_char(0, 11)) {
            Ok(a) => a,
            Err(_) => {
                return Err(());
            },
        };
        let src_seg = match Segment::try_from(value.substring_char(12, 17)) {
            Ok(a) => a,
            Err(_) => {
                return Err(());
            },
        };
        let dst = match Address::try_from(value.substring_char(18, 29)) {
            Ok(a) => a,
            Err(_) => {
                return Err(());
            },
        };
        let payload = value.substring_char(30, 38);
        let b0 = read_byte(payload, 0);
        let b1 = read_byte(payload, 2);
        let b2 = read_byte(payload, 4);
        let b3 = read_byte(payload, 6);
        match (b0, b1, b2, b3) {
            (Some(b0), Some(b1), Some(b2), Some(b3)) => {
                let f = Frame { src, src_seg, dst, data: [b0, b1, b2, b3] };
                assert(f.data@ =~= seq![b0, b1, b2, b3]);
                Ok(f)
            },
            _ => Err(()),
        }
    }

    /// Writing a frame and reading it again gives the frame back.
    pub proof fn lemma_text_round_trip(self)
        ensures
            spells_frame(self.spec_text()),
            address_bytes(self.spec_text().subrange(0, 11)) == Some(self.src.data@),
            segment_bytes(self.spec_text().subrange(12, 17)) == Some(self.src_seg.data@),
            address_bytes(self.spec_text().subrange(18, 29)) == Some(self.dst.data@),
            payload_bytes(self.spec_text().subrange(30, 38)) == Some(self.data@),
    {
        let s = self.spec_text();
        self.src.lemma_text_round_trip();
        self.src_seg.lemma_text_round_trip();
        self.dst.lemma_text_round_trip();
        assert(s.subrange(0, 11) =~= self.src.spec_text());
        assert(s.subrange(12, 17) =~= self.src_seg.spec_text());
        assert(s.subrange(18, 29) =~= self.dst.spec_text());
        assert(s.subrange(30, 38) =~= payload_text(self.data@));
        let d = self.data@;
        lemma_byte_round_trip(d[0]);
        lemma_byte_round_trip(d[1]);
        lemma_byte_round_trip(d[2]);
        lemma_byte_round_trip(d[3]);
        assert(payload_bytes(payload_text(d)).unwrap() =~= d);
    }
}

} // verus!
