//! Addresses, segments and frames, and the integer keys by which the
//! bridge's tables find them.

use vstd::prelude::*;

verus! {

/// Payload carried by a frame.
pub type FrameData = [u8; 4];

/// Physical address of an endpoint: four bytes, ordered byte by byte.
#[derive(Debug, Copy, Clone, Eq, PartialEq, Ord, PartialOrd, Hash)]
pub struct Address {
    pub data: [u8; 4],
}

/// Identifier of a network segment: two bytes, ordered byte by byte.
#[derive(Debug, Copy, Clone, Eq, PartialEq, Ord, PartialOrd, Hash)]
pub struct Segment {
    pub data: [u8; 2],
}

/// One routed message, with the segment on which it entered the bridge.
#[derive(Debug, Copy, Clone, Eq, PartialEq, Hash)]
pub struct Frame {
    pub src: Address,
    pub src_seg: Segment,
    pub dst: Address,
    pub data: FrameData,
}

/// The big-endian number that four bytes spell.
pub open spec fn be32(b: Seq<u8>) -> int
    recommends
        b.len() == 4,
{
    b[0] as int * 16777216 + b[1] as int * 65536 + b[2] as int * 256 + b[3] as int
}

/// The big-endian number that two bytes spell.
pub open spec fn be16(b: Seq<u8>) -> int
    recommends
        b.len() == 2,
{
    b[0] as int * 256 + b[1] as int
}

/// Whether bytes come before other bytes in the order that goes byte by
/// byte: at the first place where they differ, the first have the smaller
/// byte.
pub open spec fn precedes(a: Seq<u8>, b: Seq<u8>) -> bool {
    exists|i: int|
        0 <= i < a.len() && i < b.len() && #[trigger] a[i] < b[i] && a.take(i) == b.take(i)
}

impl Address {
    /// The address as one integer, its first byte the most significant.
    pub open spec fn spec_key(&self) -> u32 {
        be32(self.data@) as u32
    }

    /// The key under which the tables file this address.
    #[verifier::when_used_as_spec(spec_key)]
    pub fn key(&self) -> (k: u32)
        ensures
            k == self.spec_key(),
            k as int == be32(self.data@),
    {
        let a: u32 = self.data[0] as u32;
        let b: u32 = self.data[1] as u32;
        let c: u32 = self.data[2] as u32;
        let d: u32 = self.data[3] as u32;
        a * 16777216 + b * 65536 + c * 256 + d
    }

    /// The address that a key stands for.
    pub fn from_key(k: u32) -> (a: Address)
        ensures
            a.spec_key() == k,
    {
        let a: u8 = (k / 16777216) as u8;
        let b: u8 = ((k / 65536) % 256) as u8;
        let c: u8 = ((k / 256) % 256) as u8;
        let d: u8 = (k % 256) as u8;
        Address { data: [a, b, c, d] }
    }

    /// The order of keys is the byte-wise order of addresses.
    pub proof fn key_keeps_order(self, other: Address)
        ensures
            self.spec_key() < other.spec_key() <==> precedes(self.data@, other.data@),
    {
        let a = self.data@;
        let b = other.data@;
        if precedes(a, b) {
            let i = choose|i: int|
                0 <= i < a.len() && i < b.len() && #[trigger] a[i] < b[i] && a.take(i) == b.take(i);
            assert forall|j: int| 0 <= j < i implies a[j] == b[j] by {
                assert(a.take(i)[j] == b.take(i)[j]);
            }
        }
        if self.spec_key() < other.spec_key() {
            let i: int = if a[0] != b[0] {
                0
            } else if a[1] != b[1] {
                1
            } else if a[2] != b[2] {
                2
            } else {
                3
            };
            assert(a[i] < b[i]);
            assert(a.take(i) =~= b.take(i));
        }
    }

    /// Two addresses with one key are one address.
    pub proof fn key_is_injective(self, other: Address)
        ensures
            self.spec_key() == other.spec_key() <==> self == other,
    {
        if self.spec_key() == other.spec_key() {
            assert(self.data@ =~= other.data@);
            assert(self.data == other.data);
        }
    }
}

impl Segment {
    /// The segment as one integer, in the byte-wise order of segments.
    pub open spec fn spec_key(&self) -> u16 {
        be16(self.data@) as u16
    }

    /// The segment's two bytes as one integer.
    #[verifier::when_used_as_spec(spec_key)]
    pub fn key(&self) -> (k: u16)
        ensures
            k == self.spec_key(),
            k as int == be16(self.data@),
    {
        let a: u16 = self.data[0] as u16;
        let b: u16 = self.data[1] as u16;
        a * 256 + b
    }

    /// The order of keys is the byte-wise order of segments.
    pub proof fn key_keeps_order(self, other: Segment)
        ensures
            self.spec_key() < other.spec_key() <==> precedes(self.data@, other.data@),
    {
        let a = self.data@;
        let b = other.data@;
        if precedes(a, b) {
            let i = choose|i: int|
                0 <= i < a.len() && i < b.len() && #[trigger] a[i] < b[i] && a.take(i) == b.take(i);
            assert forall|j: int| 0 <= j < i implies a[j] == b[j] by {
                assert(a.take(i)[j] == b.take(i)[j]);
            }
        }
        if self.spec_key() < other.spec_key() {
            let i: int = if a[0] != b[0] {
                0
            } else {
                1
            };
            assert(a[i] < b[i]);
            assert(a.take(i) =~= b.take(i));
        }
    }

    /// Two segments with one key are one segment.
    pub proof fn key_is_injective(self, other: Segment)
        ensures
            self.spec_key() == other.spec_key() <==> self == other,
    {
        if self.spec_key() == other.spec_key() {
            assert(self.data@ =~= other.data@);
            assert(self.data == other.data);
        }
    }
}

impl Frame {
    /// The frame's fourteen bytes as one integer: source, entry segment,
    /// destination and payload, most significant first.
    pub open spec fn spec_key(&self) -> u128 {
        (self.src.spec_key() as int * 0x1_0000_0000_0000_0000_0000
            + self.src_seg.spec_key() as int * 0x1_0000_0000_0000_0000
            + self.dst.spec_key() as int * 0x1_0000_0000
            + be32(self.data@)) as u128
    }

    /// The key under which a table of frames files this frame.
    #[verifier::when_used_as_spec(spec_key)]
    pub fn key(&self) -> (k: u128)
        ensures
            k == self.spec_key(),
    {
        let a: u128 = self.src.key() as u128;
        let b: u128 = self.src_seg.key() as u128;
        let c: u128 = self.dst.key() as u128;
        let p: u128 = (Address { data: self.data }).key() as u128;
        a * 0x1_0000_0000_0000_0000_0000 + b * 0x1_0000_0000_0000_0000 + c * 0x1_0000_0000 + p
    }

    /// Two frames with one key are one frame.
    pub proof fn key_is_injective(self, other: Frame)
        ensures
            self.spec_key() == other.spec_key() <==> self == other,
    {
        if self.spec_key() == other.spec_key() {
            self.src.key_is_injective(other.src);
            self.src_seg.key_is_injective(other.src_seg);
            self.dst.key_is_injective(other.dst);
            (Address { data: self.data }).key_is_injective(Address { data: other.data });
        }
    }
}

} // verus!
