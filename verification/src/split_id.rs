//! Splitting a track identifier into a `(group, sub_track)` pair of half-width integers,
//! and combining such a pair back.

use vstd::prelude::*;

verus! {

/// An identifier made of two halves: the upper half names a group, the lower half a track
/// within that group.
pub trait SplitId: Sized {
    type Half;

    /// The `(group, track)` halves of an identifier.
    spec fn split_spec(self) -> (Self::Half, Self::Half);

    /// The identifier made of a group half and a track half.
    spec fn combine_spec(group: Self::Half, track: Self::Half) -> Self;

    fn split(self) -> (r: (Self::Half, Self::Half))
        ensures
            r == self.split_spec(),
    ;

    fn combine(group: Self::Half, track: Self::Half) -> (r: Self)
        ensures
            r == Self::combine_spec(group, track),
    ;
}

impl SplitId for u16 {
    type Half = u8;

    open spec fn split_spec(self) -> (u8, u8) {
        ((self / 0x100) as u8, (self % 0x100) as u8)
    }

    open spec fn combine_spec(group: u8, track: u8) -> u16 {
        (group * 0x100 + track) as u16
    }

    fn split(self) -> (r: (u8, u8)) {
        let group = self >> 8u16;
        let track = self & 0xffu16;
        assert(group == self / 0x100 && track == self % 0x100) by (bit_vector)
            requires group == self >> 8u16, track == self & 0xffu16;
        (group as u8, track as u8)
    }

    fn combine(group: u8, track: u8) -> (r: u16) {
        let g = group as u16;
        let t = track as u16;
        let r = (g << 8u16) | (t & 0xffu16);
        assert(g < 0x100 && t < 0x100 ==> r == g * 0x100 + t) by (bit_vector)
            requires r == (g << 8u16) | (t & 0xffu16);
        r
    }
}

impl SplitId for u32 {
    type Half = u16;

    open spec fn split_spec(self) -> (u16, u16) {
        ((self / 0x1_0000) as u16, (self % 0x1_0000) as u16)
    }

    open spec fn combine_spec(group: u16, track: u16) -> u32 {
        (group * 0x1_0000 + track) as u32
    }

    fn split(self) -> (r: (u16, u16)) {
        let group = self >> 16u32;
        let track = self & 0xffffu32;
        assert(group == self / 0x1_0000 && track == self % 0x1_0000) by (bit_vector)
            requires group == self >> 16u32, track == self & 0xffffu32;
        (group as u16, track as u16)
    }

    fn combine(group: u16, track: u16) -> (r: u32) {
        let g = group as u32;
        let t = track as u32;
        let r = (g << 16u32) | (t & 0xffffu32);
        assert(g < 0x1_0000 && t < 0x1_0000 ==> r == g * 0x1_0000 + t) by (bit_vector)
            requires r == (g << 16u32) | (t & 0xffffu32);
        r
    }
}

impl SplitId for u64 {
    type Half = u32;

    open spec fn split_spec(self) -> (u32, u32) {
        ((self / 0x1_0000_0000) as u32, (self % 0x1_0000_0000) as u32)
    }

    open spec fn combine_spec(group: u32, track: u32) -> u64 {
        (group * 0x1_0000_0000 + track) as u64
    }

    fn split(self) -> (r: (u32, u32)) {
        let group = self >> 32u64;
        let track = self & 0xffff_ffffu64;
        assert(group == self / 0x1_0000_0000 && track == self % 0x1_0000_0000) by (bit_vector)
            requires group == self >> 32u64, track == self & 0xffff_ffffu64;
        (group as u32, track as u32)
    }

    fn combine(group: u32, track: u32) -> (r: u64) {
        let g = group as u64;
        let t = track as u64;
        let r = (g << 32u64) | (t & 0xffff_ffffu64);
        assert(g < 0x1_0000_0000 && t < 0x1_0000_0000 ==> r == g * 0x1_0000_0000 + t)
            by (bit_vector)
            requires r == (g << 32u64) | (t & 0xffff_ffffu64);
        r
    }
}

impl SplitId for u128 {
    type Half = u64;

    open spec fn split_spec(self) -> (u64, u64) {
        ((self / 0x1_0000_0000_0000_0000) as u64, (self % 0x1_0000_0000_0000_0000) as u64)
    }

    open spec fn combine_spec(group: u64, track: u64) -> u128 {
        (group * 0x1_0000_0000_0000_0000 + track) as u128
    }

    fn split(self) -> (r: (u64, u64)) {
        let group = self >> 64u128;
        let track = self & 0xffff_ffff_ffff_ffffu128;
        assert(group == self / 0x1_0000_0000_0000_0000 && track == self
            % 0x1_0000_0000_0000_0000) by (bit_vector)
            requires group == self >> 64u128, track == self & 0xffff_ffff_ffff_ffffu128;
        (group as u64, track as u64)
    }

    fn combine(group: u64, track: u64) -> (r: u128) {
        let g = group as u128;
        let t = track as u128;
        let r = (g << 64u128) | (t & 0xffff_ffff_ffff_ffffu128);
        assert(g < 0x1_0000_0000_0000_0000 && t < 0x1_0000_0000_0000_0000 ==> r == g
            * 0x1_0000_0000_0000_0000 + t) by (bit_vector)
            requires r == (g << 64u128) | (t & 0xffff_ffff_ffff_ffffu128);
        r
    }
}

/// Splitting an identifier and combining its halves gives the identifier back.
pub proof fn lemma_u32_combine_split(id: u32)
    ensures
        u32::combine_spec(id.split_spec().0, id.split_spec().1) == id,
{
}

/// Combining two halves and splitting the result gives the two halves back.
pub proof fn lemma_u32_split_combine(group: u16, track: u16)
    ensures
        u32::combine_spec(group, track).split_spec() == (group, track),
{
}

/// Splitting an identifier and combining its halves gives the identifier back.
pub proof fn lemma_u16_combine_split(id: u16)
    ensures
        u16::combine_spec(id.split_spec().0, id.split_spec().1) == id,
{
}

/// Combining two halves and splitting the result gives the two halves back.
pub proof fn lemma_u16_split_combine(group: u8, track: u8)
    ensures
        u16::combine_spec(group, track).split_spec() == (group, track),
{
}

/// Splitting an identifier and combining its halves gives the identifier back.
pub proof fn lemma_u64_combine_split(id: u64)
    ensures
        u64::combine_spec(id.split_spec().0, id.split_spec().1) == id,
{
}

/// Combining two halves and splitting the result gives the two halves back.
pub proof fn lemma_u64_split_combine(group: u32, track: u32)
    ensures
        u64::combine_spec(group, track).split_spec() == (group, track),
{
}

/// Splitting an identifier and combining its halves gives the identifier back.
pub proof fn lemma_u128_combine_split(id: u128)
    ensures
        u128::combine_spec(id.split_spec().0, id.split_spec().1) == id,
{
}

/// Combining two halves and splitting the result gives the two halves back.
pub proof fn lemma_u128_split_combine(group: u64, track: u64)
    ensures
        u128::combine_spec(group, track).split_spec() == (group, track),
{
}

} // verus!
