use vstd::prelude::*;

verus! {

/// The display pixel of three 8-bit channels: red in the high byte, then
/// green, then blue.
pub open spec fn packed(r: u8, g: u8, b: u8) -> nat {
    (r as nat) * 65536 + (g as nat) * 256 + (b as nat)
}

/// Packs three 8-bit channels into one display pixel.
pub fn pack_rgb(r: u8, g: u8, b: u8) -> (p: u32)
    ensures
        p == packed(r, g, b),
{
    let (r32, g32, b32) = (r as u32, g as u32, b as u32);
    assert(((r32 << 16u32) | (g32 << 8u32) | b32) == r32 * 65536 + g32 * 256 + b32) by (bit_vector)
        requires r32 < 256, g32 < 256, b32 < 256;
    (r32 << 16u32) | (g32 << 8u32) | b32
}

/// Starts a displayed frame of the progressive accumulation. A change of the
/// scene or camera restarts the count at one; the frame is shown as the
/// accumulated sum divided by the returned count, and the count then grows
/// by one.
pub fn begin_frame(frame_index: &mut usize, reset: bool) -> (divisor: usize)
    requires
        reset || *old(frame_index) < usize::MAX,
    ensures
        divisor == if reset { 1 } else { *old(frame_index) },
        *final(frame_index) == divisor + 1,
{
    if reset {
        *frame_index = 1;
    }
    let divisor = *frame_index;
    *frame_index = divisor + 1;
    divisor
}

} // verus!
