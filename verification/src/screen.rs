//! Screen colours in the view's own terms: unmultiplied sRGB bytes with alpha.

use vstd::prelude::*;

verus! {

/// Unmultiplied sRGB with alpha.
pub type Color = [u8; 4];

/// Opaque white.
pub const WHITE: Color = [255, 255, 255, 255];

/// Opaque, from sRGB bytes.
pub fn rgb(r: u8, g: u8, b: u8) -> (c: Color)
    ensures
        c@ == seq![r, g, b, 255u8],
{
    [r, g, b, 255]
}

/// White at an alpha: the overlay's usual way of dimming a line or a label.
pub fn white_alpha(a: u8) -> (c: Color)
    ensures
        c@ == seq![255u8, 255u8, 255u8, a],
{
    [255, 255, 255, a]
}

} // verus!
