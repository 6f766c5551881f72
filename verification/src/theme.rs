//! The Studio look: the stylesheet's colour tokens and radii as constants.
//!
//! Colours are premultiplied sRGBA bytes, the form the toolkit stores: a
//! white at `a` alpha is `[a, a, a, a]`, never `[255, 255, 255, a]`, which is
//! a fully bright white carrying a low alpha and composites additively.

use vstd::prelude::*;

verus! {

/// Premultiplied sRGBA bytes.
pub type Color32 = [u8; 4];

/// Behind the viewport, never painted over it.
pub const PAGE_BG: Color32 = [0x0a, 0x0b, 0x10, 255];
/// The panels' translucent black ground.
pub const PANEL_BG: Color32 = [0, 0, 0, 166];
/// Popups, menus and dropdowns: dense, as they open over the panels' text.
pub const POPUP_BG: Color32 = [11, 13, 17, 240];
/// `border: 1px solid rgba(255,255,255,.2)`.
pub const PANEL_BORDER: Color32 = [51, 51, 51, 51];
/// `border-top: 1px solid rgba(255,255,255,.12)` between sections.
pub const SECTION_RULE: Color32 = [31, 31, 31, 31];
/// Body text.
pub const TEXT: Color32 = [0xd9, 0xec, 0xff, 255];
/// Brighter text for titles and values.
pub const TEXT_STRONG: Color32 = [0xed, 0xf5, 0xff, 255];
/// Secondary text, used by summaries and notes.
pub const TEXT_MUTED: Color32 = [0x9e, 0xb4, 0xc8, 255];
pub const TEXT_DIM: Color32 = [0x8a, 0x9a, 0xac, 255];
/// Disabled or very quiet text.
pub const TEXT_FAINT: Color32 = [0x8f, 0xa3, 0xb7, 255];
/// Interactive accent, the focus and hover colour.
pub const ACCENT: Color32 = [0x78, 0xc8, 0xff, 255];
/// "On"/ok green.
pub const OK: Color32 = [0x52, 0xe2, 0xa2, 255];
/// Brighter green for markers.
pub const OK_BRIGHT: Color32 = [0x5c, 0xff, 0x9a, 255];
/// Warning amber.
pub const WARN: Color32 = [0xff, 0xb3, 0x47, 255];
/// Error red.
pub const ERROR: Color32 = [0xff, 0x5d, 0x5d, 255];
/// Clip indicator.
pub const CLIP: Color32 = [0xff, 0x3b, 0x30, 255];
/// "Initializing" status dot.
pub const INFO: Color32 = [0x89, 0xa3, 0xff, 255];
/// Control fills: rest, hover, active (`rgba(255,255,255,.08/.12/.18)`).
pub const FILL: Color32 = [20, 20, 20, 20];
pub const FILL_HOVER: Color32 = [31, 31, 31, 31];
pub const FILL_ACTIVE: Color32 = [46, 46, 46, 46];
/// Control outline (`rgba(255,255,255,.2)`).
pub const CONTROL_BORDER: Color32 = [51, 51, 51, 51];

/// The panels' corner radius.
pub const PANEL_RADIUS: u8 = 12;
/// Controls and chips.
pub const CONTROL_RADIUS: u8 = 6;

/// A premultiplied white at its own alpha: every channel equals the alpha.
pub open spec fn is_premultiplied_white(c: Seq<u8>) -> bool {
    c.len() == 4 && c[0] == c[3] && c[1] == c[3] && c[2] == c[3]
}

/// Every translucent white of the token set is a white at its stated alpha
/// in premultiplied form, and the panel ground is a translucent black.
pub proof fn lemma_translucent_whites_are_white()
    ensures
        is_premultiplied_white(PANEL_BORDER@) && PANEL_BORDER[3] == 51,
        is_premultiplied_white(SECTION_RULE@) && SECTION_RULE[3] == 31,
        is_premultiplied_white(FILL@) && FILL[3] == 20,
        is_premultiplied_white(FILL_HOVER@) && FILL_HOVER[3] == 31,
        is_premultiplied_white(FILL_ACTIVE@) && FILL_ACTIVE[3] == 46,
        is_premultiplied_white(CONTROL_BORDER@) && CONTROL_BORDER[3] == 51,
        PANEL_BG@ == seq![0u8, 0, 0, 166],
{
}

} // verus!
