use omniphony_studio_egui::theme::{
    CONTROL_BORDER, FILL, FILL_ACTIVE, FILL_HOVER, PANEL_BG, PANEL_BORDER, SECTION_RULE,
};

fn unmultiplied(c: [u8; 4]) -> [u8; 4] {
    egui::Color32::from_rgba_premultiplied(c[0], c[1], c[2], c[3]).to_srgba_unmultiplied()
}

/// Every translucent white in the token set must round-trip to a white with
/// its own alpha.
#[test]
fn the_translucent_whites_are_actually_white_at_their_own_alpha() {
    for (colour, alpha) in [
        (PANEL_BORDER, 51),
        (SECTION_RULE, 31),
        (FILL, 20),
        (FILL_HOVER, 31),
        (FILL_ACTIVE, 46),
        (CONTROL_BORDER, 51),
    ] {
        assert_eq!(
            unmultiplied(colour),
            [255, 255, 255, alpha],
            "a token is not a plain white at its stated alpha"
        );
    }
}

/// The panel ground is a translucent black, where premultiplying leaves the
/// channels at zero.
#[test]
fn the_panel_ground_stays_black() {
    assert_eq!(unmultiplied(PANEL_BG), [0, 0, 0, 166]);
}
