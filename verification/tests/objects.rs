use omniphony_studio_egui::{badge_code, base_color_hex, display_name, ObjectDisplayMode};

#[test]
fn display_names_drop_their_technical_prefixes() {
    assert_eq!(display_name("v_obj_7", None), "7");
    assert_eq!(display_name("a:Piano", None), "Piano");
    assert_eq!(display_name("id", Some("  Lead Vox ")), "Lead Vox");
    assert_eq!(display_name("id", Some("   ")), "id");
    assert_eq!(display_name("OBJ-3", None), "3");
    assert_eq!(display_name("objet", None), "objet");
    assert_eq!(display_name("é_x", None), "é_x");
}

#[test]
fn badges_carry_the_short_code() {
    assert_eq!(badge_code("injection", Some("anything")), "INJ");
    assert_eq!(badge_code("1", Some("Ambience_Ls")), "Ls");
    assert_eq!(badge_code("1", Some("height_L_synth")), "L");
    assert_eq!(badge_code("1", Some("height__synth")), "_synth");
    assert_eq!(badge_code("1", Some("diffuse_C")), "C");
    assert_eq!(badge_code("1", Some("phantom_L_R")), "L·R");
    assert_eq!(badge_code("1", Some("phantom_C")), "C");
    assert_eq!(badge_code("1", Some("directh_Ls")), "Ls↑");
    assert_eq!(badge_code("1", Some("direct_Rs")), "Rs");
    assert_eq!(badge_code("a_bed_C", None), "C");
    assert_eq!(badge_code("ambience_", None), "ambience_");
    assert_eq!(badge_code("Piano", None), "Piano");
}

#[test]
fn colours_come_from_the_tag_the_number_or_the_hash() {
    assert_eq!(base_color_hex("a_1", None), (0xff8b6b, true));
    assert_eq!(base_color_hex("x", Some(" b")), (0x62d7c7, true));
    assert_eq!(base_color_hex("12", None), (0xeb984e, false));
    assert_eq!(base_color_hex("-3", None), (0x5dade2, false));
    assert_eq!(base_color_hex("foo", None), (0xec7063, false));
    assert_eq!(base_color_hex("obj 😀", Some("c")), (0xa569bd, false));
    // A leading plus is a number; a space or an underscore is not.
    assert_eq!(base_color_hex("+12", None), (0xeb984e, false));
    assert_eq!(base_color_hex("-9223372036854775808", None), (0xff6b6b, false));
    assert_eq!(base_color_hex(" 12", None), (0x48c9b0, false));
    assert_eq!(base_color_hex("1_2", None), (0x4ecdc4, false));
}

#[test]
fn display_modes_have_their_labels() {
    assert_eq!(ObjectDisplayMode::Circle.label(), "Circle");
    assert_eq!(ObjectDisplayMode::TransparentSphere.label(), "Transparent sphere");
    assert_eq!(ObjectDisplayMode::DiffuseSphere.label(), "Diffuse sphere");
}
