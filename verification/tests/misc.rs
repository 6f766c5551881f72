use omniphony_studio_egui::prefs::{DisplayChoicePrefs, DisplayChoices};
use omniphony_studio_egui::{
    option_schema, read_schema_version, rgb, white_alpha, EditMode, GizmoState, OptionDefault,
    ObjectDisplayMode, OptionValue, SchemaVersion, TrailMode, UpdatePrefs, WHITE,
};

#[test]
fn screen_colours_are_unmultiplied_bytes() {
    assert_eq!(rgb(1, 2, 3), [1, 2, 3, 255]);
    assert_eq!(white_alpha(40), [255, 255, 255, 40]);
    assert_eq!(WHITE, [255, 255, 255, 255]);
}

#[test]
fn trail_modes_have_their_labels() {
    assert_eq!(TrailMode::Diffuse.label(), "Diffuse");
    assert_eq!(TrailMode::Line.label(), "Line");
}

#[test]
fn only_one_gizmo_mode_is_ever_armed() {
    let mut g = GizmoState { mode: EditMode::Polar, polar_armed: false, cartesian_armed: false };
    g.press(EditMode::Polar);
    assert!(g.is_armed(EditMode::Polar));
    g.press(EditMode::Cartesian);
    assert!(g.is_armed(EditMode::Cartesian) && !g.polar_armed);
    g.press(EditMode::Cartesian);
    assert!(!g.is_armed(EditMode::Cartesian) && !g.polar_armed && !g.cartesian_armed);
}

#[test]
fn options_start_from_their_defaults() {
    let schema = option_schema();
    assert_eq!(schema[0].key, "surround_placement");
    assert_eq!(schema[0].default.to_value(), OptionValue::Str("side".to_owned()));
    assert_eq!(schema[1].default.to_value(), OptionValue::Bool(false));
    assert_eq!(OptionDefault::Str("").to_value(), OptionValue::Str(String::new()));
    for spec in schema.iter() {
        assert!(spec.fits(&spec.default.to_value()));
    }
    assert!(!schema[1].fits(&OptionValue::Str("x".to_owned())));
}

#[test]
fn unsupported_or_invalid_versions_are_not_silently_downgraded() {
    assert!(read_schema_version(1).is_ok());
    assert_eq!(SchemaVersion.number(), 1);
    for version in [0, 2, 7] {
        let error = read_schema_version(version).err().expect("refused");
        assert_eq!(
            error,
            format!("unsupported preference schema {version}; this Studio supports version 1")
        );
    }
}

#[test]
fn a_check_runs_when_due_and_its_answer_is_kept() {
    let mut prefs = UpdatePrefs { enabled: false, last_check: 5, tag: None, html_url: None };
    assert!(!prefs.start_check_if_due(true, 100));
    assert_eq!(prefs.last_check, 5);
    prefs.enabled = true;
    assert!(!prefs.start_check_if_due(false, 100));
    assert!(prefs.start_check_if_due(true, 100));
    assert_eq!(prefs.last_check, 100);
    prefs.absorb_check(Some(("v2.0.0".to_owned(), Some("https://example.test".to_owned()))));
    assert_eq!(prefs.tag.as_deref(), Some("v2.0.0"));
    prefs.absorb_check(None);
    assert!(prefs.tag.is_none() && prefs.html_url.is_none());
}

fn choices() -> DisplayChoices {
    DisplayChoices {
        effective_render_enabled: true,
        objects_visible: true,
        object_colors_enabled: true,
        object_labels_enabled: false,
        show_object_details: false,
        speaker_labels_enabled: true,
        speaker_band_bars_enabled: false,
        speaker_face_listener_enabled: false,
        speaker_volume_enabled: false,
        all_bands: false,
        global_enabled: false,
        discontinuity_enabled: false,
        object_field_enabled: false,
        smooth: true,
        trails_enabled: true,
        object_display_mode: ObjectDisplayMode::Circle,
        heatmap_band_index: 0,
        volume_band_index: 0,
        resolution: 32,
        refresh_ms: 100,
        trail_mode: TrailMode::Diffuse,
        trail_ttl_ms: 2000,
    }
}

#[test]
fn a_partial_display_file_leaves_the_rest_alone_and_clamps_what_it_sets() {
    let mut s = choices();
    DisplayChoicePrefs::default().apply(&mut s);
    assert_eq!(s, choices());
    let prefs = DisplayChoicePrefs {
        speaker_face_listener: Some(true),
        object_display_mode: Some(ObjectDisplayMode::DiffuseSphere),
        heatmap_band_index: Some(2),
        object_energy_heatmap_resolution: Some(200),
        volume_refresh_ms: Some(10),
        trail_duration_ms: Some(100),
        ..DisplayChoicePrefs::default()
    };
    prefs.apply(&mut s);
    assert!(s.speaker_face_listener_enabled);
    assert_eq!(s.object_display_mode, ObjectDisplayMode::DiffuseSphere);
    assert_eq!((s.heatmap_band_index, s.volume_band_index), (2, 2));
    assert_eq!((s.resolution, s.refresh_ms, s.trail_ttl_ms), (64, 40, 500));
    assert!(s.objects_visible && s.smooth);
    let prefs = DisplayChoicePrefs { object_energy_heatmap_resolution: Some(3), volume_refresh_ms: Some(900), trail_duration_ms: Some(700), ..DisplayChoicePrefs::default() };
    prefs.apply(&mut s);
    assert_eq!((s.resolution, s.refresh_ms, s.trail_ttl_ms), (8, 500, 700));
}
