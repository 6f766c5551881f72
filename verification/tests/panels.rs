use omniphony_studio_egui::panels::{
    backend_overlay, coordinates_title, follow_speaker_selection, speaker_test_wants_idle_feed,
    option_label, param_help, param_label, schema_label, vbap_status, Overlay, TestFollow,
};
use omniphony_studio_egui::panels::Step;
use omniphony_studio_egui::panels::{
    enum_choice, enum_selected_label, evaluation_send, evaluation_view, param_value, path_hint,
};
use omniphony_studio_egui::theme::{ERROR, OK, WARN};
use omniphony_studio_egui::{
    backend_label, evaluation_label, toggle, DelayTool, Filter, Flyout, OutputMode, SpeakerTab,
};

#[test]
fn labels_and_keys_of_the_renderer_panel() {
    assert_eq!(OutputMode::Speaker.label(), "outputMode.speakers");
    assert_eq!(OutputMode::BinauralCascaded.label(), "outputMode.headphonesVirtual");
    assert_eq!(OutputMode::from_state(Some("binaural"), Some("cascaded")), OutputMode::BinauralCascaded);
    assert_eq!(OutputMode::from_state(Some("binaural"), None), OutputMode::BinauralDirect);
    assert_eq!(OutputMode::from_state(Some("speakers"), Some("cascaded")), OutputMode::Speaker);
    assert_eq!(OutputMode::from_state(None, None), OutputMode::Speaker);
    assert_eq!(evaluation_label("precomputed_polar"), "common.polarShort");
    assert_eq!(evaluation_label("nonsense"), "vbap.status.idle");
    assert_eq!(backend_label("experimental_distance"), "Distance");
    assert_eq!(backend_label("custom_one"), "custom_one");
}

#[test]
fn the_backend_help_names_the_selected_backend() {
    let intro = || Overlay { title: "Backend".to_owned(), body: "Intro.".to_owned() };
    let backends = vec![("vbap".to_owned(), "VBAP".to_owned())];
    let plain = backend_overlay(intro(), "vbap", &backends, None);
    assert_eq!(plain.body, "Intro.");
    let with = backend_overlay(intro(), " vbap ", &backends, Some("Amplitude panning."));
    assert_eq!(with.title, "Backend");
    assert_eq!(with.body, "Intro.<br><br><strong>VBAP</strong><br>Amplitude panning.");
    let unknown = backend_overlay(intro(), "other", &backends, Some("More."));
    assert_eq!(unknown.body, "Intro.<br><br><strong>other</strong><br>More.");
}

#[test]
fn the_speaker_editor_keys_and_title() {
    assert_eq!(DelayTool::CalcDelays.confirm_key(), "confirm.calcDelays");
    assert_eq!(DelayTool::DelayToDistance.label_key(), "speaker.delayToDist");
    assert_eq!(coordinates_title("Coordinates:"), "Coordinates");
    assert_eq!(coordinates_title("Coordonnées\u{a0}:"), "Coordonnées");
    assert_eq!(coordinates_title("座標："), "座標");
    assert_eq!(coordinates_title(":"), "");
}

#[test]
fn a_running_test_follows_the_selection_in_toggle_mode_only() {
    assert_eq!(follow_speaker_selection(None, Some(2), true), TestFollow::Keep);
    assert_eq!(follow_speaker_selection(Some(2), Some(2), false), TestFollow::Keep);
    assert_eq!(follow_speaker_selection(Some(1), Some(2), true), TestFollow::Start(2));
    assert_eq!(follow_speaker_selection(Some(1), Some(2), false), TestFollow::Stop);
    assert_eq!(follow_speaker_selection(Some(1), None, true), TestFollow::Stop);
    assert!(speaker_test_wants_idle_feed(SpeakerTab::Test, Some(0)));
    assert!(!speaker_test_wants_idle_feed(SpeakerTab::Edit, Some(0)));
    assert!(!speaker_test_wants_idle_feed(SpeakerTab::Test, None));
}

#[test]
fn filters_and_flyouts() {
    assert_eq!(Filter::of_limits(false, false), Filter::Full);
    assert_eq!(Filter::of_limits(false, true), Filter::Low);
    assert_eq!(Filter::of_limits(true, false), Filter::High);
    assert_eq!(Filter::of_limits(true, true), Filter::Band);
    assert_eq!(Filter::Band.title(), "speaker.filter.band");
    assert_eq!(toggle(None, Flyout::Objects), Some(Flyout::Objects));
    assert_eq!(toggle(Some(Flyout::Objects), Flyout::Objects), None);
    assert_eq!(toggle(Some(Flyout::Trails), Flyout::Objects), Some(Flyout::Objects));
}

#[test]
fn the_vbap_status_says_the_error_then_the_timeout_then_the_state() {
    let error = Some("table failed".to_owned());
    assert_eq!(vbap_status(&error, Some(true), true), Some(("table failed".to_owned(), ERROR)));
    assert_eq!(vbap_status(&None, Some(false), true), Some(("vbap.status.noAck".to_owned(), ERROR)));
    assert_eq!(vbap_status(&None, Some(true), false), Some(("vbap.status.computing".to_owned(), WARN)));
    assert_eq!(vbap_status(&None, Some(false), false), Some(("vbap.status.ready".to_owned(), OK)));
    assert_eq!(vbap_status(&None, None, false), None);
}

#[test]
fn a_translated_label_wins_over_the_schema_and_the_key_comes_last() {
    assert_eq!(param_label("gain", "Gain", Some("gain (dB)")), "Gain");
    assert_eq!(param_label("gain", "backendParam.gain", Some("gain (dB)")), "gain (dB)");
    assert_eq!(param_label("gain", "backendParam.gain", None), "gain");
    assert_eq!(option_label("mode", "fast", "Rapide", Some("Fast")), "Rapide");
    assert_eq!(option_label("mode", "fast", "backendParamOption.mode.fast", Some("Fast")), "Fast");
    assert_eq!(option_label("mode", "fast", "backendParamOption.mode.fast", None), "fast");
    assert_eq!(param_help(Some("Aide"), Some("Help")), Some("Aide".to_owned()));
    assert_eq!(param_help(None, Some("Help")), Some("Help".to_owned()));
    assert_eq!(param_help(None, None), None);
    assert_eq!(schema_label("passes", Some("Passes"), Some("passes")), "Passes");
    assert_eq!(schema_label("passes", None, Some("Pass count")), "Pass count");
    assert_eq!(schema_label("passes", None, None), "passes");
}

#[test]
fn a_drag_previews_until_it_is_let_go_and_typing_commits_at_once() {
    let dragging = Step::of(true, false, true);
    assert_eq!(dragging, Step { preview: true, commit: false });
    assert_eq!(Step::of(false, true, false), Step { preview: false, commit: true });
    assert_eq!(Step::of(true, false, false), Step { preview: true, commit: true });
    let mut frame = Step::default();
    frame.absorb(dragging);
    frame.absorb(Step::of(false, false, false));
    assert_eq!(frame, Step { preview: true, commit: false });
    frame.absorb(Step::of(false, true, false));
    assert!(frame.commit);
}

#[test]
fn the_evaluation_group_follows_the_selection_and_the_capabilities() {
    let none: Vec<String> = vec![];
    let v = evaluation_view(None, Some("precomputed_cartesian"), &none, None);
    assert_eq!(v.selection, "auto");
    assert_eq!(v.resolved.as_deref(), Some("precomputed_cartesian"));
    assert_eq!(v.modes, vec!["auto", "realtime", "precomputed_polar", "precomputed_cartesian"]);
    assert_eq!(v.visible_mode, "precomputed_cartesian");
    assert!(v.show_cartesian && !v.show_polar && v.show_interpolation && v.show_size);
    let allowed = vec!["realtime".to_owned(), "precomputed_polar".to_owned()];
    let v = evaluation_view(Some("precomputed_polar"), Some("precomputed_polar"), &allowed, Some((true, false, false)));
    assert_eq!(v.resolved, None);
    assert_eq!(v.modes, allowed);
    assert!(!v.show_polar && !v.show_interpolation && !v.show_size);
    assert!(evaluation_send("realtime", "precomputed_polar", &allowed));
    assert!(!evaluation_send("realtime", "realtime", &allowed));
    assert!(!evaluation_send("realtime", "auto", &allowed));
}

#[test]
fn generated_backend_rows_show_and_send_what_they_should() {
    assert_eq!(param_value(Some(3), Some(1)), Some(3));
    assert_eq!(param_value(None, Some(1)), Some(1));
    assert_eq!(param_value::<i32>(None, None), None);
    let options = vec![("fast".to_owned(), "Fast".to_owned()), ("slow".to_owned(), "Slow".to_owned())];
    assert_eq!(enum_selected_label("slow", &options), "Slow");
    assert_eq!(enum_selected_label("other", &options), "other");
    assert_eq!(enum_choice("fast", "fast".to_owned()), None);
    assert_eq!(enum_choice("fast", "slow".to_owned()), Some("slow".to_owned()));
    assert_eq!(path_hint(&vec!["lua".to_owned()], true), "name.lua");
    assert_eq!(path_hint(&vec![], true), "/path/to/backend.lua");
    assert_eq!(path_hint(&vec![], false), "name.ext");
}
