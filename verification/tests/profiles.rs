use omniphony_studio_egui::{NameEditor, ProfileAction, ProfilePanel, Snapshot};

/// One frame of the panel as the toolkit drives it: the field takes the
/// focus when asked, `typed` is what the user enters into it, and `enter` or
/// `escape` are pressed. Returns the frame's intent.
fn frame(panel: &mut ProfilePanel, snapshot: &Snapshot, typed: &str, enter: bool, escape: bool) -> Option<ProfileAction> {
    let mut intent = None;
    if panel.editor.is_some() {
        panel.take_focus();
        panel.name.push_str(typed);
        if let Some(a) = panel.finish_name(enter, escape) {
            intent = Some(a);
        }
    }
    if panel.delete_prompt(&snapshot.names).is_some() {
        if let Some(a) = panel.answer_delete(false, false, false) {
            intent = Some(a);
        }
    }
    intent
}

#[test]
fn an_isolated_panel_keeps_unicode_typing_across_echoes_and_submits_once() {
    let mut panel = ProfilePanel { editor: Some(NameEditor::Create), focus_name: true, ..ProfilePanel::new() };
    let mut snapshot = Snapshot::default();
    assert!(frame(&mut panel, &snapshot, "", false, false).is_none());
    assert!(frame(&mut panel, &snapshot, "Écoute", false, false).is_none());
    snapshot.active = Some("Existing".into());
    snapshot.names.push("Existing".into());
    assert!(frame(&mut panel, &snapshot, " 日本語", false, false).is_none());
    assert_eq!(panel.name, "Écoute 日本語");
    assert_eq!(
        frame(&mut panel, &snapshot, "", true, false),
        Some(ProfileAction::Submit { editor: NameEditor::Create, name: "Écoute 日本語".into() })
    );
    assert!(frame(&mut panel, &snapshot, "", false, false).is_none());
}

#[test]
fn escape_cancels_without_intent_and_removed_profiles_close_confirmation() {
    let mut panel = ProfilePanel {
        editor: Some(NameEditor::Create),
        name: "Draft".into(),
        focus_name: true,
        delete_confirm: Some("Removed".into()),
    };
    let snapshot = Snapshot { active: Some("A".into()), names: vec!["A".into(), "B".into()] };
    assert!(frame(&mut panel, &snapshot, "", false, false).is_none());
    assert!(panel.delete_confirm.is_none());
    assert!(frame(&mut panel, &snapshot, "", false, true).is_none());
    assert!(panel.editor.is_none());
}

#[test]
fn the_buttons_follow_what_the_renderer_allows() {
    let lone = Snapshot { active: Some("A".into()), names: vec!["A".into()] };
    let none = Snapshot { active: Some(String::new()), names: vec!["A".into(), "B".into()] };
    let two = Snapshot { active: Some("A".into()), names: vec!["A".into(), "B".into()] };
    assert!(ProfilePanel::can_rename(&lone));
    assert!(!ProfilePanel::can_delete(&lone));
    assert!(!ProfilePanel::can_rename(&none));
    assert!(ProfilePanel::can_delete(&two));
    let mut panel = ProfilePanel::new();
    panel.press_delete(&lone);
    assert_eq!(panel.delete_confirm, None);
    panel.press_delete(&two);
    assert_eq!(panel.delete_confirm, Some("A".to_owned()));
    assert_eq!(panel.delete_prompt(&two.names), Some(("A".to_owned(), "B".to_owned())));
    assert_eq!(panel.answer_delete(false, false, false), None);
    assert_eq!(panel.answer_delete(true, false, false), Some(ProfileAction::Delete("A".to_owned())));
    assert_eq!(panel.delete_confirm, None);
    panel.press_rename(&two);
    assert_eq!(panel.editor, Some(NameEditor::Rename("A".to_owned())));
    assert_eq!(panel.name, "A");
    assert!(panel.take_focus());
    assert!(!panel.take_focus());
    panel.press_create();
    assert_eq!(panel.editor, Some(NameEditor::Create));
    assert_eq!(panel.name, "");
    assert_eq!(ProfilePanel::pick(&two, "A".to_owned()), None);
    assert_eq!(ProfilePanel::pick(&two, "B".to_owned()), Some(ProfileAction::Switch("B".to_owned())));
    // The last profile is never offered for deletion, even if asked.
    panel.delete_confirm = Some("A".to_owned());
    assert_eq!(panel.delete_prompt(&lone.names), None);
    assert_eq!(panel.delete_confirm, None);
}
