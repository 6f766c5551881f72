use std::collections::hash_map::DefaultHasher;
use std::hash::{Hash, Hasher};

use omniphony_studio_egui::{BackendPathDrafts, FieldEvents, TextDraft};

fn idle() -> FieldEvents {
    FieldEvents { has_focus: false, lost_focus: false, changed: false, escape: false }
}

fn focus() -> FieldEvents {
    FieldEvents { has_focus: true, ..idle() }
}

fn typed() -> FieldEvents {
    FieldEvents { has_focus: true, changed: true, ..idle() }
}

fn blur() -> FieldEvents {
    FieldEvents { lost_focus: true, ..idle() }
}

/// One frame: the widget sees the draft, the user's keys edit it, then the
/// widget reports `events`.
fn frame(d: &mut TextDraft, id: u64, source: &str, typing: &str, events: FieldEvents) -> Option<String> {
    d.begin(id, source);
    d.text.push_str(typing);
    d.end(source, events, false)
}

#[test]
fn typing_survives_frames_and_echoes_and_commits_once() {
    let mut d = TextDraft::new();
    assert_eq!(frame(&mut d, 1, "speaker", "", focus()), None);
    assert_eq!(frame(&mut d, 1, "speaker", "X", typed()), None);
    let text = d.text.clone();
    assert_eq!(text, "speakerX");
    assert_eq!(frame(&mut d, 1, "external", "", focus()), None);
    assert_eq!(d.text, text);
    assert_eq!(frame(&mut d, 1, "external", "", blur()), Some(text.clone()));
    assert!(!d.active);
    assert_eq!(frame(&mut d, 1, &text, "", idle()), None);
    assert_eq!(d.text, text);
}

#[test]
fn escape_discards_typing_and_adopts_the_current_model() {
    let mut d = TextDraft::new();
    frame(&mut d, 1, "before", "", focus());
    frame(&mut d, 1, "before", "typed", typed());
    let esc = FieldEvents { escape: true, ..focus() };
    assert_eq!(frame(&mut d, 1, "external", "", esc), None);
    assert_eq!(d.text, "external");
    assert!(!d.active);
}

#[test]
fn switching_entities_never_commits_the_previous_draft() {
    let mut d = TextDraft::new();
    frame(&mut d, 1, "first", "", focus());
    frame(&mut d, 1, "first", "X", typed());
    assert_eq!(frame(&mut d, 2, "second", "", blur()), None);
    assert_eq!(d.text, "second");
    assert_eq!(d.target, Some(2));
}

#[test]
fn blur_does_not_restore_an_untouched_old_value() {
    let mut d = TextDraft::new();
    frame(&mut d, 1, "before", "", focus());
    assert_eq!(frame(&mut d, 1, "external", "", blur()), None);
    frame(&mut d, 1, "external", "", idle());
    assert_eq!(d.text, "external");
}

#[test]
fn committed_values_are_trimmed_and_an_echo_is_not_sent_again() {
    let mut d = TextDraft::new();
    frame(&mut d, 7, "a.lua", "", focus());
    d.begin(7, "a.lua");
    d.text = "  b.lua ".to_owned();
    assert_eq!(d.end("a.lua", typed(), false), None);
    assert_eq!(frame(&mut d, 7, "a.lua", "", blur()), Some("b.lua".to_owned()));
    // Typing back the value the model already holds sends nothing.
    frame(&mut d, 7, "b.lua", "", focus());
    d.begin(7, "b.lua");
    d.text = " b.lua".to_owned();
    d.end("b.lua", typed(), false);
    assert_eq!(frame(&mut d, 7, "b.lua", "", blur()), None);
}

#[test]
fn an_empty_value_is_refused_unless_it_means_auto() {
    let mut d = TextDraft::new();
    d.begin(3, "x");
    d.text.clear();
    assert_eq!(d.end("x", typed(), false), None);
    d.begin(3, "x");
    assert_eq!(d.end("x", blur(), false), None);
    assert!(d.invalid);
    assert!(d.active);
    assert_eq!(d.text, "");
    // Typing again clears the refusal.
    d.begin(3, "x");
    d.text.push('y');
    assert_eq!(d.end("x", typed(), false), None);
    assert!(!d.invalid);
    // An empty path may mean "auto".
    let mut auto = TextDraft::new();
    auto.begin(4, "x");
    auto.text.clear();
    auto.end("x", typed(), true);
    auto.begin(4, "x");
    assert_eq!(auto.end("x", blur(), true), Some(String::new()));
}

#[test]
fn path_drafts_keep_typing_across_frames_and_fields() {
    let mut drafts = BackendPathDrafts::new();
    let first = drafts.field(10, 0, 1);
    assert_eq!(first.text, "");
    first.begin(10, "old.lua");
    first.text.push_str("中é");
    first.end("old.lua", typed(), true);
    let second = drafts.field(11, 0, 1);
    second.begin(11, "other.lua");
    assert_eq!(second.end("other.lua", idle(), true), None);
    // Next frame: the echo of the model does not replace the typing.
    let first = drafts.field(10, 0, 2);
    first.begin(10, "server.lua");
    assert_eq!(first.text, "old.lua中é");
    assert_eq!(first.end("server.lua", blur(), true), Some("old.lua中é".to_owned()));
    let second = drafts.field(11, 0, 2);
    second.begin(11, "other.lua");
    assert_eq!(second.end("other.lua", idle(), true), None);
}

#[test]
fn path_drafts_forget_old_epochs_fields_not_shown_and_discarded_contexts() {
    let mut drafts = BackendPathDrafts::new();
    let d = drafts.field(10, 0, 1);
    d.begin(10, "old.lua");
    d.text.push('X');
    d.end("old.lua", typed(), true);
    // A new epoch drops every draft.
    assert_eq!(drafts.field(10, 1, 1).text, "");
    let d = drafts.field(10, 1, 1);
    d.begin(10, "a");
    d.text.push('X');
    d.end("a", typed(), true);
    // Shown in frame 1, still there in frame 2, gone by frame 4.
    assert_eq!(drafts.field(10, 1, 2).text, "aX");
    assert_eq!(drafts.field(12, 1, 4).text, "");
    assert_eq!(drafts.field(10, 1, 4).text, "");
    let d = drafts.field(10, 1, 4);
    d.begin(10, "b");
    d.text.push('Y');
    d.end("b", typed(), true);
    drafts.discard_context();
    assert_eq!(drafts.field(10, 1, 4).text, "");
}

/// A frame of a generated form with the two file fields `first` and
/// `second`, as the toolkit would drive them: `focused` is the field holding
/// the keyboard focus, `request_focus` puts it on `first`, and `input` is
/// what the user does this frame. Returns the values committed.
struct Form {
    drafts: BackendPathDrafts,
    focused: Option<u64>,
    frame: u64,
}

enum Input<'a> {
    Nothing,
    Text(&'a str),
    Enter,
}

fn field_id(backend: &str, name: &str, epoch: u64) -> u64 {
    let mut h = DefaultHasher::new();
    ("backend-file", backend, name, epoch).hash(&mut h);
    h.finish()
}

impl Form {
    fn new() -> Self {
        Form { drafts: BackendPathDrafts::new(), focused: None, frame: 0 }
    }

    fn frame(&mut self, backend: &str, epoch: u64, source: &str, request_focus: bool, input: Input) -> Vec<(String, String)> {
        let mut sent = Vec::new();
        for name in ["first", "second"] {
            let id = field_id(backend, name, epoch);
            if request_focus && name == "first" {
                self.focused = Some(id);
            }
            let draft = self.drafts.field(id, epoch, self.frame);
            draft.begin(id, source);
            let mut events = FieldEvents { has_focus: false, lost_focus: false, changed: false, escape: false };
            if self.focused == Some(id) {
                match input {
                    Input::Nothing => events.has_focus = true,
                    Input::Text(t) => {
                        draft.text.push_str(t);
                        events.has_focus = true;
                        events.changed = true;
                    }
                    Input::Enter => {
                        events.lost_focus = true;
                        self.focused = None;
                    }
                }
            }
            if let Some(value) = draft.end(source, events, true) {
                sent.push((name.to_owned(), value));
            }
        }
        self.frame += 1;
        sent
    }
}

#[test]
fn two_file_fields_keep_typing_across_echoes_and_only_commit_the_edited_field() {
    let mut form = Form::new();
    form.frame("backend", 0, "old.lua", true, Input::Nothing);
    assert!(form.frame("backend", 0, "old.lua", false, Input::Text("中é")).is_empty());
    assert!(form.frame("backend", 0, "server.lua", false, Input::Nothing).is_empty());
    let sent = form.frame("backend", 0, "server.lua", false, Input::Enter);
    assert_eq!(sent.len(), 1);
    assert_eq!(sent[0].0, "first");
    assert!(sent[0].1.contains("中é"));
    assert!(form.frame("backend", 0, &sent[0].1, false, Input::Nothing).is_empty());
}

#[test]
fn invalidated_profile_context_discards_typing_even_with_the_same_field_and_epoch() {
    let mut form = Form::new();
    form.frame("backend", 0, "profile-a.lua", true, Input::Nothing);
    form.frame("backend", 0, "profile-a.lua", false, Input::Text("old draft"));
    // The session changed: the same backend, key and epoch come back in
    // another profile.
    form.drafts.discard_context();
    assert!(form.frame("backend", 0, "profile-b.lua", false, Input::Enter).is_empty());
}

#[test]
fn changed_backend_or_session_never_commits_an_old_path_and_storage_is_bounded() {
    let mut form = Form::new();
    for change_session in [false, true] {
        form.frame("before", 0, "old.lua", true, Input::Nothing);
        form.frame("before", 0, "old.lua", false, Input::Text("X"));
        let (backend, epoch) = if change_session { ("before", 1) } else { ("after", 0) };
        assert!(form.frame(backend, epoch, "new.lua", false, Input::Enter).is_empty());
    }
    for index in 0..30 {
        form.frame(&format!("backend-{index}"), 1, "", false, Input::Nothing);
        assert!(form.drafts.len() <= 4);
    }
}
