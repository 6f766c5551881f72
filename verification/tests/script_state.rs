use omniphony_studio_egui::{FileContent, ScriptEditor};

fn content(backend: &str, key: &str, name: &str, text: &str) -> FileContent {
    FileContent {
        backend: backend.to_owned(),
        key: key.to_owned(),
        name: name.to_owned(),
        content: text.to_owned(),
    }
}

#[test]
fn the_editor_adopts_only_the_answer_to_its_own_request() {
    let (mut editor, request) =
        ScriptEditor::open("lua", "script", Some("lua".to_owned()), vec!["lua".to_owned()], true);
    assert_eq!(request.backend, "lua");
    assert_eq!(request.key, "script");
    assert_eq!(request.name, None);
    assert!(editor.awaiting);
    assert_eq!(editor.status, Some(("backend.file.editor.loading".to_owned(), false)));
    assert!(!editor.accepts(&content("other", "script", "x.lua", "")));
    assert!(!editor.accepts(&content("lua", "other", "x.lua", "")));
    let answer = content("lua", "script", "main.lua", "print(1)");
    assert!(editor.accepts(&answer));
    editor.adopt(answer);
    assert_eq!(editor.text, "print(1)");
    assert_eq!(editor.name, "main.lua");
    assert!(!editor.awaiting);
    // Nothing is out any more: a late duplicate is not adopted.
    assert!(!editor.accepts(&content("lua", "script", "main.lua", "print(2)")));
}

#[test]
fn a_save_needs_a_name() {
    let (mut editor, _) = ScriptEditor::open("lua", "script", None, Vec::new(), false);
    editor.name = "   ".to_owned();
    assert!(editor.save().is_none());
    assert_eq!(editor.status, Some(("backend.file.editor.nameRequired".to_owned(), true)));
    editor.name = " a.lua ".to_owned();
    editor.text = "x = 1".to_owned();
    let put = editor.save().expect("a named save is sent");
    assert_eq!(put.name, "a.lua");
    assert_eq!(put.content, "x = 1");
    assert_eq!(editor.reload_name(), Some("a.lua".to_owned()));
}

#[test]
fn a_new_file_takes_the_first_extension() {
    let (mut editor, _) =
        ScriptEditor::open("lua", "script", None, vec!["lua".to_owned(), "txt".to_owned()], true);
    editor.text = "old".to_owned();
    editor.start_new();
    assert_eq!(editor.name, "untitled.lua");
    assert_eq!(editor.text, "");
    assert!(!editor.awaiting);
    let (mut bare, _) = ScriptEditor::open("lua", "script", None, Vec::new(), true);
    bare.start_new();
    assert_eq!(bare.name, "untitled.txt");
    assert_eq!(bare.reload_name(), Some("untitled.txt".to_owned()));
    let request = bare.request(bare.reload_name());
    assert_eq!(request.name, Some("untitled.txt".to_owned()));
    assert!(bare.awaiting);
}

#[test]
fn a_picked_file_becomes_the_name_and_is_asked_for() {
    let (mut editor, _) = ScriptEditor::open("lua", "script", None, vec!["lua".to_owned()], true);
    editor.text = "draft".to_owned();
    let request = editor.pick("/scripts/pan.lua".to_owned());
    assert_eq!(editor.name, "/scripts/pan.lua");
    assert_eq!(request.name.as_deref(), Some("/scripts/pan.lua"));
    assert_eq!((request.backend.as_str(), request.key.as_str()), ("lua", "script"));
    assert!(editor.awaiting);
    assert_eq!(editor.text, "draft");
}
