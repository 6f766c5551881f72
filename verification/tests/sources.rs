use omniphony_studio_egui::panels::{effective_reason, generator_options, GeneratorDecl, Label};
use omniphony_studio_egui::{phantom_gate, reason_text};

#[test]
fn on_off_parameters_and_method_only_parameters_are_told_apart() {
    assert_eq!(
        phantom_gate("passes", true),
        Some("twoDSources.phantomBroadbandOnly")
    );
    assert_eq!(phantom_gate("passes", false), None);
    assert_eq!(
        phantom_gate("heights", false),
        Some("twoDSources.phantomSpectralOnly")
    );
    assert_eq!(phantom_gate("strength", true), None);
}

#[test]
fn every_reason_has_its_key_and_the_rest_read_as_no_stream() {
    assert_eq!(reason_text("active"), "twoDSources.status.active");
    assert_eq!(reason_text("master_off"), "twoDSources.status.masterOff");
    assert_eq!(reason_text("insufficient_channels"), "twoDSources.status.insufficientChannels");
    assert_eq!(reason_text("whatever"), "twoDSources.status.noStream");
    assert_eq!(effective_reason(false, true, Some("active")), "off");
    assert_eq!(effective_reason(true, false, Some("active")), "master_off");
    assert_eq!(effective_reason(true, true, Some("active")), "active");
    assert_eq!(effective_reason(true, true, None), "no_stream");
}

fn ids(declared: Option<Vec<GeneratorDecl>>) -> Vec<String> {
    generator_options(declared).into_iter().map(|(id, _)| id).collect()
}

fn decl(id: Option<&str>, translated: Option<&str>, label: Option<&str>) -> GeneratorDecl {
    GeneratorDecl {
        id: id.map(str::to_owned),
        translated: translated.map(str::to_owned),
        label: label.map(str::to_owned),
    }
}

#[test]
fn an_empty_generator_schema_falls_back_to_the_built_in_generators() {
    let built_in = ["none", "copy_up", "pad", "dirac"];
    assert_eq!(ids(None), built_in);
    assert_eq!(ids(Some(vec![])), built_in);
    // A declared list replaces them.
    assert_eq!(ids(Some(vec![decl(Some("custom"), None, Some("Custom"))])), ["none", "custom"]);
}

#[test]
fn a_declared_generator_is_labelled_by_its_translation_its_label_or_its_id() {
    let options = generator_options(Some(vec![
        decl(Some("a"), Some("Alpha"), Some("A")),
        decl(Some("b"), Some("twoDSources.gen.b"), Some("Beta")),
        decl(None, Some("Skipped"), None),
        decl(Some("c"), None, None),
    ]));
    assert_eq!(
        options,
        vec![
            ("none".to_owned(), Label::Key("twoDSources.objectGenNone")),
            ("a".to_owned(), Label::Text("Alpha".to_owned())),
            ("b".to_owned(), Label::Text("Beta".to_owned())),
            ("c".to_owned(), Label::Text("c".to_owned())),
        ]
    );
    assert_eq!(generator_options(None)[1], ("copy_up".to_owned(), Label::Key("twoDSources.objectGenCopyUp")));
}
