use omniphony_studio_egui::license_label;

/// The classifier's job is to say "you may not ship this" at a glance: the
/// non-commercial variants and a missing licence are the warnings, the
/// permissive ones are not.
#[test]
fn non_commercial_and_missing_licences_warn() {
    assert_eq!(
        license_label("CC BY-NC-SA 4.0"),
        ("CC BY-NC-SA (non-commercial)".to_owned(), true)
    );
    assert_eq!(
        license_label("Creative Commons non-commercial"),
        ("CC BY-NC (non-commercial)".to_owned(), true)
    );
    assert_eq!(
        license_label("  "),
        ("no license — ask the author".to_owned(), true)
    );
    assert_eq!(
        license_label("CC0"),
        ("CC0 / public domain".to_owned(), false)
    );
    assert_eq!(
        license_label("https://creativecommons.org/licenses/by/4.0/"),
        ("CC BY".to_owned(), false)
    );
    assert_eq!(license_label("MIT"), ("MIT".to_owned(), false));
}

/// A licence paragraph is truncated rather than allowed to push the row out
/// of the dialog; the full text stays in the tooltip.
#[test]
fn a_licence_paragraph_is_truncated() {
    let long = "x".repeat(120);
    let (label, warn) = license_label(&long);
    assert_eq!(label.chars().count(), 58);
    assert!(label.ends_with('…') && !warn);
    // A short one is shown as it is.
    assert_eq!(license_label("Ask the lab").0, "Ask the lab");
}

#[test]
fn the_remaining_classes_and_their_edges() {
    assert_eq!(license_label("Public Domain"), ("CC0 / public domain".to_owned(), false));
    assert_eq!(license_label("CC BY-SA 3.0"), ("CC BY-SA".to_owned(), false));
    assert_eq!(license_label("cc by 4.0"), ("cc by 4.0".to_owned(), false));
    assert_eq!(
        license_label("CC BY 4.0 International, attribution to the lab required"),
        ("CC BY".to_owned(), false)
    );
    assert_eq!(license_label("cc-by"), ("cc-by".to_owned(), false));
    assert_eq!(license_label("The MIT License"), ("MIT".to_owned(), false));
    assert_eq!(license_label("mit"), ("MIT".to_owned(), false));
    assert_eq!(
        license_label("No license given"),
        ("no license — ask the author".to_owned(), true)
    );
    // Exactly sixty characters stay whole.
    let sixty = "y".repeat(60);
    assert_eq!(license_label(&sixty).0, sixty);
    assert_eq!(license_label("\u{a0} trimmed \u{3000}").0, "trimmed");
}

/// A label classified again keeps its label and its warning.
#[test]
fn classifying_a_label_again_gives_the_same_answer() {
    let long = "z".repeat(120);
    let raws = [
        "CC BY-NC-SA 4.0",
        "Creative Commons non-commercial",
        "  ",
        "CC0",
        "https://creativecommons.org/licenses/by/4.0/",
        "The MIT License",
        "Ask the lab",
        long.as_str(),
    ];
    for raw in raws {
        let once = license_label(raw);
        assert_eq!(license_label(&once.0), once, "{raw}");
    }
}
