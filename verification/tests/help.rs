use omniphony_studio_egui::help::HelpCards;
use omniphony_studio_egui::panels::Overlay;
use omniphony_studio_egui::{excerpt, EXCERPT_MAX};

/// A tooltip gets the first sentence, as plain text, and knows when it has
/// left something out.
#[test]
fn the_excerpt_is_the_first_sentence_without_its_markup() {
    assert_eq!(
        excerpt("The <strong>room</strong> in metres. Then the rest.<br>And more."),
        "The room in metres."
    );
    assert_eq!(
        excerpt("<b>Term:</b> what it does<br>Next term: more"),
        "Term: what it does…"
    );
    assert_eq!(excerpt("  spaced   out\n words "), "spaced out words");
    assert_eq!(excerpt(""), "");
    let long = "word ".repeat(80);
    let cut = excerpt(&long);
    assert!(cut.ends_with('…'), "{cut}");
    assert!(
        cut.chars().count() <= EXCERPT_MAX + 1,
        "{}",
        cut.chars().count()
    );
}

#[test]
fn a_break_before_any_word_leaves_nothing_out() {
    assert_eq!(excerpt("<br>After the break."), "");
    assert_eq!(excerpt("<p>Para</p>"), "");
    assert_eq!(excerpt("a < b, always!"), "a < b, always!");
    assert_eq!(excerpt("Unknown <span>tag</span> kept"), "Unknown tag kept");
}

#[test]
fn the_cut_falls_exactly_at_the_limit() {
    // 16 words of 9 characters and their spaces make 159 characters.
    let word = "abcdefghi";
    let body = vec![word; 17].join(" ");
    let cut = excerpt(&body);
    assert_eq!(cut.chars().count(), 16 * 10 - 1 + 1);
    assert!(cut.ends_with('…'));
    let whole = vec![word; 16].join(" ");
    assert_eq!(excerpt(&whole), whole);
}

fn overlay(title: &str) -> Overlay {
    Overlay { title: title.to_owned(), body: "body".to_owned() }
}

#[test]
fn only_one_help_is_ever_open() {
    let mut h = HelpCards::new();
    h.trigger(1, "What the gain does.", true);
    assert!(h.is_open(1));
    assert!(h.claimed);
    h.end_frame(true);
    // The click was on the trigger: the card stays.
    assert_eq!(h.open, Some(1));
    assert!(!h.claimed);
    // Opening another card closes the first.
    h.trigger(2, "What the delay does.", true);
    assert_eq!(h.open, Some(2));
    h.end_frame(true);
    // Clicking its trigger again closes it.
    h.trigger(2, "What the delay does.", true);
    assert_eq!(h.open, None);
    h.end_frame(true);
    // A help with nothing to say has no trigger.
    h.trigger(3, "  ", true);
    assert_eq!(h.open, None);
    assert!(!h.claimed);
}

#[test]
fn the_overlay_closes_the_card_and_a_stray_click_closes_it_too() {
    let mut h = HelpCards::new();
    h.trigger(1, "Help.", true);
    h.end_frame(true);
    h.overlay_trigger(true, overlay("Renderer"));
    assert_eq!(h.open, None);
    assert_eq!(h.requested.as_ref().map(|o| o.title.as_str()), Some("Renderer"));
    h.end_frame(true);
    h.trigger(4, "Help.", true);
    h.end_frame(false);
    // A click on the card itself keeps it.
    h.card_clicked();
    h.end_frame(true);
    assert_eq!(h.open, Some(4));
    // A click elsewhere closes it.
    h.end_frame(true);
    assert_eq!(h.open, None);
    // Nothing clicked, nothing changes.
    h.trigger(5, "Help.", true);
    h.end_frame(false);
    h.overlay_trigger(false, overlay("x"));
    h.end_frame(false);
    assert_eq!(h.open, Some(5));
}

/// What is already an excerpt comes back unchanged, cut or not.
#[test]
fn an_excerpt_is_its_own_excerpt() {
    let bodies = [
        "The <strong>room</strong> in metres. Then the rest.<br>And more.",
        "<b>Term:</b> what it does<br>Next term: more",
        "  spaced   out\n words ",
        "<br>After the break.",
        "a < b, always!",
        "Unknown <span>tag</span> kept",
    ];
    for body in bodies {
        let once = excerpt(body);
        assert!(once.chars().count() <= EXCERPT_MAX);
        assert_eq!(excerpt(&once), once, "{body}");
    }
    let word = "abcdefghi";
    let once = excerpt(&vec![word; 15].join(" "));
    assert_eq!(excerpt(&once), once);
}
