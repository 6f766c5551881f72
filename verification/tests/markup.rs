use omniphony_studio_egui::{parse, Piece};

fn flatten(body: &str) -> Vec<Vec<(&'static str, String)>> {
    parse(body)
        .into_iter()
        .map(|line| {
            line.into_iter()
                .map(|piece| match piece {
                    Piece::Text(t) => ("text", t),
                    Piece::Strong(t) => ("strong", t),
                    Piece::Link { text, .. } => ("link", text),
                })
                .collect()
        })
        .collect()
}

#[test]
fn a_term_and_its_explanation_keep_their_weights() {
    let lines = flatten("<strong>Host</strong>: the target.<br><br>Second.");
    assert_eq!(
        lines[0],
        vec![
            ("strong", "Host".to_owned()),
            ("text", ": the target.".to_owned())
        ]
    );
    // `<br><br>` is a paragraph break: the empty line between is what carries it.
    assert!(lines[1].is_empty());
    assert_eq!(lines[2], vec![("text", "Second.".to_owned())]);
}

#[test]
fn a_link_keeps_its_text_and_its_target() {
    let lines = parse(r#"see <a href="https://example.test" target="_blank">here</a>."#);
    match &lines[0][1] {
        Piece::Link { text, href } => {
            assert_eq!(text, "here");
            assert_eq!(href, "https://example.test");
        }
        _ => panic!("the anchor did not survive"),
    }
}

#[test]
fn text_that_is_not_markup_survives_unchanged() {
    // A bare angle bracket is text: these strings talk about values.
    let lines = flatten("ratio < 1 means slower");
    assert_eq!(lines[0][0].1, "ratio < 1 means slower");
    // An unknown wrapper loses the tag and keeps the words.
    let lines = flatten("<span class=x>kept</span>");
    assert_eq!(lines[0][0].1, "kept");
}

#[test]
fn an_empty_body_is_one_empty_line() {
    let lines = flatten("");
    assert_eq!(lines.len(), 1);
    assert!(lines[0].is_empty());
    assert_eq!(flatten("plain"), vec![vec![("text", "plain".to_owned())]]);
}

#[test]
fn a_link_without_a_quoted_target_is_plain_text() {
    let lines = flatten("<a href=bare>x</a> <B>Bold</B> <em>e</em>");
    assert_eq!(
        lines[0],
        vec![
            ("text", "x".to_owned()),
            ("text", " ".to_owned()),
            ("strong", "Bold".to_owned()),
            ("text", " ".to_owned()),
            ("strong", "e".to_owned()),
        ]
    );
    let lines = parse("<a href='single'>s</a>");
    match &lines[0][0] {
        Piece::Link { href, .. } => assert_eq!(href, "single"),
        _ => panic!("the single-quoted anchor did not survive"),
    }
}

/// Parsing deletes the tags and nothing else, and each `<br>` starts a line.
#[test]
fn parsing_drops_exactly_the_tags() {
    let lines = flatten("a <b>bold</b> x<br>y <em>z</em><BR/>w < 1");
    assert_eq!(lines.len(), 3);
    let text: Vec<String> = lines
        .iter()
        .map(|line| line.iter().map(|(_, t)| t.as_str()).collect())
        .collect();
    assert_eq!(text, vec!["a bold x", "y z", "w < 1"]);
    assert!(lines.iter().flatten().all(|(_, t)| !t.is_empty()));
}
