use omniphony_studio_egui::{tokenize, Tok};

fn kinds(src: &str) -> Vec<(&str, Tok)> {
    tokenize(src)
        .into_iter()
        .map(|(a, b, tok)| (&src[a..b], tok))
        .collect()
}

#[test]
fn the_runs_cover_the_source_exactly() {
    let src = "local x = 1 -- note\n";
    let mut at = 0;
    for (start, end, _) in tokenize(src) {
        assert_eq!(start, at, "a gap or an overlap between runs");
        at = end;
    }
    assert_eq!(at, src.len());
}

#[test]
fn keywords_strings_numbers_and_comments_are_told_apart() {
    assert_eq!(
        kinds("local s = \"hi\" -- why\n"),
        vec![
            ("local", Tok::Keyword),
            (" s = ", Tok::Plain),
            ("\"hi\"", Tok::Str),
            (" ", Tok::Plain),
            ("-- why", Tok::Comment),
            ("\n", Tok::Plain),
        ]
    );
    assert_eq!(kinds("0x1f")[0], ("0x1f", Tok::Number));
    // `local` inside a word is not the keyword.
    assert_eq!(kinds("locally")[0], ("locally", Tok::Plain));
}

#[test]
fn a_long_comment_ends_and_an_open_quote_stops_at_the_line() {
    assert_eq!(
        kinds("--[[ a ]] b"),
        vec![("--[[ a ]]", Tok::Comment), (" b", Tok::Plain)]
    );
    assert_eq!(
        kinds("x = \"open\nlocal y"),
        vec![
            ("x = ", Tok::Plain),
            ("\"open", Tok::Str),
            ("\n", Tok::Plain),
            ("local", Tok::Keyword),
            (" y", Tok::Plain),
        ]
    );
    // An escaped quote does not end the string.
    assert_eq!(kinds("\"a\\\"b\"")[0].1, Tok::Str);
}

#[test]
fn a_multibyte_character_is_stepped_over_whole() {
    let src = "-- é\nx";
    assert_eq!(
        kinds(src),
        vec![("-- é", Tok::Comment), ("\nx", Tok::Plain)]
    );
}

#[test]
fn an_empty_source_has_no_runs() {
    assert!(tokenize("").is_empty());
}

#[test]
fn a_long_string_and_a_number_with_a_point() {
    assert_eq!(
        kinds("[[s]]3.5 é"),
        vec![("[[s]]", Tok::Str), ("3.5", Tok::Number), (" é", Tok::Plain)]
    );
    // Every keyword is recognised, and nothing that merely contains one.
    for word in ["and", "break", "do", "else", "elseif", "end", "false", "for", "function",
        "goto", "if", "in", "local", "nil", "not", "or", "repeat", "return", "then", "true",
        "until", "while"]
    {
        assert_eq!(kinds(word), vec![(word, Tok::Keyword)]);
    }
    assert_eq!(kinds("_end"), vec![("_end", Tok::Plain)]);
}

#[test]
fn an_unterminated_long_comment_runs_to_the_end() {
    assert_eq!(kinds("a --[[ open"), vec![("a ", Tok::Plain), ("--[[ open", Tok::Comment)]);
    assert_eq!(kinds("'esc\\"), vec![("'esc\\", Tok::Str)]);
}

/// Every run's kind shows in its text: keywords are keywords, comments start
/// with two dashes, strings with a quote or `[[`, numbers with a digit.
#[test]
fn each_kind_shows_in_its_text() {
    let src = "local function f(a) return a .. 'x' .. [[y]] end -- c\nif 3 then while true do break end end";
    let keywords = [
        "and", "break", "do", "else", "elseif", "end", "false", "for", "function", "goto", "if",
        "in", "local", "nil", "not", "or", "repeat", "return", "then", "true", "until", "while",
    ];
    let mut seen = Vec::new();
    for (text, tok) in kinds(src) {
        match tok {
            Tok::Keyword => assert!(keywords.contains(&text), "{text}"),
            Tok::Comment => assert!(text.starts_with("--"), "{text}"),
            Tok::Str => assert!(
                text.starts_with('"') || text.starts_with('\'') || text.starts_with("[["),
                "{text}"
            ),
            Tok::Number => assert!(text.as_bytes()[0].is_ascii_digit(), "{text}"),
            Tok::Plain => {}
        }
        seen.push(tok);
    }
    for tok in [Tok::Keyword, Tok::Comment, Tok::Str, Tok::Number] {
        assert!(seen.contains(&tok));
    }
}
