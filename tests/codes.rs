use wormhole_session::{InputError, WormholeCode, parse_code};

#[test]
fn parse_splits_nameplate_and_words() {
    let c = parse_code("7-crossword-clockwork").unwrap();
    assert_eq!(c.nameplate, "7");
    assert_eq!(c.words, vec!["crossword".to_string(), "clockwork".to_string()]);
}

#[test]
fn parse_accepts_more_words() {
    let c = parse_code("1234-alpha-bravo-charlie").unwrap();
    assert_eq!(c.nameplate, "1234");
    assert_eq!(c.words.len(), 3);
    assert_eq!(c.words[2], "charlie");
}

#[test]
fn code_text_round_trips() {
    let c = WormholeCode {
        nameplate: "42".to_string(),
        words: vec!["purple".to_string(), "sausages".to_string()],
    };
    let text = c.to_text();
    assert_eq!(text, "42-purple-sausages");
    assert_eq!(parse_code(&text), Ok(c));
}

#[test]
fn parse_then_text_gives_back_the_input() {
    let text = "7-crossword-clockwork";
    assert_eq!(parse_code(text).unwrap().to_text(), text);
}

#[test]
fn parse_refuses_malformed_codes() {
    for bad in [
        "",
        "7",
        "7-crossword",
        "-crossword-clockwork",
        "07-crossword-clockwork",
        "x7-crossword-clockwork",
        "7-crossword--clockwork",
        "7-crossword-clockwork-",
        "7-Crossword-clockwork",
        "7-cross word-clockwork",
        "7-crossword-cl0ckwork",
    ] {
        assert_eq!(parse_code(bad), Err(InputError::MalformedCode), "{bad}");
    }
}

#[test]
fn nameplate_getter() {
    let c = parse_code("15-foo-bar").unwrap();
    assert_eq!(c.nameplate(), "15");
}
