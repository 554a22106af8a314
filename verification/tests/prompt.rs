use pubsub_replay::prompt::{confirms_overwrite, topic_from_prompt, trimmed};

#[test]
fn answer_n_declines() {
    assert!(!confirms_overwrite("n"));
    assert!(!confirms_overwrite("n\n"));
    assert!(!confirms_overwrite("N"));
    assert!(!confirms_overwrite("no"));
}

#[test]
fn empty_answer_declines() {
    assert!(!confirms_overwrite(""));
    assert!(!confirms_overwrite("\n"));
    assert!(!confirms_overwrite("   \r\n"));
}

#[test]
fn y_and_yes_confirm_in_any_case() {
    for answer in ["y", "Y", "yes", "YES", "Yes", "yEs", "yeS", "YeS", "y\n", "yes\r\n", "  Yes \t\n"] {
        assert!(confirms_overwrite(answer), "{:?}", answer);
    }
}

#[test]
fn anything_else_declines() {
    for answer in ["ye", "yess", "yeah", "y es", "yes!", "'y'", "ok", "1", "true", "\u{ff59}", "\u{212a}"] {
        assert!(!confirms_overwrite(answer), "{:?}", answer);
    }
}

#[test]
fn trimming_matches_the_standard_library() {
    for text in [
        "",
        " ",
        "a",
        " a",
        "a ",
        "  a b  ",
        "\t\n\r a\u{b}\u{c}",
        "\u{a0}x\u{3000}",
        "\u{2003}\u{2028}mid dle\u{85}\u{1680}",
        "\u{200b}zero width stays\u{200b}",
        "\u{feff}bom stays",
        "\n\n\n",
    ] {
        assert_eq!(trimmed(text), text.trim(), "{:?}", text);
    }
}

#[test]
fn topic_is_the_typed_line_without_white_space() {
    assert_eq!(topic_from_prompt("weather\n"), "weather");
    assert_eq!(topic_from_prompt("  a topic \r\n"), "a topic");
    assert_eq!(topic_from_prompt("\n"), "");
}
