use ttml_processor::tokenize::{auto_tokenize, get_char_type, CharType};

#[test]
fn test_auto_tokenize() {
    assert_eq!(auto_tokenize("Hello world"), vec!["Hello", " ", "world"]);
    assert_eq!(auto_tokenize("你好世界"), vec!["你", "好", "世", "界"]);
    assert_eq!(auto_tokenize("Hello你好"), vec!["Hello", "你", "好"]);
    assert_eq!(auto_tokenize("word123"), vec!["word", "123"]);
    assert_eq!(auto_tokenize("你好-世界"), vec!["你", "好", "-", "世", "界"]);
    assert_eq!(auto_tokenize("Hello  world"), vec!["Hello", "  ", "world"]);
    assert_eq!(auto_tokenize(""), Vec::<String>::new());
    assert_eq!(
        auto_tokenize("OK, Let's GO! 走吧123"),
        vec!["OK", ",", " ", "Let", "'", "s", " ", "GO", "!", " ", "走", "吧", "123"]
    );
}

#[test]
fn test_auto_tokenize_with_syllables() {
    assert_eq!(auto_tokenize("hyphenation"), vec!["hy", "phen", "a", "tion"]);
    assert_eq!(auto_tokenize("Amazing!"), vec!["Amaz", "ing", "!",]);
    assert_eq!(auto_tokenize("wonderful世界"), vec!["won", "der", "ful", "世", "界"]);
}

#[test]
fn tokens_concatenate_to_the_text() {
    for text in ["hyphenation is wonderful", "走吧 123 go!", "  a  ", "e\u{301}te\u{301}"] {
        assert_eq!(auto_tokenize(text).concat(), text);
    }
}

#[test]
fn char_types() {
    assert_eq!(get_char_type(' '), CharType::Whitespace);
    assert_eq!(get_char_type('\u{3000}'), CharType::Whitespace);
    assert_eq!(get_char_type('q'), CharType::Latin);
    assert_eq!(get_char_type('Z'), CharType::Latin);
    assert_eq!(get_char_type('7'), CharType::Numeric);
    assert_eq!(get_char_type('你'), CharType::Cjk);
    assert_eq!(get_char_type('か'), CharType::Cjk);
    assert_eq!(get_char_type('カ'), CharType::Cjk);
    assert_eq!(get_char_type('한'), CharType::Cjk);
    assert_eq!(get_char_type('é'), CharType::Other);
    assert_eq!(get_char_type('!'), CharType::Other);
}

#[test]
fn words_with_letters_beyond_ascii_are_kept_whole() {
    assert_eq!(auto_tokenize("ha\u{301}ppiness"), vec!["ha\u{301}ppiness"]);
    let tokens = auto_tokenize("wal\u{212A}ing");
    assert_eq!(tokens.concat(), "wal\u{212A}ing");
    assert!(tokens.contains(&"\u{212A}".to_string()));
}

#[test]
fn tokens_hold_text_and_rebuild_the_input() {
    for text in ["Hello world", "  a1 b2  ", "OK, 走吧!", "x", " "] {
        let tokens = auto_tokenize(text);
        assert!(!tokens.is_empty());
        assert!(tokens.iter().all(|t| !t.is_empty()));
        assert_eq!(tokens.concat(), text);
    }
}

#[test]
fn a_grapheme_is_classed_by_its_first_character() {
    // "é" written as 'e' and a combining accent is one Latin grapheme, so it
    // stays in the word; the word is not all ASCII, so it is not hyphenated
    assert_eq!(auto_tokenize("cafe\u{301}s ok"), vec!["cafe\u{301}s", " ", "ok"]);
}
