use task_shell::text::{
    contains_char, has_suffix, has_white_space_property, same_text, split_text, split_words,
    text_of, to_chars, trim_text,
};

#[test]
fn words_are_split_at_spaces() {
    assert_eq!(split_words(" a  b\tc \t d"), vec!["a", "b\tc", "d"]);
    assert_eq!(split_words(""), Vec::<String>::new());
    assert_eq!(split_words(" \t \n "), Vec::<String>::new());
    assert_eq!(split_words("one"), vec!["one"]);
    assert_eq!(split_words("\u{3000}x\u{a0} y\n"), vec!["x", "y"]);
}

#[test]
fn split_keeps_empty_pieces() {
    assert_eq!(split_text("a::b:", ':'), vec!["a", "", "b", ""]);
    assert_eq!(split_text("", ':'), vec![""]);
    assert_eq!(split_text("a;b", ':'), vec!["a;b"]);
    for text in ["", ":", "x", "a:b", "::a::", "ä:ö:ü"] {
        assert_eq!(split_text(text, ':').join(":"), text);
        let pieces: Vec<&str> = text.split(':').collect();
        assert_eq!(split_text(text, ':'), pieces);
    }
}

#[test]
fn trim_removes_white_space_at_both_ends() {
    for text in ["", " ", " a ", "\t\r\na b\u{2028}", "a", "\u{85}\u{1680}z", "a\u{200b} "] {
        assert_eq!(trim_text(text), text.trim());
    }
}

#[test]
fn white_space_is_that_of_unicode() {
    for c in '\0'..=char::MAX {
        assert_eq!(has_white_space_property(c), c.is_whitespace(), "{:?}", c);
    }
}

#[test]
fn texts_are_compared_by_their_characters() {
    assert!(same_text("", ""));
    assert!(same_text("pwd", "pwd"));
    assert!(!same_text("pwd", "pw"));
    assert!(!same_text("pwd", "pwD"));
}

#[test]
fn characters_and_suffixes_are_found() {
    assert!(contains_char("a/b", '/'));
    assert!(!contains_char("ab", '/'));
    assert!(!contains_char("", '/'));
    assert!(has_suffix("run.EXE", ".EXE"));
    assert!(has_suffix("run", ""));
    assert!(has_suffix("", ""));
    assert!(!has_suffix("run.exe", ".EXE"));
    assert!(!has_suffix("E", ".EXE"));
}

#[test]
fn characters_make_up_the_text() {
    let chars = to_chars("häuser");
    assert_eq!(chars, vec!['h', 'ä', 'u', 's', 'e', 'r']);
    assert_eq!(text_of(&chars, 1, 4), "äus");
    assert_eq!(text_of(&chars, 2, 2), "");
}
