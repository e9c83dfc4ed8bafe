use rocket_okapi::text::{
    append_decimal, char_position, chars_of, copy_optional_text, copy_texts, lex_position,
    same_text, Position,
};

fn numeral(k: u128) -> String {
    let mut out = String::new();
    append_decimal(&mut out, k);
    out
}

fn position(a: &str, b: &str) -> Position {
    lex_position(&chars_of(a), &chars_of(b))
}

#[test]
fn decimal_numerals() {
    assert_eq!(numeral(0), "0");
    assert_eq!(numeral(7), "7");
    assert_eq!(numeral(10), "10");
    assert_eq!(numeral(2024), "2024");
    assert_eq!(numeral(u128::MAX), u128::MAX.to_string());
}

#[test]
fn decimal_is_appended() {
    let mut out = String::from("User_");
    append_decimal(&mut out, 12);
    assert_eq!(out, "User_12");
}

#[test]
fn chars_are_copied_in_order() {
    assert_eq!(chars_of("a/b"), vec!['a', '/', 'b']);
    assert_eq!(chars_of(""), Vec::<char>::new());
    assert_eq!(chars_of("\u{e9}x"), vec!['\u{e9}', 'x']);
}

#[test]
fn lexicographic_order() {
    assert_eq!(position("", ""), Position::Same);
    assert_eq!(position("abc", "abc"), Position::Same);
    assert_eq!(position("", "a"), Position::Before);
    assert_eq!(position("a", ""), Position::After);
    assert_eq!(position("/a", "/b"), Position::Before);
    assert_eq!(position("/b", "/a"), Position::After);
    assert_eq!(position("/user", "/user/{}"), Position::Before);
    assert_eq!(position("/user/{}", "/user"), Position::After);
    assert_eq!(position("Z", "a"), Position::Before);
    assert_eq!(position("z", "\u{e9}"), Position::Before);
}

#[test]
fn characters_compare_by_code_point() {
    assert_eq!(char_position('a', 'b'), Position::Before);
    assert_eq!(char_position('b', 'a'), Position::After);
    assert_eq!(char_position('/', '/'), Position::Same);
}

#[test]
fn texts_compare_by_content() {
    assert!(same_text("index.html", "index.html"));
    assert!(!same_text("index.html", "index.htm"));
    assert!(!same_text("a", "b"));
    assert!(same_text("", ""));
}

#[test]
fn texts_are_copied() {
    let v = vec!["a".to_string(), "b".to_string()];
    assert_eq!(copy_texts(&v), v);
    assert_eq!(copy_optional_text(&Some("x".to_string())), Some("x".to_string()));
    assert_eq!(copy_optional_text(&None), None);
}
