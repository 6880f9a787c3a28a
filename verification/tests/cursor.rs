//! Scenario tests for the incremental cursor parser.

use aoc::Parse;
use aoc::Parser;

#[test]
fn skip_then_rest_is_suffix() {
    let s = "hello, world!";
    let mut parser = Parser::new(s);
    parser.skip(7);
    assert_eq!(parser.rest(), "world!");
}

#[test]
fn skip_zero_then_rest_is_whole() {
    let s = "abc";
    let mut parser = Parser::new(s);
    parser.skip(0);
    assert_eq!(parser.rest(), "abc");
}

#[test]
fn skip_all_then_rest_is_empty() {
    let s = "abc";
    let mut parser = Parser::new(s);
    parser.skip(3);
    assert_eq!(parser.rest(), "");
}

#[test]
fn skip_returns_copy_of_new_state() {
    let s = "12345foo1234567bar";
    let mut parser = Parser::new(s).skip(5);
    assert_eq!(parser.take(3), "foo");
    parser.skip(7);
    assert_eq!(parser.rest(), "bar");
}

#[test]
fn take_consumes_like_skip() {
    let s = "12345foo1234567bar.";
    let mut with_take = Parser::new(s);
    let taken = with_take.take(5).to_string();
    assert_eq!(taken, "12345");
    let mut with_skip = Parser::new(s);
    with_skip.skip(5);
    assert_eq!(with_take.rest(), with_skip.rest());
}

#[test]
fn take_in_sequence() {
    let s = "12345foo1234567bar.";
    let mut parser = Parser::new(s);
    parser.skip(5);
    assert_eq!(parser.take(3), "foo");
    parser.skip(7);
    assert_eq!(parser.take(3), "bar");
    assert_eq!(parser.rest(), ".");
}

#[test]
fn before_consumes_delimiter() {
    let s = "move 10 from 271 to 3";
    let mut parser = Parser::new(s);
    parser.skip(5);
    assert_eq!(parser.before(" "), "10");
    parser.skip(5);
    assert_eq!(parser.before(" "), "271");
    parser.skip(3);
    assert_eq!(parser.rest(), "3");
}

#[test]
fn after_returns_tail() {
    let s = "move 10 from 271 to 3";
    let parser = Parser::new(s);
    assert_eq!(parser.after("to "), "3");
}

#[test]
fn between_with_spaces() {
    let s = "move 10 from 271 to 3";
    let mut parser = Parser::new(s);
    assert_eq!(parser.between(" ", " "), "10");
    assert_eq!(parser.between(" ", " "), "271");
    assert_eq!(parser.after(" "), "3");
}

#[test]
fn between_with_word_delimiters() {
    let s = "move 10 from 271 to 3";
    let mut parser = Parser::new(s);
    assert_eq!(parser.between("move ", " "), "10");
    assert_eq!(parser.between("from ", " "), "271");
    assert_eq!(parser.after("to "), "3");
}

#[test]
fn between_window_and_remaining_cursor() {
    let s = "a<x>b<y>c";
    let mut parser = Parser::new(s);
    assert_eq!(parser.between("<", ">"), "x");
    assert_eq!(parser.between("<", ">"), "y");
    assert_eq!(parser.rest(), "c");
}

#[test]
fn between_searches_from_current_cursor() {
    let s = "k:1 k:2";
    let mut parser = Parser::new(s);
    assert_eq!(parser.between("k:", " "), "1");
    assert_eq!(parser.after("k:"), "2");
}

#[test]
fn construction_has_no_hidden_state() {
    let s = "move 10 from 271 to 3";
    let mut first = Parser::new(s);
    let mut second = Parser::new(s);
    let a = (
        first.between(" ", " ").to_string(),
        first.between(" ", " ").to_string(),
        first.rest().to_string(),
    );
    let b = (
        second.between(" ", " ").to_string(),
        second.between(" ", " ").to_string(),
        second.rest().to_string(),
    );
    assert_eq!(a, b);
}

#[test]
fn as_parser_matches_new() {
    let s = "ab cd";
    let mut from_trait = s.as_parser();
    let mut from_new = Parser::new(s);
    assert_eq!(from_trait.before(" "), from_new.before(" "));
    assert_eq!(from_trait.rest(), from_new.rest());
}

#[test]
fn try_between_present_and_absent() {
    let s = "ecl:gry pid:860033327 eyr:2020";
    assert_eq!(s.try_between("ecl:", " "), Some("gry"));
    assert_eq!(s.try_between("pid:", " "), Some("860033327"));
    assert_eq!(s.try_between("eyr:", " "), Some("2020"));
    assert_eq!(s.try_between("cid:", " "), None);
}

#[test]
fn try_between_without_closing_delimiter_runs_to_end() {
    let s = "key=value";
    assert_eq!(s.try_between("key=", ";"), Some("value"));
}

#[test]
fn try_between_on_string_value() {
    let s = String::from("ecl:gry pid:860033327 eyr:2020");
    assert_eq!(s.try_between("ecl:", " "), Some("gry"));
    assert_eq!(s.try_between("cid:", " "), None);
}
