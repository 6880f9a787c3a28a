//! Scenario tests for scalar conversion, the integer sequences, and the
//! completion helpers.

use aoc::FromStrUnwrap;
use aoc::Ints;
use aoc::IterUnwrap;
use aoc::Parse;
use aoc::UInts;

#[test]
fn parse_uw_signed() {
    assert_eq!("-205".parse_uw::<i32>(), -205);
    assert_eq!("+45".parse_uw::<i32>(), 45);
    assert_eq!("0".parse_uw::<i32>(), 0);
}

#[test]
fn parse_uw_extremes() {
    assert_eq!("2147483647".parse_uw::<i32>(), i32::MAX);
    assert_eq!("-2147483648".parse_uw::<i32>(), i32::MIN);
    assert_eq!("18446744073709551615".parse_uw::<u64>(), u64::MAX);
    assert_eq!("-9223372036854775808".parse_uw::<i64>(), i64::MIN);
}

#[test]
fn parse_uw_on_string_value() {
    let s = String::from("-205");
    assert_eq!(s.parse_uw::<i32>(), -205);
}

#[test]
fn parse_via_trait_function() {
    assert_eq!(<u32 as FromStrUnwrap>::parse("302"), 302);
    assert_eq!(<usize as FromStrUnwrap>::parse("9"), 9);
}

#[test]
fn idx_returns_ascii_byte() {
    let s = "hello, world!";
    assert_eq!(s.idx(0), b'h');
    assert_eq!(s.idx(7), b'w');
}

#[test]
fn signed_sequence_round_trip() {
    let s = "some signed integers: 15, -302 and +45.";
    let mut ints = s.ints_iter::<i32>();
    assert_eq!(ints.next(), Some(15));
    assert_eq!(ints.next(), Some(-302));
    assert_eq!(ints.next(), Some(45));
    assert_eq!(ints.next(), None);
    assert_eq!(ints.next(), None);
}

#[test]
fn signed_sequence_keeps_only_adjacent_sign() {
    let mut ints = "++4, -+5".ints_iter::<i32>();
    assert_eq!(ints.next(), Some(4));
    assert_eq!(ints.next(), Some(5));
    assert_eq!(ints.next(), None);
}

#[test]
fn signed_sequence_adjacent_minus_applies() {
    let mut ints = "--6".ints_iter::<i32>();
    assert_eq!(ints.next(), Some(-6));
    assert_eq!(ints.next(), None);
}

#[test]
fn unsigned_sequence_ignores_signs() {
    let s = "some signed integers: 15, -302 and +45.";
    let mut uints = s.uints_iter::<u32>();
    assert_eq!(uints.next(), Some(15));
    assert_eq!(uints.next(), Some(302));
    assert_eq!(uints.next(), Some(45));
    assert_eq!(uints.next(), None);
}

#[test]
fn sequences_on_text_without_digits() {
    assert_eq!("".ints_iter::<i32>().next(), None);
    assert_eq!("abc".ints_iter::<i32>().next(), None);
    assert_eq!("a+b-c".ints_iter::<i32>().next(), None);
    assert_eq!("".uints_iter::<u32>().next(), None);
    assert_eq!("-+".uints_iter::<u32>().next(), None);
}

#[test]
fn sequence_with_sign_at_end() {
    let mut ints = "abc-".ints_iter::<i32>();
    assert_eq!(ints.next(), None);
}

#[test]
fn single_digit_text() {
    let mut ints = "7".ints_iter::<i32>();
    assert_eq!(ints.next(), Some(7));
    assert_eq!(ints.next(), None);
}

#[test]
fn digits_at_both_ends() {
    let mut uints = "12ab34".uints_iter::<u32>();
    assert_eq!(uints.next(), Some(12));
    assert_eq!(uints.next(), Some(34));
    assert_eq!(uints.next(), None);
}

#[test]
fn constructors_match_trait_methods() {
    let s = "1 2 3";
    let mut from_struct = Ints::<i32>::new(s);
    let mut from_trait = s.ints_iter::<i32>();
    assert_eq!(from_struct.next(), from_trait.next());
    let mut u_from_struct = UInts::<u32>::new(s);
    let mut u_from_trait = s.uints_iter::<u32>();
    assert_eq!(u_from_struct.next(), u_from_trait.next());
}

#[test]
fn next_uw_yields_items_in_order() {
    let mut ints = "1, -2, +3".ints_iter::<i64>();
    assert_eq!(ints.next_uw(), 1);
    assert_eq!(ints.next_uw(), -2);
    assert_eq!(ints.next_uw(), 3);
}

#[test]
fn collect_n_preserves_order_and_position() {
    let mut ints = "1 2 3 4".ints_iter::<i32>();
    let first_three = ints.collect_n::<3>();
    assert_eq!(first_three, vec![1, 2, 3]);
    assert_eq!(ints.next(), Some(4));
}

#[test]
fn collect_n_all_items_then_exhausted() {
    let mut uints = "10,20".uints_iter::<u64>();
    let both = uints.collect_n::<2>();
    assert_eq!(both, vec![10, 20]);
    assert_eq!(uints.next(), None);
}

#[test]
fn ints_array_helper() {
    let s = "some signed integers: 15, -302 and +45.";
    assert_eq!(s.ints::<3, i32>(), vec![15, -302, 45]);
}

#[test]
fn uints_array_helper() {
    let s = "some unsigned integers: 15, 302 and 45.";
    assert_eq!(s.uints::<3, u32>(), vec![15, 302, 45]);
}

#[test]
fn find_in_first_occurrence() {
    assert_eq!(aoc::find_in("abcabc", "bc"), Some(1));
    assert_eq!(aoc::find_in("abc", "x"), None);
    assert_eq!(aoc::find_in("abc", ""), Some(0));
    assert_eq!(aoc::find_in("", "x"), None);
}

#[test]
fn parse_uw_every_width() {
    assert_eq!("255".parse_uw::<u8>(), 255);
    assert_eq!("-128".parse_uw::<i8>(), -128);
    assert_eq!("65535".parse_uw::<u16>(), 65535);
    assert_eq!("-32768".parse_uw::<i16>(), -32768);
    assert_eq!("-7".parse_uw::<isize>(), -7);
}

#[test]
fn unsigned_scan_is_blind_to_signs() {
    let negated: Vec<u32> = "-12".uints::<1, u32>();
    let plain: Vec<u32> = "12".uints::<1, u32>();
    assert_eq!(negated, plain);
}
