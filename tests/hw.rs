use nyapen::combinator::NoSkip;
use nyapen::parser::Parser;
use nyapen::primitive::{lit, re};

// Under the sequence-merge rule the inner sequence already carries a mapped
// pair (of two absent values), so the outer sequence keeps the second side's
// fragments only.
#[test]
fn hw() {
    assert_eq!(
        lit("Hello")
            .then(lit(",").opt())
            .then(lit("World"))
            .skip(re("\\s+").unwrap())
            .parse(" Hello  World")
            .unwrap()
            .parsed,
        &["World"]
    );
}

#[derive(Debug, Clone, PartialEq)]
enum Hw {
    Hello,
    World,
    Comma,
}

// In the first round both "Hello" and "," are mapped, so their sequence keeps
// no value and the outer pair is (absent, World): the fold sees no triple.
#[test]
fn hw_complete() {
    assert_eq!(
        lit("Hello")
            .map(|_, _| Hw::Hello)
            .then(lit(",").map(|_, _| Hw::Comma).opt())
            .then(lit("World").map(|_, _| Hw::World).opt())
            .map(|m, _| match m {
                Some((Some((hello, comma)), world)) => Some((hello.unwrap(), comma, world)),
                _ => None,
            })
            .repeated()
            .eoi()
            .skip(re("\\s+").unwrap())
            .parse(" Hello , World Hello Hello")
            .unwrap()
            .mapped,
        Some(vec![None, Some((Hw::Hello, None, None)), Some((Hw::Hello, None, None))])
    );
}

#[test]
fn map_value_from_fragments() {
    let none: Option<NoSkip> = None;
    let out = lit("ab")
        .map(|_, v: Vec<String>| v.concat().len())
        .parse_with_position("abc", 0, &none)
        .unwrap();
    assert_eq!(out.mapped, Some(2));
    assert!(out.parsed.is_empty());
    assert_eq!(out.pos, 2);
}

#[test]
fn repeated_collects_values_in_order() {
    let out = lit("a").map(|_, v: Vec<String>| v.concat()).repeated().parse("aab").unwrap();
    assert_eq!(out.mapped, Some(vec!["a".to_string(), "a".to_string()]));
    assert!(out.parsed.is_empty());
    assert_eq!(out.pos, 2);
}

#[test]
fn parser_is_reusable_with_values() {
    let p = lit("Hello").then(lit("World")).skip(re("\\s+").unwrap());
    let first = p.parse("Hello World").unwrap();
    assert_eq!(first.parsed, vec!["Hello".to_string(), "World".to_string()]);
    assert_eq!(first.pos, 11);
    let err = p.parse("Hello").unwrap_err();
    assert_eq!(err.rule, "lit");
    assert_eq!(err.pos, 5);
    let again = p.parse("Hello World").unwrap();
    assert_eq!(again.parsed, first.parsed);
    assert_eq!(again.pos, first.pos);
    let (a, b) = again.mapped.unwrap();
    assert!(a.is_none() && b.is_none());
}

#[test]
fn literal_consumes_exactly_its_bytes() {
    let none: Option<NoSkip> = None;
    let out = lit("Hello").parse_with_position("Hello rest", 0, &none).unwrap();
    assert_eq!(out.parsed, vec!["Hello".to_string()]);
    assert_eq!(out.pos, 5);
    assert!(out.mapped.is_none());
}

#[test]
fn literal_from_a_later_position() {
    let none: Option<NoSkip> = None;
    let out = lit("ü!").parse_with_position("aü!b", 1, &none).unwrap();
    assert_eq!(out.parsed, vec!["ü!".to_string()]);
    assert_eq!(out.pos, 4);
}

#[test]
fn literal_mismatch_fails() {
    let err = lit("Hello").parse("Help").unwrap_err();
    assert_eq!(err.rule, "lit");
    assert_eq!(err.pos, 0);
}

#[test]
fn literal_past_the_end_fails() {
    let none: Option<NoSkip> = None;
    let err = lit("a").parse_with_position("abc", 20, &none).unwrap_err();
    assert_eq!(err.rule, "lit");
    assert_eq!(err.pos, 20);
}

#[test]
fn literal_inside_a_char_fails() {
    let none: Option<NoSkip> = None;
    let err = lit("").parse_with_position("é", 1, &none).unwrap_err();
    assert_eq!(err.rule, "lit");
    assert_eq!(err.pos, 1);
}

#[test]
fn empty_literal_matches_empty_input() {
    let out = lit("").parse("").unwrap();
    assert_eq!(out.parsed, vec![String::new()]);
    assert_eq!(out.pos, 0);
}

#[test]
fn pattern_matches_at_position() {
    let out = re("[0-9]+").unwrap().parse("12ab").unwrap();
    assert_eq!(out.parsed, vec!["12".to_string()]);
    assert_eq!(out.pos, 2);
}

#[test]
fn pattern_does_not_skip_ahead() {
    let err = re("[0-9]+").unwrap().parse("ab12").unwrap_err();
    assert_eq!(err.rule, "re");
    assert_eq!(err.pos, 0);
}

#[test]
fn pattern_without_match_fails() {
    let none: Option<NoSkip> = None;
    let err = re("x").unwrap().parse_with_position("abc", 1, &none).unwrap_err();
    assert_eq!(err.rule, "re");
    assert_eq!(err.pos, 1);
}

#[test]
fn pattern_past_the_end_fails() {
    let none: Option<NoSkip> = None;
    let err = re("a*").unwrap().parse_with_position("abc", 9, &none).unwrap_err();
    assert_eq!(err.rule, "re");
    assert_eq!(err.pos, 9);
}

#[test]
fn bad_pattern_is_a_compile_error() {
    assert!(re("(").is_err());
}

#[test]
fn skip_before_first_token() {
    let out = lit("Hello").skip(re("\\s+").unwrap()).parse(" Hello").unwrap();
    assert_eq!(out.pos, 6);
    assert_eq!(out.parsed, vec!["Hello".to_string()]);
}

#[test]
fn skip_after_each_token() {
    let out = lit("a").then(lit("b")).skip(re("\\s+").unwrap()).parse("a  b ").unwrap();
    assert_eq!(out.pos, 5);
    assert_eq!(out.parsed, vec!["a".to_string(), "b".to_string()]);
}

#[test]
fn sequence_with_absent_comma() {
    let out = lit("Hello")
        .then(lit(",").opt())
        .then(lit("World"))
        .skip(re("\\s+").unwrap())
        .parse("Hello World")
        .unwrap();
    assert_eq!(out.pos, 11);
    assert_eq!(out.parsed, vec!["World".to_string()]);
    let (inner, last) = out.mapped.unwrap();
    assert!(last.is_none());
    let (hello, comma) = inner.unwrap();
    assert!(hello.is_none());
    assert!(comma.is_none());
}

#[test]
fn sequence_of_two_unmapped() {
    let out = lit("a").then(lit("b")).parse("ab").unwrap();
    assert_eq!(out.parsed, vec!["a".to_string(), "b".to_string()]);
    let (a, b) = out.mapped.unwrap();
    assert!(a.is_none() && b.is_none());
}

#[test]
fn sequence_first_mapped() {
    let out = lit("a").map(|_, _| 1u8).then(lit("b")).parse("ab").unwrap();
    assert_eq!(out.parsed, vec!["b".to_string()]);
    let (a, b) = out.mapped.unwrap();
    assert_eq!(a, Some(1u8));
    assert!(b.is_none());
}

#[test]
fn sequence_second_mapped() {
    let out = lit("a").then(lit("b").map(|_, _| 2u8)).parse("ab").unwrap();
    assert_eq!(out.parsed, vec!["a".to_string()]);
    let (a, b) = out.mapped.unwrap();
    assert!(a.is_none());
    assert_eq!(b, Some(2u8));
}

#[test]
fn sequence_both_mapped_drops_the_pair() {
    let out = lit("a")
        .map(|_, _| 1u8)
        .then(lit("b").map(|_, _| 2u8))
        .parse("ab")
        .unwrap();
    assert!(out.mapped.is_none());
    assert!(out.parsed.is_empty());
    assert_eq!(out.pos, 2);
}

#[test]
fn sequence_fails_at_second_part() {
    let err = lit("a").then(lit("b")).parse("ax").unwrap_err();
    assert_eq!(err.rule, "lit");
    assert_eq!(err.pos, 1);
}

#[test]
fn map_consumes_fragments() {
    let out = lit("ab").map(|_, v: Vec<String>| v.concat()).parse("ab").unwrap();
    assert_eq!(out.mapped, Some("ab".to_string()));
    assert!(out.parsed.is_empty());
    assert_eq!(out.pos, 2);
}

#[test]
fn parse_with_map_folds_the_outcome() {
    let p = lit("a").map(|_, v: Vec<String>| v.len());
    assert_eq!(p.parse_with_map("a", |m, _| m.unwrap() + 10).unwrap(), 11);
    let err = p.parse_with_map("b", |m, _| m.unwrap_or(0)).unwrap_err();
    assert_eq!(err.rule, "lit");
}

#[test]
fn repeated_zero_width_stops() {
    let out = re("a*").unwrap().repeated().parse("bbb").unwrap();
    assert_eq!(out.pos, 0);
    assert_eq!(out.parsed, vec![String::new()]);
    assert!(out.mapped.is_none());
}

#[test]
fn repeated_collects_mapped_values() {
    let out = lit("ab").map(|_, _| 7u8).repeated().parse("ababx").unwrap();
    assert_eq!(out.mapped, Some(vec![7u8, 7u8]));
    assert_eq!(out.pos, 4);
    assert!(out.parsed.is_empty());
}

#[test]
fn repeated_concatenates_fragments() {
    let out = lit("ab").repeated().parse("ababab").unwrap();
    assert_eq!(out.parsed.len(), 3);
    assert_eq!(out.pos, 6);
    assert!(out.mapped.is_none());
}

#[test]
fn repeated_zero_matches_succeeds() {
    let out = lit("x").repeated().parse("abc").unwrap();
    assert_eq!(out.pos, 0);
    assert!(out.parsed.is_empty());
    assert!(out.mapped.is_none());
}

#[test]
fn optional_never_fails() {
    let out = lit("x").opt().parse("y").unwrap();
    assert_eq!(out.pos, 0);
    assert!(out.parsed.is_empty());
    assert!(out.mapped.is_none());
    let out = lit("x").opt().parse("x").unwrap();
    assert_eq!(out.pos, 1);
    assert_eq!(out.parsed, vec!["x".to_string()]);
}

#[test]
fn end_of_input_reached() {
    let out = lit("a").eoi().parse("a").unwrap();
    assert_eq!(out.pos, 1);
}

#[test]
fn end_of_input_missed() {
    let err = lit("a").eoi().parse("ab").unwrap_err();
    assert_eq!(err.rule, "eoi");
    assert_eq!(err.pos, 1);
}

#[test]
fn end_of_input_after_skip() {
    let out = lit("a").eoi().skip(re("\\s+").unwrap()).parse("a  ").unwrap();
    assert_eq!(out.pos, 3);
}

#[test]
fn no_skip_always_fails() {
    let err = NoSkip {}.parse("x").unwrap_err();
    assert_eq!(err.rule, "noskip");
    assert_eq!(err.pos, 0);
}

#[test]
fn parser_is_reusable() {
    let p = lit("a").then(lit("b"));
    let first = p.parse("ab").unwrap();
    let err = p.parse("ax").unwrap_err();
    let again = p.parse("ab").unwrap();
    assert_eq!(first.parsed, again.parsed);
    assert_eq!(first.pos, again.pos);
    assert_eq!(err.rule, "lit");
    assert_eq!(err.pos, 1);
}
