use dice_spec_perf::{ParseSpecificationError, SplitSpecification};
use std::num::IntErrorKind;

fn parse(text: &str) -> Result<SplitSpecification, ParseSpecificationError> {
    text.parse()
}

fn dice(count: u8, size: u8, modifier: u8) -> SplitSpecification {
    SplitSpecification { count, size, modifier }
}

fn is_invalid(text: &str) -> bool {
    matches!(parse(text), Err(ParseSpecificationError::Invalid))
}

fn numeric_failure(text: &str) -> Option<IntErrorKind> {
    match parse(text) {
        Err(ParseSpecificationError::ParseInt(e)) => Some(e.kind().clone()),
        _ => None,
    }
}

#[test]
fn split() {
    let actual: SplitSpecification = "2d6+3".parse().unwrap();
    let expected = SplitSpecification {
        count: 2,
        size: 6,
        modifier: 3,
    };

    assert_eq!(actual, expected);
}

#[test]
fn split_reads_a_lone_number_as_the_size() {
    assert_eq!(parse("17").unwrap(), dice(1, 17, 0));
    assert_eq!(parse("6").unwrap(), dice(1, 6, 0));
}

#[test]
fn split_reads_count_and_size() {
    assert_eq!(parse("2d6").unwrap(), dice(2, 6, 0));
    assert_eq!(parse("12d20").unwrap(), dice(12, 20, 0));
}

#[test]
fn split_reads_a_modifier_behind_a_lone_size() {
    assert_eq!(parse("6+3").unwrap(), dice(1, 6, 3));
}

#[test]
fn split_keeps_zero_and_leading_zeros() {
    assert_eq!(parse("0d0+0").unwrap(), dice(0, 0, 0));
    assert_eq!(parse("007d010+001").unwrap(), dice(7, 10, 1));
}

#[test]
fn split_trims_the_text() {
    assert_eq!(parse("  2d6+3\n").unwrap(), dice(2, 6, 3));
    assert_eq!(parse("\t17 ").unwrap(), dice(1, 17, 0));
    assert_eq!(parse("\u{3000}4d8\u{a0}").unwrap(), dice(4, 8, 0));
}

#[test]
fn split_does_not_trim_inside_the_text() {
    assert_eq!(numeric_failure("2 d6"), Some(IntErrorKind::InvalidDigit));
    assert_eq!(numeric_failure("2d6 +3"), Some(IntErrorKind::InvalidDigit));
    assert_eq!(numeric_failure("2d6+ 3"), Some(IntErrorKind::InvalidDigit));
}

#[test]
fn split_turns_down_the_empty_text() {
    assert!(is_invalid(""));
    assert!(is_invalid("   "));
    assert!(is_invalid("\n\t"));
}

#[test]
fn split_turns_down_a_second_d() {
    assert!(is_invalid("1d2d3"));
    assert!(is_invalid("1d2d"));
    assert!(is_invalid("1dd2"));
}

#[test]
fn split_turns_down_a_second_plus() {
    assert!(is_invalid("2d6+3+4"));
    assert!(is_invalid("2d6+3+"));
    assert!(is_invalid("6+3+4"));
}

#[test]
fn split_fails_on_text_that_is_no_number() {
    assert_eq!(numeric_failure("hello"), Some(IntErrorKind::InvalidDigit));
    assert_eq!(numeric_failure("2dx"), Some(IntErrorKind::InvalidDigit));
    assert_eq!(numeric_failure("2d6+x"), Some(IntErrorKind::InvalidDigit));
    assert_eq!(numeric_failure("-1"), Some(IntErrorKind::InvalidDigit));
    assert_eq!(numeric_failure("2d-6"), Some(IntErrorKind::InvalidDigit));
}

#[test]
fn split_fails_on_an_empty_piece() {
    assert_eq!(numeric_failure("+3"), Some(IntErrorKind::Empty));
    assert_eq!(numeric_failure("d6"), Some(IntErrorKind::Empty));
    assert_eq!(numeric_failure("2d"), Some(IntErrorKind::Empty));
    assert_eq!(numeric_failure("2d6+"), Some(IntErrorKind::Empty));
    assert_eq!(numeric_failure("+"), Some(IntErrorKind::Empty));
    assert_eq!(numeric_failure("d"), Some(IntErrorKind::Empty));
}

#[test]
fn split_accepts_255_in_every_field() {
    assert_eq!(parse("255").unwrap(), dice(1, 255, 0));
    assert_eq!(parse("255d6").unwrap(), dice(255, 6, 0));
    assert_eq!(parse("2d255").unwrap(), dice(2, 255, 0));
    assert_eq!(parse("2d6+255").unwrap(), dice(2, 6, 255));
    assert_eq!(parse("255d255+255").unwrap(), dice(255, 255, 255));
}

#[test]
fn split_fails_on_256_in_any_field() {
    assert_eq!(numeric_failure("256"), Some(IntErrorKind::PosOverflow));
    assert_eq!(numeric_failure("256d6"), Some(IntErrorKind::PosOverflow));
    assert_eq!(numeric_failure("2d256"), Some(IntErrorKind::PosOverflow));
    assert_eq!(numeric_failure("2d6+256"), Some(IntErrorKind::PosOverflow));
    assert_eq!(numeric_failure("2d999"), Some(IntErrorKind::PosOverflow));
    assert_eq!(numeric_failure("99999999999999999999999"), Some(IntErrorKind::PosOverflow));
}

#[test]
fn split_converts_the_first_piece_before_it_counts_delimiters() {
    assert_eq!(numeric_failure("xd2d3"), Some(IntErrorKind::InvalidDigit));
    assert_eq!(numeric_failure("x+1+2"), Some(IntErrorKind::InvalidDigit));
    assert_eq!(numeric_failure("999d2d3"), Some(IntErrorKind::PosOverflow));
}

#[test]
fn split_converts_the_modifier_before_it_counts_delimiters() {
    assert_eq!(numeric_failure("1+y+2"), Some(IntErrorKind::InvalidDigit));
    assert_eq!(numeric_failure("1d2d3+x"), Some(IntErrorKind::InvalidDigit));
    assert_eq!(numeric_failure("1d2d3+"), Some(IntErrorKind::Empty));
    assert!(is_invalid("1d2d3+4"));
}

#[test]
fn split_counts_delimiters_before_it_converts_the_size() {
    assert!(is_invalid("1dxd3"));
    assert!(is_invalid("1dx+2+3"));
    assert_eq!(numeric_failure("1dx+2"), Some(IntErrorKind::InvalidDigit));
}

#[test]
fn split_looks_for_d_in_the_dice_term_only() {
    assert_eq!(numeric_failure("2+d"), Some(IntErrorKind::InvalidDigit));
    assert_eq!(numeric_failure("2+3d4"), Some(IntErrorKind::InvalidDigit));
}

#[test]
fn split_fails_on_digits_of_other_scripts() {
    assert_eq!(numeric_failure("\u{663}"), Some(IntErrorKind::InvalidDigit));
    assert_eq!(numeric_failure("2d\u{ff16}"), Some(IntErrorKind::InvalidDigit));
}

#[test]
fn split_reads_the_same_text_the_same_way_twice() {
    for text in ["2d6+3", "17", "  4d8 ", "255d255+255"] {
        assert_eq!(parse(text).unwrap(), parse(text).unwrap());
    }
    for text in ["", "1d2d3", "2d6+3+4"] {
        assert!(is_invalid(text) && is_invalid(text));
    }
    for text in ["hello", "2d999", "+3"] {
        assert!(numeric_failure(text).is_some());
        assert_eq!(numeric_failure(text), numeric_failure(text));
    }
}

fn is_white_space(c: char) -> bool {
    matches!(
        c,
        '\u{9}'..='\u{d}'
            | ' '
            | '\u{85}'
            | '\u{a0}'
            | '\u{1680}'
            | '\u{2000}'..='\u{200a}'
            | '\u{2028}'
            | '\u{2029}'
            | '\u{202f}'
            | '\u{205f}'
            | '\u{3000}'
    )
}

#[test]
fn split_trims_white_space_and_nothing_else() {
    let mut trimmed = 0;
    for code in 0..=0x10ffff_u32 {
        let c = match char::from_u32(code) {
            Some(c) => c,
            None => continue,
        };
        if c.is_ascii_digit() {
            continue;
        }
        let text = format!("{}7{}", c, c);
        let result = parse(&text);
        if is_white_space(c) {
            assert_eq!(result.unwrap(), dice(1, 7, 0));
            trimmed += 1;
        } else {
            assert!(result.is_err());
        }
    }
    assert_eq!(trimmed, 25);
}

#[test]
fn split_leaves_characters_that_only_look_like_space() {
    assert!(parse("\u{200b}7").is_err());
    assert!(parse("7\u{180e}").is_err());
    assert!(parse("\u{1c}7").is_err());
    assert!(parse("7\u{feff}").is_err());
}
