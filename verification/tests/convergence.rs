use dice_spec_perf::{
    ParseSpecificationError, PestSpecification, RegexSpecification, SplitSpecification,
};

/// A parser's answer in a form that the three can be compared in.
#[derive(Debug, PartialEq)]
enum Answer {
    Dice(u8, u8, u8),
    Invalid,
    Numeric,
}

fn failure(e: ParseSpecificationError) -> Answer {
    match e {
        ParseSpecificationError::Invalid => Answer::Invalid,
        ParseSpecificationError::ParseInt(_) => Answer::Numeric,
    }
}

fn split(text: &str) -> Answer {
    match text.parse::<SplitSpecification>() {
        Ok(dice) => Answer::Dice(dice.count, dice.size, dice.modifier),
        Err(e) => failure(e),
    }
}

fn pest(text: &str) -> Answer {
    match text.parse::<PestSpecification>() {
        Ok(dice) => Answer::Dice(dice.count, dice.size, dice.modifier),
        Err(e) => failure(e),
    }
}

fn regex(text: &str) -> Answer {
    match text.parse::<RegexSpecification>() {
        Ok(dice) => Answer::Dice(dice.count(), dice.size(), dice.modifier()),
        Err(e) => failure(e),
    }
}

/// Every text of at most `longest` characters of `alphabet`.
fn texts(alphabet: &[char], longest: usize) -> Vec<String> {
    let mut all = vec![String::new()];
    let mut from = 0;
    for _ in 0..longest {
        let to = all.len();
        for i in from..to {
            for c in alphabet {
                let mut longer = all[i].clone();
                longer.push(*c);
                all.push(longer);
            }
        }
        from = to;
    }
    all
}

/// The grammar read by hand: digits, optionally `d` and digits, optionally
/// `+` and digits.
fn by_hand(text: &str) -> Answer {
    let digits = |piece: &str| !piece.is_empty() && piece.bytes().all(|b| b.is_ascii_digit());
    let (dice, modifier) = match text.find('+') {
        Some(at) => (&text[..at], Some(&text[at + 1..])),
        None => (text, None),
    };
    let (count, size) = match dice.find('d') {
        Some(at) => (Some(&dice[..at]), &dice[at + 1..]),
        None => (None, dice),
    };
    if !digits(size) || !count.map_or(true, digits) || !modifier.map_or(true, digits) {
        return Answer::Invalid;
    }
    let number = |piece: &str| piece.trim_start_matches('0').parse::<u8>().or_else(|e| {
        if piece.bytes().all(|b| b == b'0') { Ok(0) } else { Err(e) }
    });
    match (count.map_or(Ok(1), number), number(size), modifier.map_or(Ok(0), number)) {
        (Ok(count), Ok(size), Ok(modifier)) => Answer::Dice(count, size, modifier),
        _ => Answer::Numeric,
    }
}

#[test]
fn all_three_read_the_full_form() {
    assert_eq!(split("2d6+3"), Answer::Dice(2, 6, 3));
    assert_eq!(pest("2d6+3"), Answer::Dice(2, 6, 3));
    assert_eq!(regex("2d6+3"), Answer::Dice(2, 6, 3));
}

#[test]
fn all_three_read_a_lone_number() {
    for (text, size) in [("17", 17), ("6", 6)] {
        assert_eq!(split(text), Answer::Dice(1, size, 0));
        assert_eq!(pest(text), Answer::Dice(1, size, 0));
        assert_eq!(regex(text), Answer::Dice(1, size, 0));
    }
}

#[test]
fn all_three_read_the_sample_expressions() {
    assert_eq!(split("2d6"), Answer::Dice(2, 6, 0));
    assert_eq!(pest("2d6"), Answer::Dice(2, 6, 0));
    assert_eq!(regex("2d6"), Answer::Dice(2, 6, 0));
    for text in ["1d2d3", "hello"] {
        assert!(matches!(split(text), Answer::Invalid | Answer::Numeric));
        assert_eq!(pest(text), Answer::Invalid);
        assert_eq!(regex(text), Answer::Invalid);
    }
}

#[test]
fn all_three_turn_down_a_second_d() {
    assert_eq!(split("1d2d3"), Answer::Invalid);
    assert_eq!(pest("1d2d3"), Answer::Invalid);
    assert_eq!(regex("1d2d3"), Answer::Invalid);
}

#[test]
fn all_three_turn_down_the_empty_text() {
    assert_eq!(split(""), Answer::Invalid);
    assert_eq!(pest(""), Answer::Invalid);
    assert_eq!(regex(""), Answer::Invalid);
}

#[test]
fn all_three_fail_on_a_size_of_999() {
    assert_eq!(split("2d999"), Answer::Numeric);
    assert_eq!(pest("2d999"), Answer::Numeric);
    assert_eq!(regex("2d999"), Answer::Numeric);
}

#[test]
fn all_three_turn_down_a_d_without_a_count() {
    assert_eq!(split("d6"), Answer::Numeric);
    assert_eq!(pest("d6"), Answer::Invalid);
    assert_eq!(regex("d6"), Answer::Invalid);
}

#[test]
fn all_three_turn_down_a_word() {
    assert_eq!(split("hello"), Answer::Numeric);
    assert_eq!(pest("hello"), Answer::Invalid);
    assert_eq!(regex("hello"), Answer::Invalid);
}

#[test]
fn all_three_have_their_limit_at_255() {
    for (text, expected) in [
        ("255", Answer::Dice(1, 255, 0)),
        ("255d1", Answer::Dice(255, 1, 0)),
        ("1d255", Answer::Dice(1, 255, 0)),
        ("1d1+255", Answer::Dice(1, 1, 255)),
        ("256", Answer::Numeric),
        ("256d1", Answer::Numeric),
        ("1d256", Answer::Numeric),
        ("1d1+256", Answer::Numeric),
        ("1000", Answer::Numeric),
    ] {
        assert_eq!(split(text), expected, "{:?}", text);
        assert_eq!(pest(text), expected, "{:?}", text);
        assert_eq!(regex(text), expected, "{:?}", text);
    }
}

#[test]
fn tree_parser_reads_the_grammar_as_by_hand() {
    for text in texts(&['0', '2', '5', '6', 'd', '+', 'x'], 6) {
        assert_eq!(pest(&text), by_hand(&text), "{:?}", text);
    }
}

#[test]
fn split_parser_agrees_with_the_tree_parser() {
    for text in texts(&['0', '2', '5', '6', 'd', '+', 'x'], 6) {
        let expected = pest(&text);
        let actual = split(&text);
        match expected {
            Answer::Dice(..) | Answer::Numeric => assert_eq!(actual, expected, "{:?}", text),
            Answer::Invalid => {
                assert!(matches!(actual, Answer::Invalid | Answer::Numeric), "{:?}", text)
            }
        }
    }
}

#[test]
fn split_parser_agrees_with_the_tree_parser_on_the_trimmed_text() {
    for text in texts(&['2', '7', 'd', '+', ' ', '\n'], 6) {
        let expected = pest(text.trim());
        let actual = split(&text);
        match expected {
            Answer::Dice(..) | Answer::Numeric => assert_eq!(actual, expected, "{:?}", text),
            Answer::Invalid => {
                assert!(matches!(actual, Answer::Invalid | Answer::Numeric), "{:?}", text)
            }
        }
    }
}

#[test]
fn pattern_parser_agrees_with_the_tree_parser() {
    for text in texts(&['1', '9', 'd', '+', 'x'], 4) {
        assert_eq!(regex(&text), pest(&text), "{:?}", text);
    }
    for text in ["255d255+255", "12d20+100", "100d100", "256d1+1", "1d1+1d", "1d1+1+1", "1d1d1+1"] {
        assert_eq!(regex(text), pest(text), "{:?}", text);
    }
}
