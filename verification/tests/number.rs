use boop::chars::{chars_of, text_of};
use boop::number::{is_float, parse_integer, push_integer};

const SAMPLES: [&str; 78] = [
    "", "0", "7", "42", "007", "+5", "-5", "+", "-", "+-5", "--5", "5-", "5+", " 5", "5 ", "1_000",
    "9223372036854775807", "9223372036854775808", "-9223372036854775808", "-9223372036854775809",
    "99999999999999999999999999999999999999999", "000000000000000000000000000000000001",
    "1.5", ".5", "5.", ".", "+.", "-.5", "+5.", "1.2.3", "1..2", "..", "1e5", "1E5", "1e+5",
    "1e-5", "1e", "1e+", "1e-", "e5", ".e5", "1.e5", ".5e5", "1.5e3", "1e5.5", "1e5e5", "1ee5",
    "inf", "INF", "Inf", "+inf", "-inf", "infinity", "INFINITY", "-Infinity", "infinit", "infinityy",
    "in", "nan", "NaN", "NAN", "-nan", "+NaN", "nane", "na", "0x10", "1f", "1.5f", "abc", "x1",
    "1x", "१२३", "１２３", "1.5\u{663}", "é", "١", "1e400", "0.000000000000000000000000000001e-400",
];

#[test]
fn integers_read_as_the_standard_library_reads_them() {
    for sample in SAMPLES {
        let expected: Option<i64> = sample.parse().ok();
        assert_eq!(parse_integer(&chars_of(sample)), expected, "{:?}", sample);
    }
}

#[test]
fn float_literals_are_what_the_standard_library_reads() {
    for sample in SAMPLES {
        let expected = sample.parse::<f64>().is_ok();
        assert_eq!(is_float(&chars_of(sample)), expected, "{:?}", sample);
    }
}

#[test]
fn integers_are_written_in_decimal() {
    for value in [0, 1, 9, 10, 11, 99, 100, 12345, -1, -10, -999, i64::MAX, i64::MIN, i64::MIN + 1] {
        let mut text = String::from("n=");
        push_integer(&mut text, value);
        assert_eq!(text, format!("n={}", value));
    }
}

#[test]
fn written_integers_read_back() {
    for value in [0, 5, -5, 1000, -1000, i64::MAX, i64::MIN] {
        let mut text = String::new();
        push_integer(&mut text, value);
        assert_eq!(parse_integer(&chars_of(&text)), Some(value));
    }
}

#[test]
fn characters_and_text_convert_both_ways() {
    let text = "a1 é→\u{1F600}";
    assert_eq!(text_of(&chars_of(text)), text);
    assert_eq!(chars_of(text).len(), 6);
    assert_eq!(chars_of(""), Vec::<char>::new());
}
