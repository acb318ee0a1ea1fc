use gitnum::number::{decimal_chars, parse_usize};
use gitnum::text::chars_of;

fn parse(s: &str) -> Option<usize> {
    parse_usize(&chars_of(s))
}

#[test]
fn decimal_matches_to_string() {
    for n in [0usize, 1, 9, 10, 11, 99, 100, 12345, usize::MAX] {
        let s: String = decimal_chars(n).into_iter().collect();
        assert_eq!(s, n.to_string());
    }
}

#[test]
fn parse_matches_str_parse() {
    let max = usize::MAX.to_string();
    let over = format!("{}0", max);
    let samples = [
        "", "0", "7", "42", "+5", "+", "-5", "-", "++1", "007", " 1", "1 ", "1a", "a1", "1-2",
        "\u{661}", max.as_str(), over.as_str(), "18446744073709551616",
    ];
    for s in samples {
        assert_eq!(parse(s), s.parse::<usize>().ok(), "parse of {:?}", s);
    }
}

#[test]
fn parse_reads_back_decimal() {
    for n in [0usize, 3, 10, 999, 65536, usize::MAX] {
        let digits = decimal_chars(n);
        assert_eq!(parse_usize(&digits), Some(n));
    }
}
