use gitnum::text::{chars_of, char_is_whitespace, lines_of, string_of, trimmed_from};

fn lines_as_strings(s: &str) -> Vec<String> {
    lines_of(s).iter().map(|l| l.iter().collect::<String>()).collect()
}

#[test]
fn lines_match_str_lines() {
    let samples = [
        "",
        "\n",
        "a",
        "a\n",
        "a\nb",
        "a\r\nb\r\n",
        "a\n\nb\n\n",
        "x\ry\n",
        "tail\r",
        "M  foo\n M bar\n?? baz\n",
        "\u{e9}t\u{e9}\n\u{1f600}\n",
    ];
    for s in samples {
        let expected: Vec<String> = s.lines().map(String::from).collect();
        assert_eq!(lines_as_strings(s), expected, "lines of {:?}", s);
    }
}

#[test]
fn whitespace_matches_std_for_every_char() {
    for u in 0u32..=0x10FFFF {
        if let Some(c) = char::from_u32(u) {
            assert_eq!(char_is_whitespace(c), c.is_whitespace(), "char {:#x}", u);
        }
    }
}

#[test]
fn trimming_matches_str_trim() {
    let samples = ["", "   ", " a ", "\t a b \n", "\u{3000}x\u{a0}", "M  path with spaces  "];
    for s in samples {
        let cs = chars_of(s);
        assert_eq!(trimmed_from(&cs, 0), s.trim());
    }
    let cs = chars_of("M   spaced.txt  ");
    assert_eq!(trimmed_from(&cs, 2), "spaced.txt");
}

#[test]
fn chars_round_trip() {
    let s = "h\u{e9}llo \u{1f600}";
    let cs = chars_of(s);
    assert_eq!(cs, s.chars().collect::<Vec<char>>());
    assert_eq!(string_of(&cs), s);
}
