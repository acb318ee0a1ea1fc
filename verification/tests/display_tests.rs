use gitnum::{parse_branch, parse_status, render, Color, Piece, Status};

fn views(pieces: &[Piece]) -> Vec<(String, Option<Color>)> {
    pieces.iter().map(|p| (p.text.clone(), p.color)).collect()
}

fn plain_text(pieces: &[Piece]) -> String {
    pieces.iter().map(|p| p.text.as_str()).collect()
}

fn sample() -> Status {
    match parse_status("M  foo\n M bar\n?? baz\n") {
        Ok(s) => s,
        Err(_) => panic!("expected a status"),
    }
}

const GREY: Color = Color::TrueColor { r: 140, g: 140, b: 140 };

#[test]
fn status_layout_pieces() {
    let status = sample();
    let p = |s: &str| (s.to_string(), None);
    let c = |s: &str, col: Color| (s.to_string(), Some(col));
    let expected = vec![
        p("\n--- Staged Items ---\n\n"),
        p(" "),
        c("~", Color::Green),
        p("   "),
        c("[0]", Color::White),
        p(" "),
        c("foo", Color::Green),
        p("\n"),
        p("\n--- Unstaged Items ---\n\n"),
        p(" "),
        c("~", Color::Green),
        p("   "),
        c("[1]", GREY),
        p(" "),
        c("bar", Color::Green),
        p("\n"),
        p("\n--- Untracked Items ---\n\n"),
        p(" "),
        c("?", Color::BrightCyan),
        p("   "),
        c("[2]", Color::White),
        p(" "),
        c("baz", Color::BrightCyan),
        p("\n"),
        p("\n"),
    ];
    assert_eq!(views(&status.layout()), expected);
}

#[test]
fn status_layout_text() {
    let status = sample();
    assert_eq!(
        plain_text(&status.layout()),
        "\n--- Staged Items ---\n\n ~   [0] foo\n\n--- Unstaged Items ---\n\n ~   [1] bar\n\n--- Untracked Items ---\n\n ?   [2] baz\n\n"
    );
}

#[test]
fn empty_status_layout_is_one_newline() {
    let status = Status::new();
    assert_eq!(plain_text(&status.layout()), "\n");
}

#[test]
fn branch_layout_pieces() {
    let b = parse_branch("  dev  abc one\n* main def two\n".to_string()).unwrap();
    let p = |s: &str| (s.to_string(), None);
    let c = |s: &str, col: Color| (s.to_string(), Some(col));
    let expected = vec![
        p("   "),
        p("  ["),
        c("0", Color::White),
        p("] "),
        c("dev", Color::Green),
        p("\n"),
        p(" * "),
        p("  ["),
        c("1", GREY),
        p("] "),
        c("main", Color::Magenta),
        p("\n"),
    ];
    assert_eq!(views(&b.layout()), expected);
    assert_eq!(plain_text(&b.layout()), "     [0] dev\n *   [1] main\n");
}

#[test]
fn rendering_with_and_without_colors() {
    let b = parse_branch("* main abc msg\n".to_string()).unwrap();
    colored::control::set_override(true);
    let colored_text = b.to_string();
    let pieces = vec![
        Piece { text: "x".to_string(), color: None },
        Piece { text: "y".to_string(), color: Some(Color::Red) },
    ];
    let rendered = render(&pieces);
    let inner = vec![Piece { text: "a\u{1b}[0mb".to_string(), color: Some(Color::Red) }];
    let rendered_inner = render(&inner);
    colored::control::set_override(false);
    let plain = b.to_string();
    let status_plain = sample().to_string();
    colored::control::unset_override();
    assert_eq!(colored_text, " *   [\u{1b}[37m0\u{1b}[0m] \u{1b}[35mmain\u{1b}[0m\n");
    assert_eq!(rendered, "x\u{1b}[31my\u{1b}[0m");
    assert_eq!(rendered_inner, "\u{1b}[31ma\u{1b}[0m\u{1b}[31mb\u{1b}[0m");
    assert_eq!(plain, " *   [0] main\n");
    assert_eq!(
        status_plain,
        "\n--- Staged Items ---\n\n ~   [0] foo\n\n--- Unstaged Items ---\n\n ~   [1] bar\n\n--- Untracked Items ---\n\n ?   [2] baz\n\n"
    );
}
