use gitnum::{
    parse_status, parse_status_line, status_from_output, Color, Status,
    StatusEntry, StatusError, StatusTag,
};

fn entries(list: &[StatusEntry]) -> Vec<(StatusTag, String)> {
    list.iter().map(|e| (e.status, e.path.clone())).collect()
}

fn entry(e: &Option<StatusEntry>) -> Option<(StatusTag, String)> {
    e.as_ref().map(|e| (e.status, e.path.clone()))
}

#[test]
fn tag_characters() {
    let cases = [
        (' ', Some(StatusTag::Unmodified)),
        ('M', Some(StatusTag::Modified)),
        ('T', Some(StatusTag::FileTypeChanged)),
        ('A', Some(StatusTag::Added)),
        ('D', Some(StatusTag::Deleted)),
        ('R', Some(StatusTag::Renamed)),
        ('C', Some(StatusTag::Copied)),
        ('U', Some(StatusTag::UpdatedUnmerged)),
        ('?', Some(StatusTag::Untracked)),
        ('!', Some(StatusTag::Ignored)),
        ('m', None),
        ('X', None),
        ('\u{e9}', None),
    ];
    for (c, expected) in cases {
        assert_eq!(StatusTag::from(c), expected, "tag {:?}", c);
    }
}

#[test]
fn tag_colors_and_symbols() {
    let cases = [
        (StatusTag::Unmodified, Color::White, " "),
        (StatusTag::Modified, Color::Green, "~"),
        (StatusTag::FileTypeChanged, Color::Yellow, "~"),
        (StatusTag::Added, Color::Yellow, "+"),
        (StatusTag::Deleted, Color::Red, "-"),
        (StatusTag::Renamed, Color::BrightBlue, "~"),
        (StatusTag::Copied, Color::BrightBlue, "~"),
        (StatusTag::UpdatedUnmerged, Color::BrightBlue, "~"),
        (StatusTag::Untracked, Color::BrightCyan, "?"),
        (StatusTag::Ignored, Color::BrightCyan, "!"),
    ];
    for (tag, color, symbol) in cases {
        assert_eq!(tag.to_color(), color);
        assert_eq!(tag.to_string(), symbol);
    }
}

#[test]
fn status_line_entries() {
    let (s, u) = parse_status_line("M  foo");
    assert_eq!(entry(&s), Some((StatusTag::Modified, "foo".to_string())));
    assert_eq!(entry(&u), None);

    let (s, u) = parse_status_line(" M bar");
    assert_eq!(entry(&s), None);
    assert_eq!(entry(&u), Some((StatusTag::Modified, "bar".to_string())));

    let (s, u) = parse_status_line("AM  both.rs  ");
    assert_eq!(entry(&s), Some((StatusTag::Added, "both.rs".to_string())));
    assert_eq!(entry(&u), Some((StatusTag::Modified, "both.rs".to_string())));

    let (s, u) = parse_status_line("?? new file");
    assert_eq!(entry(&s), Some((StatusTag::Untracked, "new file".to_string())));
    assert_eq!(entry(&u), Some((StatusTag::Untracked, "new file".to_string())));

    let (s, u) = parse_status_line("xy z");
    assert_eq!(entry(&s), None);
    assert_eq!(entry(&u), None);

    // A first character of two bytes takes both tag bytes.
    let (s, u) = parse_status_line("\u{e9}x");
    assert_eq!(entry(&s), None);
    assert_eq!(entry(&u), None);
}

#[test]
fn parse_status_sorts_lines_into_lists() {
    let out = "M  foo\n M bar\n?? baz\nAM qux\n!! ign\n\n";
    let status = match parse_status(out) {
        Ok(s) => s,
        Err(_) => panic!("expected a status"),
    };
    assert_eq!(
        entries(&status.staged),
        vec![
            (StatusTag::Modified, "foo".to_string()),
            (StatusTag::Added, "qux".to_string()),
            (StatusTag::Ignored, "ign".to_string()),
        ]
    );
    assert_eq!(
        entries(&status.unstaged),
        vec![
            (StatusTag::Modified, "bar".to_string()),
            (StatusTag::Modified, "qux".to_string()),
            (StatusTag::Ignored, "ign".to_string()),
        ]
    );
    assert_eq!(entries(&status.untracked), vec![(StatusTag::Untracked, "baz".to_string())]);
}

#[test]
fn parse_status_reports_malformed_line() {
    match parse_status("M  ok\nzz bad\n?? later\n") {
        Err(StatusError::MalformedLine(line)) => assert_eq!(line, "zz bad"),
        Ok(_) => panic!("expected an error"),
    }
}

#[test]
fn status_from_output_sorts_by_path() {
    let out = "M  zeta\nM  alpha\n M b2\n M b1\n?? z\n?? a\n";
    let status = match status_from_output(out) {
        Ok(s) => s,
        Err(_) => panic!("expected a status"),
    };
    let staged: Vec<String> = status.staged.iter().map(|e| e.path.clone()).collect();
    let unstaged: Vec<String> = status.unstaged.iter().map(|e| e.path.clone()).collect();
    let untracked: Vec<String> = status.untracked.iter().map(|e| e.path.clone()).collect();
    assert_eq!(staged, vec!["alpha", "zeta"]);
    assert_eq!(unstaged, vec!["b1", "b2"]);
    // Untracked entries keep the order git printed them in.
    assert_eq!(untracked, vec!["z", "a"]);
}

#[test]
fn sorting_is_stable_for_equal_paths() {
    let out = "D  same\nA  same\nM  other\n";
    let status = match status_from_output(out) {
        Ok(s) => s,
        Err(_) => panic!("expected a status"),
    };
    assert_eq!(
        entries(&status.staged),
        vec![
            (StatusTag::Modified, "other".to_string()),
            (StatusTag::Deleted, "same".to_string()),
            (StatusTag::Added, "same".to_string()),
        ]
    );
}

#[test]
fn get_numbers_across_lists() {
    let status = match parse_status("M  foo\n M bar\n?? baz\n") {
        Ok(s) => s,
        Err(_) => panic!("expected a status"),
    };
    assert_eq!(status.get(0).map(|e| e.path.as_str()), Some("foo"));
    assert_eq!(status.get(1).map(|e| e.path.as_str()), Some("bar"));
    assert_eq!(status.get(2).map(|e| e.path.as_str()), Some("baz"));
    assert!(status.get(3).is_none());
    let all: Vec<&str> = status.iter().iter().map(|e| e.path.as_str()).collect();
    assert_eq!(all, vec!["foo", "bar", "baz"]);
}

#[test]
fn empty_status() {
    let status = Status::new();
    assert!(status.get(0).is_none());
    assert!(status.iter().is_empty());
    let parsed = match parse_status("") {
        Ok(s) => s,
        Err(_) => panic!("expected a status"),
    };
    assert!(parsed.iter().is_empty());
}

#[test]
fn entries_compare_by_path() {
    let a = StatusEntry { status: StatusTag::Added, path: "p".to_string() };
    let b = StatusEntry { status: StatusTag::Deleted, path: "p".to_string() };
    let c = StatusEntry { status: StatusTag::Added, path: "q".to_string() };
    assert!(a == b);
    assert!(a != c);
    assert_eq!(a.partial_cmp(&b), Some(std::cmp::Ordering::Equal));
    assert_eq!(a.partial_cmp(&c), Some(std::cmp::Ordering::Less));
    assert!(c > b);
    assert!(a <= b && a >= b);
}

#[test]
fn get_follows_documented_example() {
    let status = match parse_status("M  foo
 M bar") {
        Ok(s) => s,
        Err(_) => panic!("expected a status"),
    };
    assert_eq!(status.get(0).unwrap().path, "foo");
    assert_eq!(status.get(1).unwrap().path, "bar");
    assert!(status.get(2).is_none());
}

#[test]
fn short_or_cut_lines_are_malformed() {
    let cases = [
        ("XY foo\nM\n", "XY foo"),
        ("M\n", "M"),
        ("M  ok\nM\n", "M"),
        ("a\u{e9}b\n", "a\u{e9}b"),
    ];
    for (out, bad) in cases {
        match parse_status(out) {
            Err(StatusError::MalformedLine(line)) => assert_eq!(line, bad),
            Ok(_) => panic!("expected an error for {:?}", out),
        }
        match status_from_output(out) {
            Err(StatusError::MalformedLine(line)) => assert_eq!(line, bad),
            Ok(_) => panic!("expected an error for {:?}", out),
        }
    }
}

#[test]
fn status_error_message() {
    let e = StatusError::MalformedLine("zz bad".to_string());
    assert_eq!(e.message(), "Encountered malformed status line: zz bad");
}
