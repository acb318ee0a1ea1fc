use gitnum::{parse_branch, parse_status, replace_number_args, status_from_output, Status, StatusTag};

fn sample() -> Status {
    match parse_status("M  foo\n M bar\n?? baz\nD  gone\n") {
        Ok(s) => s,
        Err(_) => panic!("expected a status"),
    }
}

fn shown_number_of(status: &Status, path: &str) -> String {
    // The listing shows each entry's number in brackets just before its path.
    let pieces = status.layout();
    for k in 0..pieces.len() {
        if pieces[k].text == path && k >= 2 {
            let label = &pieces[k - 2].text;
            return label.trim_start_matches('[').trim_end_matches(']').to_string();
        }
    }
    panic!("path not listed");
}

#[test]
fn shown_number_selects_its_entry() {
    let status = sample();
    for path in ["foo", "gone", "bar", "baz"] {
        let n = shown_number_of(&status, path);
        assert_eq!(replace_number_args(vec![n], &status), Ok(vec![path.to_string()]));
    }
}

#[test]
fn shown_range_selects_its_entries() {
    let status = sample();
    let (a, b) = (shown_number_of(&status, "gone"), shown_number_of(&status, "baz"));
    assert_eq!(
        replace_number_args(vec![format!("{}-{}", a, b)], &status),
        Ok(vec!["gone".to_string(), "bar".to_string(), "baz".to_string()])
    );
}

#[test]
fn plain_arguments_are_unchanged() {
    let status = sample();
    let input: Vec<String> = vec!["README.md".into(), "--cached".into(), "a-b".into()];
    assert_eq!(replace_number_args(input.clone(), &status), Ok(input));
}

#[test]
fn replacement_joins_over_argument_lists() {
    let status = sample();
    let x: Vec<String> = vec!["1".into(), "keep".into()];
    let y: Vec<String> = vec!["2-3".into()];
    let mut xy = x.clone();
    xy.extend(y.clone());
    let mut joined = replace_number_args(x, &status).unwrap();
    joined.extend(replace_number_args(y, &status).unwrap());
    assert_eq!(replace_number_args(xy, &status), Ok(joined));
}

#[test]
fn read_status_is_sorted_and_tagged() {
    let s = match status_from_output("M  b\nA  a\n M d\n M c\n?? z\n?? y\n") {
        Ok(s) => s,
        Err(_) => panic!("expected a status"),
    };
    for list in [&s.staged, &s.unstaged] {
        for w in list.windows(2) {
            assert!(w[0].path <= w[1].path);
        }
    }
    for e in s.iter() {
        assert!(e.status != StatusTag::Unmodified);
    }
    for e in &s.untracked {
        assert_eq!(e.status, StatusTag::Untracked);
    }
}

#[test]
fn branch_list_is_consistent() {
    let b = parse_branch("  a   1 x\n* b   2 y\n  c   3 z\n".to_string()).unwrap();
    assert_eq!(b.branches.len(), b.commits.len());
    assert_eq!(b.branches[b.current], "b");
    assert_eq!(b.commits[b.current], "2 y");
    let none = parse_branch("  a 1\n".to_string()).unwrap();
    assert_eq!(none.current, 0);
}

#[test]
fn listing_shows_only_numbers_below_count() {
    let status = sample();
    let n = status.iter().len();
    let pieces = status.layout();
    let labels: Vec<String> = pieces
        .iter()
        .filter(|p| p.color.is_some() && p.text.starts_with('[') && p.text.ends_with(']'))
        .map(|p| p.text.clone())
        .collect();
    let expected: Vec<String> = (0..n).map(|k| format!("[{}]", k)).collect();
    assert_eq!(labels, expected);
}
