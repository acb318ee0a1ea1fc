use gitnum::{parse_status, replace_number_args, ArgError, Status};

fn sample() -> Status {
    match parse_status("M  foo\n M bar\n?? baz\nA  qux\n") {
        Ok(s) => s,
        Err(_) => panic!("expected a status"),
    }
}

fn args(list: &[&str]) -> Vec<String> {
    list.iter().map(|s| s.to_string()).collect()
}

#[test]
fn numbers_become_paths() {
    let status = sample();
    // numbering: 0 foo, 1 qux (staged), 2 bar (unstaged), 3 baz (untracked)
    assert_eq!(replace_number_args(args(&["0", "3"]), &status), Ok(args(&["foo", "baz"])));
    assert_eq!(replace_number_args(args(&["+2"]), &status), Ok(args(&["bar"])));
}

#[test]
fn ranges_become_paths() {
    let status = sample();
    assert_eq!(replace_number_args(args(&["1-3"]), &status), Ok(args(&["qux", "bar", "baz"])));
    assert_eq!(replace_number_args(args(&["2-2"]), &status), Ok(args(&["bar"])));
}

#[test]
fn other_arguments_stay() {
    let status = sample();
    let input = args(&["src/main.rs", "-p", "1-", "-1", "1-2-3", "x1"]);
    assert_eq!(replace_number_args(input.clone(), &status), Ok(input));
}

#[test]
fn invalid_range_is_refused() {
    let status = sample();
    assert_eq!(
        replace_number_args(args(&["foo", "3-1"]), &status),
        Err(ArgError::InvalidRange(3, 1))
    );
}

#[test]
fn missing_entries_are_refused() {
    let status = sample();
    assert_eq!(replace_number_args(args(&["4"]), &status), Err(ArgError::NoSuchEntry(4)));
    assert_eq!(replace_number_args(args(&["2-6"]), &status), Err(ArgError::NoSuchEntry(4)));
    assert_eq!(replace_number_args(args(&["7-9"]), &status), Err(ArgError::NoSuchEntry(7)));
    assert_eq!(
        replace_number_args(args(&["0", "9", "1-0"]), &status),
        Err(ArgError::NoSuchEntry(9))
    );
}

#[test]
fn argument_error_messages() {
    assert_eq!(ArgError::NoSuchEntry(12).message(), "No status entry with number 12 exists.");
    assert_eq!(ArgError::InvalidRange(5, 2).message(), "Invalid range [5, 2]");
}

#[test]
fn range_to_largest_number_is_refused_without_overflow() {
    let status = sample();
    let arg = format!("0-{}", usize::MAX);
    assert_eq!(replace_number_args(vec![arg], &status), Err(ArgError::NoSuchEntry(4)));
    let arg = format!("{}-{}", usize::MAX, usize::MAX);
    assert_eq!(
        replace_number_args(vec![arg], &status),
        Err(ArgError::NoSuchEntry(usize::MAX))
    );
}
