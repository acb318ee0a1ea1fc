use gitnum::{file_command, git_arguments, parse_status, ArgError};

fn strings(list: &[&str]) -> Vec<String> {
    list.iter().map(|s| s.to_string()).collect()
}

#[test]
fn git_arguments_in_order() {
    assert_eq!(
        git_arguments("branch", &strings(&["topic"]), &strings(&["-v"])),
        strings(&["branch", "topic", "-v"])
    );
    assert_eq!(git_arguments("status", &vec![], &vec![]), strings(&["status"]));
}

#[test]
fn file_command_replaces_numbers_after_separator() {
    let status = match parse_status("M  foo\n M bar\n") {
        Ok(s) => s,
        Err(_) => panic!("expected a status"),
    };
    assert_eq!(
        file_command("add", strings(&["0-1", "other"]), strings(&["-p"]), &status),
        Ok(strings(&["add", "-p", "--", "foo", "bar", "other"]))
    );
    assert_eq!(
        file_command("diff", strings(&["5"]), vec![], &status),
        Err(ArgError::NoSuchEntry(5))
    );
}
