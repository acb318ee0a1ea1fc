use gitnum::{branch_output_ok, parse_branch, Branch};

const OUTPUT: &str = "  feature   1a2b3c4 Add feature\n* main      5d6e7f8 Fix bug\n  old       9a0b1c2 Old work\n";

#[test]
fn parse_branch_reads_names_commits_and_current() {
    let b = parse_branch(OUTPUT.to_string()).unwrap();
    assert_eq!(b.branches, vec!["feature", "main", "old"]);
    assert_eq!(
        b.commits,
        vec!["1a2b3c4 Add feature", "5d6e7f8 Fix bug", "9a0b1c2 Old work"]
    );
    assert_eq!(b.current, 1);
}

#[test]
fn parse_branch_without_current_line() {
    let b = parse_branch("  a x\n  b y\n".to_string()).unwrap();
    assert_eq!(b.branches, vec!["a", "b"]);
    assert_eq!(b.commits, vec!["x", "y"]);
    assert_eq!(b.current, 0);
}

#[test]
fn parse_branch_empty_output() {
    let b = parse_branch(String::new()).unwrap();
    assert!(b.branches.is_empty());
    assert!(b.commits.is_empty());
    assert_eq!(b.current, 0);
    let n = Branch::new();
    assert!(n.branches.is_empty() && n.commits.is_empty() && n.current == 0);
}

#[test]
fn branch_output_checks() {
    assert!(branch_output_ok(OUTPUT));
    assert!(branch_output_ok(""));
    assert!(!branch_output_ok("* main\n"));
    assert!(!branch_output_ok("*\n"));
}

#[test]
fn commits_drop_alignment_padding() {
    let b = parse_branch("* main    abc1234 init\n  feature def5678 wip\n".to_string()).unwrap();
    assert_eq!(b.branches, vec!["main", "feature"]);
    assert_eq!(b.commits, vec!["abc1234 init", "def5678 wip"]);
    assert_eq!(b.current, 0);
    assert_eq!(b.branches[b.current], "main");
}
