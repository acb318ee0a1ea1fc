//! The output of `git branch -v`, parsed into a `Branch`.
//!
//! Each line of that output is a two-character prefix (`* ` for the branch
//! that is checked out), the branch name, a space, and the commit the branch
//! points at.

use vstd::prelude::*;
use crate::status::{line_splittable, splits_after_two_bytes, tag_width};
use crate::text::{char_views, find_char, lemma_find_char, lines, lines_of, string_of_range};

verus! {

/// `std::io::Error`, the error type of the `io::Result` that `parse_branch`
/// returns; nothing is known of its values.
#[verifier::external_type_specification]
#[verifier::external_body]
pub struct ExIoError(std::io::Error);

/// The character sequences of a sequence of strings.
pub open spec fn string_views(v: Seq<String>) -> Seq<Seq<char>> {
    v.map_values(|s: String| s@)
}

/// The branches of a repository and the commits they have checked out.
pub struct Branch {
    pub branches: Vec<String>,
    /// The n-th entry in `commits` is the commit that the n-th entry in
    /// `branches` has currently checked out. Is a string "<hash> <message>".
    pub commits: Vec<String>,
    /// `branches.get(current)` is the currently checked out branch
    pub current: usize,
}

/// What a `Branch` stands for.
pub struct BranchView {
    pub branches: Seq<Seq<char>>,
    pub commits: Seq<Seq<char>>,
    pub current: usize,
}

impl BranchView {
    /// No branches.
    pub open spec fn empty() -> BranchView {
        BranchView { branches: Seq::empty(), commits: Seq::empty(), current: 0 }
    }
}

impl View for Branch {
    type V = BranchView;

    open spec fn view(&self) -> BranchView {
        BranchView {
            branches: string_views(self.branches@),
            commits: string_views(self.commits@),
            current: self.current,
        }
    }
}

impl Default for Branch {
    fn default() -> (res: Self)
        ensures
            res@ == BranchView::empty(),
    {
        let res = Branch { branches: Vec::new(), commits: Vec::new(), current: 0 };
        assert(res@.branches =~= Seq::<Seq<char>>::empty());
        assert(res@.commits =~= Seq::<Seq<char>>::empty());
        res
    }
}

impl Branch {
    /// No branches.
    pub fn new() -> (res: Self)
        ensures
            res@ == BranchView::empty(),
    {
        Branch::default()
    }
}

/// `git branch -v` can take `line` apart: split after two bytes, with a space
/// after the branch name.
pub open spec fn branch_line_ok(line: Seq<char>) -> bool {
    &&& splits_after_two_bytes(line)
    &&& find_char(line.skip(tag_width(line)), ' ') < line.skip(tag_width(line)).len()
}

/// `s` without its leading spaces.
pub open spec fn skip_spaces(s: Seq<char>) -> Seq<char>
    decreases s.len(),
{
    if s.len() > 0 && s[0] == ' ' {
        skip_spaces(s.drop_first())
    } else {
        s
    }
}

/// The branch name of a `git branch -v` line: after the two-character prefix,
/// up to the first space.
pub open spec fn branch_name(line: Seq<char>) -> Seq<char> {
    let rest = line.skip(tag_width(line));
    rest.take(find_char(rest, ' ') as int)
}

/// The commit of a `git branch -v` line, `<hash> <message>`: what follows the
/// run of spaces that ends the branch name.
pub open spec fn branch_commit(line: Seq<char>) -> Seq<char> {
    let rest = line.skip(tag_width(line));
    skip_spaces(rest.skip(find_char(rest, ' ') as int))
}

/// A non-empty line that starts with `*`: the line of the checked-out branch.
pub open spec fn is_current_line(line: Seq<char>) -> bool {
    line.len() > 0 && line[0] == '*'
}

/// The branches after one more line of output: its branch name and commit are
/// appended, and a line that starts with `*` marks its branch as the current one.
pub open spec fn add_branch_line(m: BranchView, line: Seq<char>) -> BranchView {
    if line.len() == 0 {
        m
    } else {
        BranchView {
            branches: m.branches.push(branch_name(line)),
            commits: m.commits.push(branch_commit(line)),
            current: if line[0] == '*' {
                m.branches.len() as usize
            } else {
                m.current
            },
        }
    }
}

/// The branches that the lines give.
pub open spec fn branch_of_lines(ls: Seq<Seq<char>>) -> BranchView
    decreases ls.len(),
{
    if ls.len() == 0 {
        BranchView::empty()
    } else {
        add_branch_line(branch_of_lines(ls.drop_last()), ls.last())
    }
}

/// Every non-empty line of `output` is one that `parse_branch` can take apart.
pub open spec fn branch_lines_ok(output: Seq<char>) -> bool {
    forall|i: int|
        0 <= i < lines(output).len() && #[trigger] lines(output)[i].len() > 0 ==> branch_line_ok(
            lines(output)[i],
        )
}

/// Parses the output of `git branch -v` into a `Branch`.
pub fn parse_branch(output: String) -> (res: std::io::Result<Branch>)
    requires
        branch_lines_ok(output@),
    ensures
        res matches Ok(b) && b@ == branch_of_lines(lines(output@)),
{
    let all = lines_of(output.as_str());
    let ghost ls = lines(output@);
    let mut result = Branch::new();
    let mut i: usize = 0;
    assert(ls.take(0) =~= Seq::<Seq<char>>::empty());
    while i < all.len()
        invariant
            i <= all@.len(),
            char_views(all@) == ls,
            ls == lines(output@),
            branch_lines_ok(output@),
            result.branches@.len() == result.commits@.len(),
            branch_of_lines(ls.take(i as int)) == result@,
        decreases all@.len() - i,
    {
        let line = &all[i];
        assert(ls[i as int] == line@);
        assert(ls.take(i + 1).drop_last() =~= ls.take(i as int));
        assert(ls.take(i + 1).last() == line@);
        if line.len() > 0 {
            let ghost m = result@;
            let w: usize = if (line[0] as u32) >= 0x80 {
                1
            } else {
                2
            };
            assert(w == tag_width(line@));
            let ghost rest = line@.skip(w as int);
            let mut j = w;
            while j < line.len() && line[j] != ' '
                invariant
                    w <= j <= line@.len(),
                    rest == line@.skip(w as int),
                    forall|k: int| 0 <= k < j - w ==> rest[k] != ' ',
                decreases line@.len() - j,
            {
                j += 1;
            }
            proof {
                lemma_find_char(rest, ' ');
                assert(branch_line_ok(line@));
                if (j - w) < find_char(rest, ' ') {
                    assert(rest[j - w] == ' ');
                } else if (j - w) > find_char(rest, ' ') {
                    assert(rest[find_char(rest, ' ') as int] == ' ');
                }
                assert(j - w == find_char(rest, ' '));
            }
            if line[0] == '*' {
                result.current = result.branches.len();
            }
            let mut k = j;
            assert(rest.skip(j - w) =~= line@.skip(j as int));
            while k < line.len() && line[k] == ' '
                invariant
                    j <= k <= line@.len(),
                    skip_spaces(rest.skip(j - w)) == skip_spaces(line@.skip(k as int)),
                decreases line@.len() - k,
            {
                assert(line@.skip(k as int).drop_first() =~= line@.skip(k + 1));
                k += 1;
            }
            assert(skip_spaces(line@.skip(k as int)) == line@.skip(k as int));
            let branch = string_of_range(line, w, j);
            let commit = string_of_range(line, k, line.len());
            assert(branch@ =~= branch_name(line@));
            assert(commit@ =~= branch_commit(line@));
            result.branches.push(branch);
            result.commits.push(commit);
            assert(result@.branches =~= m.branches.push(branch_name(line@)));
            assert(result@.commits =~= m.commits.push(branch_commit(line@)));
        }
        i += 1;
    }
    assert(ls.take(all@.len() as int) =~= ls);
    Ok(result)
}

/// Whether `parse_branch` can take `output` apart: every non-empty line splits
/// after its first two bytes and has a space after the branch name.
pub fn branch_output_ok(output: &str) -> (res: bool)
    ensures
        res == branch_lines_ok(output@),
{
    let all = lines_of(output);
    let mut i: usize = 0;
    while i < all.len()
        invariant
            i <= all@.len(),
            char_views(all@) == lines(output@),
            forall|k: int|
                0 <= k < i && #[trigger] lines(output@)[k].len() > 0 ==> branch_line_ok(
                    lines(output@)[k],
                ),
        decreases all@.len() - i,
    {
        let line = &all[i];
        assert(lines(output@)[i as int] == line@);
        if line.len() > 0 {
            if !line_splittable(line) {
                return false;
            }
            let w: usize = if (line[0] as u32) >= 0x80 {
                1
            } else {
                2
            };
            assert(w == tag_width(line@));
            let ghost rest = line@.skip(w as int);
            let mut j = w;
            while j < line.len() && line[j] != ' '
                invariant
                    w <= j <= line@.len(),
                    rest == line@.skip(w as int),
                    forall|k: int| 0 <= k < j - w ==> rest[k] != ' ',
                decreases line@.len() - j,
            {
                j += 1;
            }
            proof {
                lemma_find_char(rest, ' ');
                if (j - w) < find_char(rest, ' ') {
                    assert(rest[j - w] == ' ');
                } else if (j - w) > find_char(rest, ' ') {
                    assert(rest[find_char(rest, ' ') as int] == ' ');
                }
            }
            if j >= line.len() {
                return false;
            }
        }
        i += 1;
    }
    true
}

} // verus!
