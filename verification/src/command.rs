//! The argument lists that `git` is run with.

use vstd::prelude::*;
use crate::args::{ArgError, entry_paths, replace_args, replace_number_args};
use crate::status::Status;

verus! {

/// The character sequences of a sequence of strings.
pub open spec fn arg_views(v: Seq<String>) -> Seq<Seq<char>> {
    v.map_values(|a: String| a@)
}

/// Appends clones of `more` to `out`.
fn extend_cloned(out: &mut Vec<String>, more: &Vec<String>)
    ensures
        arg_views(final(out)@) == arg_views(old(out)@) + arg_views(more@),
{
    let ghost before = arg_views(out@);
    let mut i: usize = 0;
    while i < more.len()
        invariant
            i <= more@.len(),
            arg_views(out@) == before + arg_views(more@).take(i as int),
        decreases more@.len() - i,
    {
        let s = more[i].clone();
        assert(s@ == more@[i as int]@);
        let ghost mid = out@;
        out.push(s);
        assert(arg_views(out@) =~= arg_views(mid).push(s@));
        assert(arg_views(out@) =~= before + arg_views(more@).take(i + 1));
        i += 1;
    }
    assert(arg_views(more@).take(i as int) =~= arg_views(more@));
}

/// The arguments that `git` runs `git_cmd` with: the subcommand, then `args`,
/// then `git_args`.
pub fn git_arguments(git_cmd: &str, args: &Vec<String>, git_args: &Vec<String>) -> (res: Vec<
    String,
>)
    ensures
        arg_views(res@) == seq![git_cmd@] + arg_views(args@) + arg_views(git_args@),
{
    let mut out: Vec<String> = Vec::new();
    out.push(git_cmd.to_owned());
    assert(arg_views(out@) =~= seq![git_cmd@]);
    extend_cloned(&mut out, args);
    extend_cloned(&mut out, git_args);
    out
}

/// The arguments that `git` runs a command on files with: the subcommand, the
/// options, `--`, then the files with their number arguments replaced by the
/// paths of the status entries they number.
pub fn file_command(git_cmd: &str, files: Vec<String>, git_args: Vec<String>, status: &Status) -> (res:
    Result<Vec<String>, ArgError>)
    ensures
        match replace_args(arg_views(files@), entry_paths(status@)) {
            Ok(r) => res matches Ok(v) && arg_views(v@) == seq![git_cmd@] + arg_views(git_args@)
                + seq!["--"@] + r,
            Err(e) => res == Err::<Vec<String>, ArgError>(e),
        },
{
    let mut options = git_args;
    let ghost opts = arg_views(options@);
    options.push("--".to_owned());
    assert(arg_views(options@) =~= opts + seq!["--"@]);
    assert(arg_views(files@) =~= files@.map_values(|a: String| a@));
    match replace_number_args(files, status) {
        Ok(replaced) => {
            let res = git_arguments(git_cmd, &options, &replaced);
            assert(arg_views(replaced@) =~= replaced@.map_values(|a: String| a@));
            Ok(res)
        },
        Err(e) => Err(e),
    }
}

} // verus!
