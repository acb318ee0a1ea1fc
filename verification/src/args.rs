//! Number arguments: `3` stands for the path of status entry 3, `2-5` for the
//! paths of entries 2 to 5; any other argument stands for itself.

use vstd::prelude::*;
use crate::number::{decimal, decimal_string, parse_usize, parse_usize_spec};
use crate::status::{EntryView, Status, StatusView};
use crate::text::{chars_of, find_char, lemma_find_char};

verus! {

/// Why number arguments could not be replaced.
#[derive(PartialEq, Eq, Structural, Clone, Copy, Debug)]
pub enum ArgError {
    /// No status entry has this number.
    NoSuchEntry(usize),
    /// A range whose start is after its end.
    InvalidRange(usize, usize),
}

impl ArgError {
    /// The text that tells the user what went wrong.
    pub open spec fn message_spec(self) -> Seq<char> {
        match self {
            ArgError::NoSuchEntry(i) => "No status entry with number "@ + decimal(i as nat)
                + " exists."@,
            ArgError::InvalidRange(b, e) => "Invalid range ["@ + decimal(b as nat) + ", "@
                + decimal(e as nat) + "]"@,
        }
    }

    /// The text that tells the user what went wrong.
    pub fn message(&self) -> (res: String)
        ensures
            res@ == self.message_spec(),
    {
        match self {
            ArgError::NoSuchEntry(i) => {
                let mut s = "No status entry with number ".to_owned();
                s.append(decimal_string(*i).as_str());
                s.append(" exists.");
                s
            },
            ArgError::InvalidRange(b, e) => {
                let mut s = "Invalid range [".to_owned();
                s.append(decimal_string(*b).as_str());
                s.append(", ");
                s.append(decimal_string(*e).as_str());
                s.append("]");
                s
            },
        }
    }
}

/// The paths of the entries of a status, in the order that numbers them.
pub open spec fn entry_paths(m: StatusView) -> Seq<Seq<char>> {
    m.entries().map_values(|e: EntryView| e.1)
}

/// The range `begin-end` that an argument spells: two numbers on either side
/// of its first `-`.
pub open spec fn range_spec(arg: Seq<char>) -> Option<(usize, usize)> {
    let i = find_char(arg, '-') as int;
    if i < arg.len() {
        match (parse_usize_spec(arg.take(i)), parse_usize_spec(arg.skip(i + 1))) {
            (Some(b), Some(e)) => Some((b, e)),
            _ => None,
        }
    } else {
        None
    }
}

/// What one argument is replaced by: the paths of a range of entries, the path
/// of one entry, or the argument itself where it is no number nor range.
pub open spec fn replace_arg(arg: Seq<char>, paths: Seq<Seq<char>>) -> Result<
    Seq<Seq<char>>,
    ArgError,
> {
    match range_spec(arg) {
        Some((b, e)) => if b > e {
            Err(ArgError::InvalidRange(b, e))
        } else if e < paths.len() {
            Ok(paths.subrange(b as int, e + 1))
        } else if b < paths.len() {
            Err(ArgError::NoSuchEntry(paths.len() as usize))
        } else {
            Err(ArgError::NoSuchEntry(b))
        },
        None => match parse_usize_spec(arg) {
            Some(n) => if n < paths.len() {
                Ok(seq![paths[n as int]])
            } else {
                Err(ArgError::NoSuchEntry(n))
            },
            None => Ok(seq![arg]),
        },
    }
}

/// The arguments with each replaced in turn; the first argument that cannot be
/// replaced gives the error.
pub open spec fn replace_args(args: Seq<Seq<char>>, paths: Seq<Seq<char>>) -> Result<
    Seq<Seq<char>>,
    ArgError,
>
    decreases args.len(),
{
    if args.len() == 0 {
        Ok(Seq::empty())
    } else {
        match replace_args(args.drop_last(), paths) {
            Ok(done) => match replace_arg(args.last(), paths) {
                Ok(r) => Ok(done + r),
                Err(e) => Err(e),
            },
            Err(e) => Err(e),
        }
    }
}

/// Once an argument fails, the whole replacement fails with its error.
pub proof fn lemma_replace_error_persists(args: Seq<Seq<char>>, paths: Seq<Seq<char>>, j: int)
    requires
        0 <= j <= args.len(),
        replace_args(args.take(j), paths) is Err,
    ensures
        replace_args(args, paths) == replace_args(args.take(j), paths),
    decreases args.len() - j,
{
    if j < args.len() {
        assert(args.take(j + 1).drop_last() =~= args.take(j));
        lemma_replace_error_persists(args, paths, j + 1);
    } else {
        assert(args.take(j) =~= args);
    }
}

/// The range `begin-end` that the characters `cs` spell, if any.
fn range_of_chars(cs: &Vec<char>) -> (res: Option<(usize, usize)>)
    ensures
        res == range_spec(cs@),
{
    let mut i: usize = 0;
    while i < cs.len() && cs[i] != '-'
        invariant
            i <= cs@.len(),
            forall|k: int| 0 <= k < i ==> cs@[k] != '-',
        decreases cs@.len() - i,
    {
        i += 1;
    }
    proof {
        lemma_find_char(cs@, '-');
        if i < find_char(cs@, '-') {
            assert(cs@[i as int] == '-');
        } else if i > find_char(cs@, '-') {
            assert(cs@[find_char(cs@, '-') as int] == '-');
        }
    }
    if i >= cs.len() {
        return None;
    }
    let mut left: Vec<char> = Vec::new();
    let mut k: usize = 0;
    while k < i
        invariant
            k <= i < cs@.len(),
            left@ == cs@.take(k as int),
        decreases i - k,
    {
        left.push(cs[k]);
        assert(left@ =~= cs@.take(k + 1));
        k += 1;
    }
    let mut right: Vec<char> = Vec::new();
    let mut m: usize = i + 1;
    while m < cs.len()
        invariant
            i + 1 <= m <= cs@.len(),
            right@ == cs@.subrange(i + 1, m as int),
        decreases cs@.len() - m,
    {
        right.push(cs[m]);
        assert(right@ =~= cs@.subrange(i + 1, m + 1));
        m += 1;
    }
    assert(right@ =~= cs@.skip(i + 1));
    match (parse_usize(&left), parse_usize(&right)) {
        (Some(b), Some(e)) => Some((b, e)),
        _ => None,
    }
}

/// Replaces number arguments with the paths of the status entries they number,
/// and ranges of numbers with the paths of all entries in the range; other
/// arguments stay as they are.
pub fn replace_number_args(args: Vec<String>, status: &Status) -> (res: Result<
    Vec<String>,
    ArgError,
>)
    ensures
        match replace_args(args@.map_values(|a: String| a@), entry_paths(status@)) {
            Ok(r) => res matches Ok(v) && v@.map_values(|a: String| a@) == r,
            Err(e) => res == Err::<Vec<String>, ArgError>(e),
        },
{
    let ghost input = args@.map_values(|a: String| a@);
    let ghost paths = entry_paths(status@);
    let mut result: Vec<String> = Vec::new();
    let mut n: usize = 0;
    assert(input.take(0) =~= Seq::<Seq<char>>::empty());
    assert(result@.map_values(|a: String| a@) =~= Seq::<Seq<char>>::empty());
    while n < args.len()
        invariant
            n <= args@.len(),
            input == args@.map_values(|a: String| a@),
            paths == entry_paths(status@),
            replace_args(input.take(n as int), paths) == Ok::<Seq<Seq<char>>, ArgError>(
                result@.map_values(|a: String| a@),
            ),
        decreases args@.len() - n,
    {
        let arg = &args[n];
        let ghost done = result@.map_values(|a: String| a@);
        assert(input[n as int] == arg@);
        assert(input.take(n + 1).drop_last() =~= input.take(n as int));
        assert(input.take(n + 1).last() == arg@);
        let cs = chars_of(arg.as_str());
        match range_of_chars(&cs) {
            Some((b, e)) => {
                if b > e {
                    proof {
                        lemma_replace_error_persists(input, paths, n + 1);
                    }
                    return Err(ArgError::InvalidRange(b, e));
                }
                assert(range_spec(input[n as int]) == Some((b, e)));
                let ghost mut taken: Seq<Seq<char>> = Seq::empty();
                assert(done + taken =~= done);
                let mut i = b;
                // Count from `b` up to `e` without stepping past `e`, which may be
                // the largest `usize`.
                loop
                    invariant_except_break
                        i == b || i <= paths.len(),
                        result@.map_values(|a: String| a@) == done + taken,
                        taken.len() == i - b,
                        forall|k: int| 0 <= k < taken.len() ==> #[trigger] taken[k] == paths[b + k],
                    invariant
                        n < args@.len(),
                        input == args@.map_values(|a: String| a@),
                        range_spec(input[n as int]) == Some((b, e)),
                        replace_args(input.take(n as int), paths) == Ok::<
                            Seq<Seq<char>>,
                            ArgError,
                        >(done),
                        input.take(n + 1).drop_last() == input.take(n as int),
                        input.take(n + 1).last() == input[n as int],
                        b <= i <= e,
                        paths == entry_paths(status@),
                    ensures
                        e < paths.len(),
                        result@.map_values(|a: String| a@) == done + taken,
                        taken.len() == e - b + 1,
                        forall|k: int| 0 <= k < taken.len() ==> #[trigger] taken[k] == paths[b + k],
                    decreases e - i,
                {
                    match status.get(i) {
                        Some(entry) => {
                            let ghost before = result@.map_values(|a: String| a@);
                            result.push(entry.path.clone());
                            assert(paths[i as int] == entry.path@);
                            assert(result@.map_values(|a: String| a@) =~= before.push(
                                entry.path@,
                            ));
                            proof {
                                taken = taken.push(entry.path@);
                            }
                            assert(done + taken =~= before.push(entry.path@));
                        },
                        None => {
                            proof {
                                lemma_replace_error_persists(input, paths, n + 1);
                            }
                            return Err(ArgError::NoSuchEntry(i));
                        },
                    }
                    if i == e {
                        assert(i < paths.len());
                        break;
                    }
                    i += 1;
                }
                assert(e < paths.len());
                assert(taken =~= paths.subrange(b as int, e + 1));
            },
            None => {
                match parse_usize(&cs) {
                    Some(k) => {
                        match status.get(k) {
                            Some(entry) => {
                                result.push(entry.path.clone());
                                assert(result@.map_values(|a: String| a@) =~= done + seq![
                                    paths[k as int],
                                ]);
                            },
                            None => {
                                proof {
                                    lemma_replace_error_persists(input, paths, n + 1);
                                }
                                return Err(ArgError::NoSuchEntry(k));
                            },
                        }
                    },
                    None => {
                        result.push(arg.clone());
                        assert(result@.map_values(|a: String| a@) =~= done + seq![arg@]);
                    },
                }
            },
        }
        n += 1;
    }
    assert(input.take(args@.len() as int) =~= input);
    Ok(result)
}

} // verus!
