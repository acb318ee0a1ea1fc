//! What holds of the library as a whole: the numbers that a status listing
//! shows are the numbers that select its entries, replacement leaves other
//! arguments alone, the listing is sorted, and the branch list is consistent.

use vstd::prelude::*;
use crate::args::{ArgError, entry_paths, range_spec, replace_arg, replace_args};
use crate::branch::{BranchView, branch_commit, branch_line_ok, branch_name, branch_of_lines, is_current_line, skip_spaces};
use crate::display::{
    PieceView,
    branch_count,
    branch_layout,
    branch_row,
    branch_rows,
    status_layout,
    status_row,
    status_rows,
    status_section,
    staged_header,
    unstaged_header,
    untracked_header,
};
use crate::paint::Color;
use crate::number::{decimal, is_digit, lemma_decimal, lemma_parse_decimal, parse_usize_spec};
use crate::sort::{lemma_sort_by_path, sorted_by_path};
use crate::order::path_le;
use crate::status::{StatusTag, StatusView, add_status_line, line_entry, splits_after_two_bytes, status_from_output_spec, status_of_lines, tag_width};
use crate::text::{find_char, lemma_find_char, lemma_find_char_after, lines, trim};

verus! {

/// The rows of a list of entries: seven pieces each, in order, row `k`
/// numbered `start + k`.
pub proof fn lemma_status_rows(es: Seq<(StatusTag, Seq<char>)>, start: nat)
    ensures
        status_rows(es, start).len() == 7 * es.len(),
        forall|k: int|
            0 <= k < es.len() ==> status_rows(es, start).subrange(7 * k, 7 * k + 7) == status_row(
                #[trigger] es[k],
                (start + k) as nat,
            ),
    decreases es.len(),
{
    if es.len() > 0 {
        let u = es.drop_last();
        lemma_status_rows(u, start);
        let r = status_rows(es, start);
        assert forall|k: int| 0 <= k < es.len() implies r.subrange(7 * k, 7 * k + 7) == status_row(
            #[trigger] es[k],
            (start + k) as nat,
        ) by {
            if k < u.len() {
                assert(es[k] == u[k]);
                assert(r.subrange(7 * k, 7 * k + 7) =~= status_rows(u, start).subrange(
                    7 * k,
                    7 * k + 7,
                ));
            } else {
                assert(r.subrange(7 * k, 7 * k + 7) =~= status_row(
                    es.last(),
                    (start + es.len() - 1) as nat,
                ));
            }
        }
    }
}

/// Entry `k` of a non-empty section is shown in the seven pieces after the
/// header and the rows before it.
proof fn lemma_section_row(header: Seq<char>, es: Seq<(StatusTag, Seq<char>)>, start: nat, k: int)
    requires
        0 <= k < es.len(),
    ensures
        status_section(header, es, start).len() == 1 + 7 * es.len(),
        status_section(header, es, start).subrange(1 + 7 * k, 1 + 7 * k + 7) == status_row(
            es[k],
            (start + k) as nat,
        ),
{
    lemma_status_rows(es, start);
    let sec = status_section(header, es, start);
    assert(sec.subrange(1 + 7 * k, 1 + 7 * k + 7) =~= status_rows(es, start).subrange(
        7 * k,
        7 * k + 7,
    ));
}

/// The length of a section: nothing for no entries, else a header and seven
/// pieces for each entry.
proof fn lemma_section_len(header: Seq<char>, es: Seq<(StatusTag, Seq<char>)>, start: nat)
    ensures
        status_section(header, es, start).len() == (if es.len() == 0 {
            0
        } else {
            1 + 7 * es.len()
        }),
{
    lemma_status_rows(es, start);
}

/// Every entry of a status is listed with its number: the row of entry `i`,
/// numbered `[i]`, stands in the listing.
pub proof fn lemma_listing_numbers_entries(m: StatusView, i: int)
    requires
        0 <= i < m.entries().len(),
    ensures
        exists|o: int|
            0 <= o && o + 7 <= status_layout(m).len() && #[trigger] status_layout(m).subrange(
                o,
                o + 7,
            ) == status_row(m.entries()[i], i as nat),
{
    let a = m.staged.len();
    let b = m.unstaged.len();
    let s1 = status_section(staged_header(), m.staged, 0);
    let s2 = status_section(unstaged_header(), m.unstaged, a);
    let s3 = status_section(untracked_header(), m.untracked, a + b);
    let tail: Seq<PieceView> = seq![(seq!['\n'], None)];
    let lay = status_layout(m);
    assert(lay == s1 + s2 + s3 + tail);
    lemma_section_len(staged_header(), m.staged, 0);
    lemma_section_len(unstaged_header(), m.unstaged, a);
    lemma_section_len(untracked_header(), m.untracked, a + b);
    if i < a {
        lemma_section_row(staged_header(), m.staged, 0, i);
        let o = 1 + 7 * i;
        assert(lay.subrange(o, o + 7) =~= s1.subrange(o, o + 7));
        assert(m.entries()[i] == m.staged[i]);
    } else if i < a + b {
        lemma_section_row(unstaged_header(), m.unstaged, a, i - a);
        let o = s1.len() + 1 + 7 * (i - a);
        assert(lay.subrange(o, o + 7) =~= s2.subrange(1 + 7 * (i - a), 1 + 7 * (i - a) + 7));
        assert(m.entries()[i] == m.unstaged[i - a]);
    } else {
        lemma_section_row(untracked_header(), m.untracked, a + b, i - a - b);
        let o = s1.len() + s2.len() + 1 + 7 * (i - a - b);
        assert(lay.subrange(o, o + 7) =~= s3.subrange(
            1 + 7 * (i - a - b),
            1 + 7 * (i - a - b) + 7,
        ));
        assert(m.entries()[i] == m.untracked[i - a - b]);
    }
}

/// The rows of two lists one after the other are the rows of the joined list,
/// the second list numbered on from where the first ends.
pub proof fn lemma_status_rows_concat(
    x: Seq<(StatusTag, Seq<char>)>,
    y: Seq<(StatusTag, Seq<char>)>,
    start: nat,
)
    ensures
        status_rows(x + y, start) == status_rows(x, start) + status_rows(y, start + x.len()),
    decreases y.len(),
{
    if y.len() == 0 {
        assert(x + y =~= x);
        assert(status_rows(x, start) + status_rows(y, start + x.len()) =~= status_rows(x, start));
    } else {
        lemma_status_rows_concat(x, y.drop_last(), start);
        assert((x + y).drop_last() =~= x + y.drop_last());
        assert((x + y).last() == y.last());
        let r = status_row(y.last(), (start + x.len() + y.len() - 1) as nat);
        assert(status_rows(x + y, start) == status_rows(x + y.drop_last(), start) + r);
        assert(status_rows(y, start + x.len()) == status_rows(y.drop_last(), start + x.len()) + r);
        assert(status_rows(x, start) + status_rows(y.drop_last(), start + x.len()) + r
            =~= status_rows(x, start) + (status_rows(y.drop_last(), start + x.len()) + r));
    }
}

/// The header piece of a section: none for an empty list.
pub open spec fn header_piece(header: Seq<char>, es: Seq<(StatusTag, Seq<char>)>) -> Seq<PieceView> {
    if es.len() == 0 {
        Seq::empty()
    } else {
        seq![(header, None::<Color>)]
    }
}

/// Apart from the plain section headers and the final empty line, the status
/// listing is the rows of all entries numbered 0 to n-1 in turn, row `k` being
/// that of entry `k`.
pub proof fn lemma_listing_rows(m: StatusView)
    ensures
        status_layout(m) == header_piece(staged_header(), m.staged) + status_rows(m.staged, 0)
            + header_piece(unstaged_header(), m.unstaged) + status_rows(
            m.unstaged,
            m.staged.len(),
        ) + header_piece(untracked_header(), m.untracked) + status_rows(
            m.untracked,
            m.staged.len() + m.unstaged.len(),
        ) + seq![(seq!['\n'], None::<Color>)],
        status_rows(m.staged, 0) + status_rows(m.unstaged, m.staged.len()) + status_rows(
            m.untracked,
            m.staged.len() + m.unstaged.len(),
        ) == status_rows(m.entries(), 0),
        status_rows(m.entries(), 0).len() == 7 * m.entries().len(),
        forall|k: int|
            0 <= k < m.entries().len() ==> status_rows(m.entries(), 0).subrange(7 * k, 7 * k + 7)
                == status_row(#[trigger] m.entries()[k], k as nat),
{
    let a = m.staged.len();
    let b = m.unstaged.len();
    let r1 = status_rows(m.staged, 0);
    let r2 = status_rows(m.unstaged, a);
    let r3 = status_rows(m.untracked, a + b);
    let h1 = header_piece(staged_header(), m.staged);
    let h2 = header_piece(unstaged_header(), m.unstaged);
    let h3 = header_piece(untracked_header(), m.untracked);
    let nl: Seq<PieceView> = seq![(seq!['\n'], None::<Color>)];
    assert(status_section(staged_header(), m.staged, 0) =~= h1 + r1);
    assert(status_section(unstaged_header(), m.unstaged, a) =~= h2 + r2);
    assert(status_section(untracked_header(), m.untracked, a + b) =~= h3 + r3);
    assert(status_layout(m) =~= h1 + r1 + h2 + r2 + h3 + r3 + nl);
    lemma_status_rows_concat(m.staged, m.unstaged, 0);
    lemma_status_rows_concat(m.staged + m.unstaged, m.untracked, 0);
    assert(status_rows(m.entries(), 0) =~= r1 + r2 + r3);
    lemma_status_rows(m.entries(), 0);
}

/// Piece `q` of the rows of `es` is piece `q % 7` of row `q / 7`.
proof fn lemma_rows_piece(es: Seq<(StatusTag, Seq<char>)>, q: int)
    requires
        0 <= q < 7 * es.len(),
    ensures
        0 <= q / 7 < es.len(),
        status_rows(es, 0)[q] == status_row(es[q / 7], (q / 7) as nat)[q % 7],
{
    lemma_status_rows(es, 0);
    let k = q / 7;
    assert(status_rows(es, 0).subrange(7 * k, 7 * k + 7) == status_row(es[k], k as nat));
    assert(status_rows(es, 0)[q] == status_rows(es, 0).subrange(7 * k, 7 * k + 7)[q % 7]);
}

/// Every coloured piece of the status listing, numbers included, is a piece of
/// the row of some entry `k < n`, numbered `k`: no other number is shown.
pub proof fn lemma_listing_shows_only_rows(m: StatusView, o: int)
    requires
        0 <= o < status_layout(m).len(),
        status_layout(m)[o].1 is Some,
    ensures
        exists|k: int, j: int|
            0 <= k < m.entries().len() && 0 <= j < 7 && status_layout(m)[o] == #[trigger] status_row(
                m.entries()[k],
                k as nat,
            )[j],
{
    lemma_listing_rows(m);
    lemma_status_rows(m.staged, 0);
    lemma_status_rows(m.unstaged, m.staged.len());
    lemma_status_rows(m.untracked, m.staged.len() + m.unstaged.len());
    let a = m.staged.len();
    let b = m.unstaged.len();
    let r1 = status_rows(m.staged, 0);
    let r2 = status_rows(m.unstaged, a);
    let r3 = status_rows(m.untracked, a + b);
    let h1 = header_piece(staged_header(), m.staged);
    let h2 = header_piece(unstaged_header(), m.unstaged);
    let h3 = header_piece(untracked_header(), m.untracked);
    let nl: Seq<PieceView> = seq![(seq!['\n'], None::<Color>)];
    let lay = status_layout(m);
    let r = status_rows(m.entries(), 0);
    assert(lay == h1 + r1 + h2 + r2 + h3 + r3 + nl);
    assert(r == r1 + r2 + r3);
    let q: int = if o < h1.len() + r1.len() {
        o - h1.len()
    } else if o < h1.len() + r1.len() + h2.len() + r2.len() {
        o - h1.len() - h2.len()
    } else {
        o - h1.len() - h2.len() - h3.len()
    };
    assert(0 <= q < r.len());
    assert(lay[o] == r[q]);
    lemma_rows_piece(m.entries(), q);
    let k = q / 7;
    let j = q % 7;
    assert(lay[o] == status_row(m.entries()[k], k as nat)[j]);
}

/// A numeral has no `-`.
proof fn lemma_decimal_no_dash(n: nat)
    ensures
        forall|j: int| 0 <= j < decimal(n).len() ==> decimal(n)[j] != '-',
        find_char(decimal(n), '-') == decimal(n).len(),
{
    lemma_decimal(n);
    assert forall|j: int| 0 <= j < decimal(n).len() implies decimal(n)[j] != '-' by {
        assert(is_digit(decimal(n)[j]));
    }
    lemma_find_char_after(decimal(n), Seq::empty(), '-');
    assert(decimal(n) + Seq::<char>::empty() =~= decimal(n));
}

/// The number shown with an entry, given back as an argument, is replaced by
/// that entry's path; a number that no entry has is refused.
pub proof fn lemma_number_selects_entry(m: StatusView, n: usize)
    ensures
        replace_args(seq![decimal(n as nat)], entry_paths(m)) == (if n < m.entries().len() {
            Ok(seq![m.entries()[n as int].1])
        } else {
            Err(ArgError::NoSuchEntry(n))
        }),
{
    let args = seq![decimal(n as nat)];
    lemma_decimal_no_dash(n as nat);
    lemma_parse_decimal(n);
    assert(range_spec(decimal(n as nat)) is None);
    assert(args.drop_last() =~= Seq::<Seq<char>>::empty());
    assert(replace_args(Seq::<Seq<char>>::empty(), entry_paths(m)) == Ok::<
        Seq<Seq<char>>,
        ArgError,
    >(Seq::empty()));
    if n < m.entries().len() {
        assert(Seq::<Seq<char>>::empty() + seq![entry_paths(m)[n as int]] =~= seq![
            entry_paths(m)[n as int],
        ]);
    }
}

/// A range `a-b` of shown numbers, given as an argument, is replaced by the
/// paths of entries `a` to `b`.
pub proof fn lemma_range_selects_entries(m: StatusView, a: usize, b: usize)
    requires
        a <= b < m.entries().len(),
    ensures
        replace_args(
            seq![decimal(a as nat) + seq!['-'] + decimal(b as nat)],
            entry_paths(m),
        ) == Ok::<Seq<Seq<char>>, ArgError>(entry_paths(m).subrange(a as int, b + 1)),
{
    let arg = decimal(a as nat) + seq!['-'] + decimal(b as nat);
    lemma_decimal_no_dash(a as nat);
    lemma_parse_decimal(a);
    lemma_parse_decimal(b);
    assert(arg =~= decimal(a as nat) + (seq!['-'] + decimal(b as nat)));
    lemma_find_char_after(decimal(a as nat), seq!['-'] + decimal(b as nat), '-');
    assert((seq!['-'] + decimal(b as nat))[0] == '-');
    let i = decimal(a as nat).len() as int;
    assert(find_char(arg, '-') == i);
    assert(arg.take(i) =~= decimal(a as nat));
    assert(arg.skip(i + 1) =~= decimal(b as nat));
    assert(range_spec(arg) == Some((a, b)));
    let args = seq![arg];
    assert(args.drop_last() =~= Seq::<Seq<char>>::empty());
    assert(replace_args(Seq::<Seq<char>>::empty(), entry_paths(m)) == Ok::<
        Seq<Seq<char>>,
        ArgError,
    >(Seq::empty()));
    assert(Seq::<Seq<char>>::empty() + entry_paths(m).subrange(a as int, b + 1) =~= entry_paths(
        m,
    ).subrange(a as int, b + 1));
}

/// Arguments that are neither numbers nor ranges are left as they are.
pub proof fn lemma_plain_args_unchanged(args: Seq<Seq<char>>, paths: Seq<Seq<char>>)
    requires
        forall|i: int|
            0 <= i < args.len() ==> #[trigger] range_spec(args[i]) is None && parse_usize_spec(
                args[i],
            ) is None,
    ensures
        replace_args(args, paths) == Ok::<Seq<Seq<char>>, ArgError>(args),
    decreases args.len(),
{
    if args.len() == 0 {
        assert(args =~= Seq::<Seq<char>>::empty());
    } else {
        let u = args.drop_last();
        assert forall|i: int| 0 <= i < u.len() implies #[trigger] range_spec(u[i]) is None
            && parse_usize_spec(u[i]) is None by {
            assert(u[i] == args[i]);
            assert(range_spec(args[i]) is None);
        }
        lemma_plain_args_unchanged(u, paths);
        assert(range_spec(args[args.len() - 1]) is None);
        assert(replace_args(u, paths) == Ok::<Seq<Seq<char>>, ArgError>(u));
        assert(replace_arg(args.last(), paths) == Ok::<Seq<Seq<char>>, ArgError>(seq![args.last()]));
        assert(u + seq![args.last()] =~= args);
        assert(replace_args(args, paths) == Ok::<Seq<Seq<char>>, ArgError>(u + seq![args.last()]));
    }
}

/// Replacing the arguments of two lists one after the other is replacing the
/// arguments of the joined list: the results join, and the first error wins.
pub proof fn lemma_replace_concat(x: Seq<Seq<char>>, y: Seq<Seq<char>>, paths: Seq<Seq<char>>)
    ensures
        replace_args(x + y, paths) == (match replace_args(x, paths) {
            Err(e) => Err(e),
            Ok(r1) => match replace_args(y, paths) {
                Err(e) => Err(e),
                Ok(r2) => Ok(r1 + r2),
            },
        }),
    decreases y.len(),
{
    if y.len() == 0 {
        assert(x + y =~= x);
        if let Ok(r1) = replace_args(x, paths) {
            assert(r1 + Seq::<Seq<char>>::empty() =~= r1);
        }
    } else {
        lemma_replace_concat(x, y.drop_last(), paths);
        assert((x + y).drop_last() =~= x + y.drop_last());
        assert((x + y).last() == y.last());
        if let Ok(r1) = replace_args(x, paths) {
            if let Ok(r2) = replace_args(y.drop_last(), paths) {
                if let Ok(r) = replace_arg(y.last(), paths) {
                    assert(r1 + r2 + r =~= r1 + (r2 + r));
                }
            }
        }
    }
}

/// The staged and the unstaged entries of a status read from `git status` are
/// sorted by path, and are the entries its lines give, reordered.
pub proof fn lemma_status_sorted(output: Seq<char>)
    ensures
        status_from_output_spec(output) matches Ok(s) ==> {
            &&& sorted_by_path(s.staged)
            &&& sorted_by_path(s.unstaged)
            &&& status_of_lines(lines(output)) matches Ok(m) && {
                &&& s.staged.to_multiset() == m.staged.to_multiset()
                &&& s.unstaged.to_multiset() == m.unstaged.to_multiset()
                &&& s.untracked == m.untracked
            }
        },
{
    if let Ok(m) = status_of_lines(lines(output)) {
        lemma_sort_by_path(m.staged);
        lemma_sort_by_path(m.unstaged);
    }
}

/// No entry of a parsed status is unmodified, and the untracked list holds
/// only untracked entries.
pub proof fn lemma_status_tags(ls: Seq<Seq<char>>)
    ensures
        status_of_lines(ls) matches Ok(m) ==> {
            &&& forall|k: int|
                0 <= k < m.entries().len() ==> (#[trigger] m.entries()[k]).0
                    != StatusTag::Unmodified
            &&& forall|k: int|
                0 <= k < m.untracked.len() ==> (#[trigger] m.untracked[k]).0
                    == StatusTag::Untracked
        },
    decreases ls.len(),
{
    if ls.len() > 0 {
        lemma_status_tags(ls.drop_last());
        if let Ok(m) = status_of_lines(ls) {
            let p = status_of_lines(ls.drop_last())->Ok_0;
            let line = ls.last();
            if line.len() > 0 {
                let s0 = line_entry(line, 0);
                let s1 = line_entry(line, 1);
                assert(s0 matches Some(e) ==> e.0 != StatusTag::Unmodified);
                assert(s1 matches Some(e) ==> e.0 != StatusTag::Unmodified);
            }
            assert forall|k: int| 0 <= k < m.entries().len() implies (
            #[trigger] m.entries()[k]).0 != StatusTag::Unmodified by {
                let a = m.staged.len();
                let b = m.unstaged.len();
                if k < a {
                    assert(m.entries()[k] == m.staged[k]);
                    if k < p.staged.len() {
                        assert(p.entries()[k] == p.staged[k]);
                    }
                } else if k < a + b {
                    assert(m.entries()[k] == m.unstaged[k - a]);
                    if k - a < p.unstaged.len() {
                        assert(p.entries()[p.staged.len() + (k - a)] == p.unstaged[k - a]);
                    }
                } else {
                    assert(m.entries()[k] == m.untracked[k - a - b]);
                    if k - a - b < p.untracked.len() {
                        assert(p.entries()[p.staged.len() + p.unstaged.len() + (k - a - b)]
                            == p.untracked[k - a - b]);
                    }
                }
            }
        }
    }
}

/// Some line of `ls` marks the checked-out branch.
pub open spec fn has_current_line(ls: Seq<Seq<char>>) -> bool {
    exists|i: int| 0 <= i < ls.len() && is_current_line(#[trigger] ls[i])
}

/// Line `i` is the last line of `ls` that marks the checked-out branch.
pub open spec fn last_current_line(ls: Seq<Seq<char>>, i: int) -> bool {
    &&& 0 <= i < ls.len()
    &&& is_current_line(ls[i])
    &&& forall|j: int| i < j < ls.len() ==> !is_current_line(#[trigger] ls[j])
}

/// The branch list read from `git branch -v` has a commit for each branch;
/// where a line is marked `*`, the current branch is the name on the last such
/// line and its commit is that line's commit; where none is, it is 0.
pub proof fn lemma_branch_consistent(ls: Seq<Seq<char>>)
    requires
        ls.len() <= usize::MAX,
    ensures
        branch_of_lines(ls).branches.len() == branch_of_lines(ls).commits.len(),
        branch_of_lines(ls).branches.len() <= ls.len(),
        !has_current_line(ls) ==> branch_of_lines(ls).current == 0,
        has_current_line(ls) ==> exists|i: int|
            {
                &&& #[trigger] last_current_line(ls, i)
                &&& branch_of_lines(ls).current < branch_of_lines(ls).branches.len()
                &&& branch_of_lines(ls).branches[branch_of_lines(ls).current as int]
                    == branch_name(ls[i])
                &&& branch_of_lines(ls).commits[branch_of_lines(ls).current as int]
                    == branch_commit(ls[i])
            },
    decreases ls.len(),
{
    if ls.len() > 0 {
        let u = ls.drop_last();
        let l = ls.last();
        let p = branch_of_lines(u);
        let b = branch_of_lines(ls);
        lemma_branch_consistent(u);
        assert(forall|k: int| 0 <= k < u.len() ==> u[k] == ls[k]);
        if is_current_line(l) {
            let i = ls.len() - 1;
            assert(ls[i] == l);
            assert(b.branches[b.current as int] == branch_name(l));
            assert(last_current_line(ls, i));
        } else {
            assert(!is_current_line(ls[ls.len() - 1]));
            if has_current_line(ls) {
                let k = choose|k: int| 0 <= k < ls.len() && is_current_line(#[trigger] ls[k]);
                assert(k < u.len());
                assert(is_current_line(u[k]));
                assert(has_current_line(u));
                let i = choose|i: int|
                    {
                        &&& #[trigger] last_current_line(u, i)
                        &&& p.current < p.branches.len()
                        &&& p.branches[p.current as int] == branch_name(u[i])
                        &&& p.commits[p.current as int] == branch_commit(u[i])
                    };
                assert(ls[i] == u[i]);
                assert forall|j: int| i < j < ls.len() implies !is_current_line(#[trigger] ls[j]) by {
                    if j < u.len() {
                        assert(ls[j] == u[j]);
                        assert(!is_current_line(u[j]));
                    }
                }
                assert(last_current_line(ls, i));
                assert(b.branches[b.current as int] == p.branches[p.current as int]);
                assert(b.commits[b.current as int] == p.commits[p.current as int]);
            } else {
                assert forall|k: int| 0 <= k < u.len() implies !is_current_line(#[trigger] u[k]) by {
                    assert(u[k] == ls[k]);
                }
            }
        }
    }
}

/// Paths are ordered by the code points of the first characters where they
/// differ: with a common beginning of length `i` and different characters at
/// `i`, `a` comes first exactly when its character there is the smaller one.
pub proof fn lemma_path_order_first_difference(a: Seq<char>, b: Seq<char>, i: int)
    requires
        0 <= i < a.len(),
        i < b.len(),
        a.take(i) == b.take(i),
        a[i] != b[i],
    ensures
        path_le(a, b) <==> a[i] < b[i],
    decreases i,
{
    if i > 0 {
        assert(a[0] == a.take(i)[0] && b[0] == b.take(i)[0]);
        assert(a.drop_first().take(i - 1) =~= a.take(i).drop_first());
        assert(b.drop_first().take(i - 1) =~= b.take(i).drop_first());
        lemma_path_order_first_difference(a.drop_first(), b.drop_first(), i - 1);
    }
}

/// A path comes before every path that begins with it.
pub proof fn lemma_path_order_prefix(a: Seq<char>, b: Seq<char>)
    requires
        a.len() <= b.len(),
        b.take(a.len() as int) == a,
    ensures
        path_le(a, b),
    decreases a.len(),
{
    if a.len() > 0 {
        assert(a[0] == b.take(a.len() as int)[0]);
        assert(b.drop_first().take(a.len() - 1) =~= b.take(a.len() as int).drop_first());
        lemma_path_order_prefix(a.drop_first(), b.drop_first());
    }
}

/// The letter that `git status --porcelain` writes for a state.
pub open spec fn tag_letter(t: StatusTag) -> char {
    match t {
        StatusTag::Unmodified => ' ',
        StatusTag::Modified => 'M',
        StatusTag::FileTypeChanged => 'T',
        StatusTag::Added => 'A',
        StatusTag::Deleted => 'D',
        StatusTag::Renamed => 'R',
        StatusTag::Copied => 'C',
        StatusTag::UpdatedUnmerged => 'U',
        StatusTag::Untracked => '?',
        StatusTag::Ignored => '!',
    }
}

/// A tag character stands for a state exactly when it is that state's letter.
pub proof fn lemma_tag_letters(c: char, t: StatusTag)
    ensures
        StatusTag::from_char_spec(tag_letter(t)) == Some(t),
        StatusTag::from_char_spec(c) == Some(t) <==> c == tag_letter(t),
{
}

/// In a status line of two one-byte tag characters, tag `k` (0: staged,
/// 1: unstaged) gives an entry exactly when it is the letter of a state other
/// than unmodified, and then that state with the trimmed rest of the line.
pub proof fn lemma_line_entry_tags(line: Seq<char>, k: int, t: StatusTag)
    requires
        line.len() >= 2,
        (line[0] as u32) < 0x80,
        (line[1] as u32) < 0x80,
        0 <= k < 2,
        line[k] == tag_letter(t),
    ensures
        splits_after_two_bytes(line),
        t != StatusTag::Unmodified ==> line_entry(line, k) == Some((t, trim(line.skip(2)))),
        t == StatusTag::Unmodified ==> line_entry(line, k) is None,
{
    lemma_tag_letters(line[k], t);
}

/// A line with a blank staged column and a state letter in the unstaged column
/// adds one unstaged entry, that state with the trimmed rest of the line, and
/// nothing else; with a state letter in the staged column and a blank unstaged
/// one it adds one staged entry.
pub proof fn lemma_status_line_one_column(m: StatusView, line: Seq<char>, t: StatusTag)
    requires
        line.len() >= 2,
        t != StatusTag::Unmodified,
        (line[0] == ' ' && line[1] == tag_letter(t)) || (line[0] == tag_letter(t) && line[1]
            == ' '),
    ensures
        line[0] == ' ' ==> add_status_line(m, line) == Ok::<StatusView, Seq<char>>(
            StatusView { unstaged: m.unstaged.push((t, trim(line.skip(2)))), ..m },
        ),
        line[1] == ' ' ==> add_status_line(m, line) == Ok::<StatusView, Seq<char>>(
            StatusView { staged: m.staged.push((t, trim(line.skip(2)))), ..m },
        ),
{
    assert(tag_letter(t) != ' ');
    assert((tag_letter(t) as u32) < 0x80);
    lemma_line_entry_tags(line, 0, if line[0] == ' ' { StatusTag::Unmodified } else { t });
    lemma_line_entry_tags(line, 1, if line[1] == ' ' { StatusTag::Unmodified } else { t });
}

/// A line with state letters in both columns adds the staged and the unstaged
/// entry, each with the trimmed rest of the line as path, or, where the staged
/// letter is untracked, one untracked entry; a line whose columns hold no state
/// letter other than blank is refused, naming the line.
pub proof fn lemma_status_line_two_columns(m: StatusView, line: Seq<char>)
    requires
        line.len() >= 2,
        (line[0] as u32) < 0x80,
        (line[1] as u32) < 0x80,
    ensures
        forall|t0: StatusTag, t1: StatusTag|
            line[0] == #[trigger] tag_letter(t0) && line[1] == #[trigger] tag_letter(t1) && t0
                != StatusTag::Unmodified && t1 != StatusTag::Unmodified ==> add_status_line(m, line)
                == (if t0 != StatusTag::Untracked {
                Ok::<StatusView, Seq<char>>(
                    StatusView {
                        staged: m.staged.push((t0, trim(line.skip(2)))),
                        unstaged: m.unstaged.push((t1, trim(line.skip(2)))),
                        ..m
                    },
                )
            } else {
                Ok(StatusView { untracked: m.untracked.push((t0, trim(line.skip(2)))), ..m })
            }),
        (forall|t: StatusTag| #![trigger tag_letter(t)] t != StatusTag::Unmodified ==> line[0]
            != tag_letter(t) && line[1] != tag_letter(t)) ==> add_status_line(m, line) == Err::<
            StatusView,
            Seq<char>,
        >(line),
{
    assert forall|t0: StatusTag, t1: StatusTag|
        line[0] == #[trigger] tag_letter(t0) && line[1] == #[trigger] tag_letter(t1) && t0
            != StatusTag::Unmodified && t1 != StatusTag::Unmodified implies add_status_line(m, line)
            == (if t0 != StatusTag::Untracked {
            Ok::<StatusView, Seq<char>>(
                StatusView {
                    staged: m.staged.push((t0, trim(line.skip(2)))),
                    unstaged: m.unstaged.push((t1, trim(line.skip(2)))),
                    ..m
                },
            )
        } else {
            Ok(StatusView { untracked: m.untracked.push((t0, trim(line.skip(2)))), ..m })
        }) by {
        lemma_line_entry_tags(line, 0, t0);
        lemma_line_entry_tags(line, 1, t1);
    }
    if forall|t: StatusTag| #![trigger tag_letter(t)] t != StatusTag::Unmodified ==> line[0]
        != tag_letter(t) && line[1] != tag_letter(t) {
        assert(splits_after_two_bytes(line));
        assert(tag_width(line) == 2);
        assert(tag_letter(StatusTag::Modified) == 'M');
        let a = StatusTag::from_char_spec(line[0]);
        let b = StatusTag::from_char_spec(line[1]);
        if let Some(t) = a {
            lemma_tag_letters(line[0], t);
        }
        if let Some(t) = b {
            lemma_tag_letters(line[1], t);
        }
        assert(line_entry(line, 0) is None);
        assert(line_entry(line, 1) is None);
    }
}

/// The number shown in the row of entry `i` is `[`, digits, `]`, and the digits
/// read back as `i`.
pub proof fn lemma_row_label_reads_back(e: (StatusTag, Seq<char>), i: usize)
    ensures
        ({
            let l = status_row(e, i as nat)[3].0;
            &&& l.len() >= 3
            &&& l[0] == '['
            &&& l[l.len() - 1] == ']'
            &&& parse_usize_spec(l.subrange(1, l.len() - 1)) == Some(i)
        }),
{
    lemma_parse_decimal(i);
    lemma_decimal(i as nat);
    let l = status_row(e, i as nat)[3].0;
    assert(l == seq!['['] + decimal(i as nat) + seq![']']);
    assert(l.subrange(1, l.len() - 1) =~= decimal(i as nat));
}

/// `s` without its leading spaces is `s` after a run of spaces, and does not
/// start with a space.
proof fn lemma_skip_spaces(s: Seq<char>)
    ensures
        exists|k: int|
            0 <= k <= s.len() && (forall|j: int| 0 <= j < k ==> s[j] == ' ') && #[trigger] s.skip(k)
                == skip_spaces(s),
        skip_spaces(s).len() == 0 || skip_spaces(s)[0] != ' ',
    decreases s.len(),
{
    if s.len() > 0 && s[0] == ' ' {
        lemma_skip_spaces(s.drop_first());
        let k = choose|k: int|
            0 <= k <= s.drop_first().len() && (forall|j: int|
                0 <= j < k ==> s.drop_first()[j] == ' ') && #[trigger] s.drop_first().skip(k)
                == skip_spaces(s.drop_first());
        assert(s.skip(k + 1) =~= s.drop_first().skip(k));
        assert forall|j: int| 0 <= j < k + 1 implies s[j] == ' ' by {
            if j > 0 {
                assert(s[j] == s.drop_first()[j - 1]);
            }
        }
    } else {
        assert(s.skip(0) =~= s);
    }
}

/// `k` spaces.
pub open spec fn spaces(k: nat) -> Seq<char> {
    Seq::new(k, |x: int| ' ')
}

/// A line of `git branch -v` is its two-character prefix, the branch name (with
/// no space in it), one or more spaces, and the commit (which does not start
/// with a space).
pub proof fn lemma_branch_line_parts(line: Seq<char>)
    requires
        branch_line_ok(line),
    ensures
        forall|j: int| 0 <= j < branch_name(line).len() ==> branch_name(line)[j] != ' ',
        branch_commit(line).len() == 0 || branch_commit(line)[0] != ' ',
        exists|k: nat|
            k >= 1 && line.skip(tag_width(line)) == branch_name(line) + #[trigger] spaces(k)
                + branch_commit(line),
{
    let rest = line.skip(tag_width(line));
    let j = find_char(rest, ' ') as int;
    lemma_find_char(rest, ' ');
    let tail = rest.skip(j);
    lemma_skip_spaces(tail);
    let k = choose|k: int|
        0 <= k <= tail.len() && (forall|q: int| 0 <= q < k ==> tail[q] == ' ') && #[trigger] tail.skip(
            k,
        ) == skip_spaces(tail);
    assert(tail[0] == rest[j]);
    if k == 0 {
        assert(tail.skip(0) =~= tail);
    }
    assert(k >= 1);
    assert(tail =~= spaces(k as nat) + tail.skip(k));
    assert(rest =~= rest.take(j) + tail);
    assert(rest =~= rest.take(j) + spaces(k as nat) + tail.skip(k));
    assert forall|q: int| 0 <= q < branch_name(line).len() implies branch_name(line)[q] != ' ' by {
        assert(branch_name(line)[q] == rest[q]);
    }
}

/// Row `k` of the branch rows is the six pieces from `6 * k` on.
proof fn lemma_branch_rows(m: BranchView, n: nat)
    ensures
        branch_rows(m, n).len() == 6 * n,
        forall|k: int|
            0 <= k < n ==> branch_rows(m, n).subrange(6 * k, 6 * k + 6) == #[trigger] branch_row(
                m,
                k as nat,
            ),
    decreases n,
{
    if n > 0 {
        lemma_branch_rows(m, (n - 1) as nat);
        let r = branch_rows(m, n);
        assert forall|k: int| 0 <= k < n implies r.subrange(6 * k, 6 * k + 6) == #[trigger] branch_row(
            m,
            k as nat,
        ) by {
            if k < n - 1 {
                assert(r.subrange(6 * k, 6 * k + 6) =~= branch_rows(m, (n - 1) as nat).subrange(
                    6 * k,
                    6 * k + 6,
                ));
            } else {
                assert(r.subrange(6 * k, 6 * k + 6) =~= branch_row(m, (n - 1) as nat));
            }
        }
    }
}

/// The branch listing has one row of six pieces for each branch that has a
/// commit, in order: row `i` is marked ` * ` and shows its name in magenta
/// exactly when `i` is the current branch, and is unmarked with a green name
/// otherwise; its number reads back as `i`.
pub proof fn lemma_branch_listing(m: BranchView)
    requires
        branch_count(m) <= usize::MAX,
    ensures
        branch_layout(m).len() == 6 * branch_count(m),
        forall|i: int|
            0 <= i < branch_count(m) ==> {
                &&& (#[trigger] branch_layout(m)[6 * i]).0 == (if i == m.current {
                    seq![' ', '*', ' ']
                } else {
                    seq![' ', ' ', ' ']
                })
                &&& branch_layout(m)[6 * i + 4] == (m.branches[i], Some(
                    if i == m.current {
                        Color::Magenta
                    } else {
                        Color::Green
                    },
                ))
                &&& parse_usize_spec(branch_layout(m)[6 * i + 2].0) == Some(i as usize)
            },
{
    lemma_branch_rows(m, branch_count(m));
    assert forall|i: int| 0 <= i < branch_count(m) implies {
        &&& (#[trigger] branch_layout(m)[6 * i]).0 == (if i == m.current {
            seq![' ', '*', ' ']
        } else {
            seq![' ', ' ', ' ']
        })
        &&& branch_layout(m)[6 * i + 4] == (m.branches[i], Some(
            if i == m.current {
                Color::Magenta
            } else {
                Color::Green
            },
        ))
        &&& parse_usize_spec(branch_layout(m)[6 * i + 2].0) == Some(i as usize)
    } by {
        let r = branch_row(m, i as nat);
        assert(branch_layout(m).subrange(6 * i, 6 * i + 6) == r);
        assert(branch_layout(m)[6 * i] == r[0]);
        assert(branch_layout(m)[6 * i + 2] == r[2]);
        assert(branch_layout(m)[6 * i + 4] == r[4]);
        lemma_parse_decimal(i as usize);
        assert((i as usize) as nat == i);
        assert(r[2].0 == decimal(i as nat));
        assert(r[0].0 == (if i == m.current {
            seq![' ', '*', ' ']
        } else {
            seq![' ', ' ', ' ']
        }));
        assert(r[4] == (m.branches[i], Some(
            if i == m.current {
                Color::Magenta
            } else {
                Color::Green
            },
        )));
    }
}

} // verus!
