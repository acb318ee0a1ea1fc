//! How a `Status` and a `Branch` are shown: numbered, coloured rows.
//!
//! The layout of each is a sequence of pieces of text, plain or coloured,
//! stated exactly; the text shown is those pieces rendered one after the
//! other.

use vstd::prelude::*;
use crate::branch::{Branch, BranchView};
use crate::number::{decimal, decimal_chars};
use crate::paint::{Color, Piece, colored_piece, piece_views, plain, render, renders};
use crate::status::{EntryView, Status, StatusEntry, StatusView, entry_views};
use crate::text::string_of;

verus! {

/// A piece of output as plain values: its text and its colour, if any.
pub type PieceView = (Seq<char>, Option<Color>);

/// The colour of the number of row `i`: rows alternate white and grey.
pub open spec fn row_color(i: nat) -> Color {
    if i % 2 == 0 {
        Color::White
    } else {
        Color::TrueColor { r: 140, g: 140, b: 140 }
    }
}

/// The number of entry `i` as shown: `[i]`.
pub open spec fn label(i: nat) -> Seq<char> {
    seq!['['] + decimal(i) + seq![']']
}

/// The row of entry `e` numbered `i`: ` S   [i] path`, the symbol and the path
/// in the colour of the tag, the number in the colour of the row.
pub open spec fn status_row(e: EntryView, i: nat) -> Seq<PieceView> {
    let c = e.0.color_spec();
    seq![
        (seq![' '], None),
        (seq![e.0.symbol()], Some(c)),
        (seq![' ', ' ', ' '], None),
        (label(i), Some(row_color(i))),
        (seq![' '], None),
        (e.1, Some(c)),
        (seq!['\n'], None),
    ]
}

/// The rows of `es`, numbered from `start` on.
pub open spec fn status_rows(es: Seq<EntryView>, start: nat) -> Seq<PieceView>
    decreases es.len(),
{
    if es.len() == 0 {
        Seq::empty()
    } else {
        status_rows(es.drop_last(), start) + status_row(es.last(), (start + es.len() - 1) as nat)
    }
}

/// A list of entries under its header, numbered from `start` on; nothing at
/// all for an empty list.
pub open spec fn status_section(header: Seq<char>, es: Seq<EntryView>, start: nat) -> Seq<
    PieceView,
> {
    if es.len() == 0 {
        Seq::empty()
    } else {
        seq![(header, None::<Color>)] + status_rows(es, start)
    }
}

/// The header of the staged entries.
pub open spec fn staged_header() -> Seq<char> {
    "\n--- Staged Items ---\n\n"@
}

/// The header of the unstaged entries.
pub open spec fn unstaged_header() -> Seq<char> {
    "\n--- Unstaged Items ---\n\n"@
}

/// The header of the untracked entries.
pub open spec fn untracked_header() -> Seq<char> {
    "\n--- Untracked Items ---\n\n"@
}

/// How a status is shown: the staged, unstaged and untracked sections, the
/// entries numbered on across them, and a final empty line.
pub open spec fn status_layout(m: StatusView) -> Seq<PieceView> {
    status_section(staged_header(), m.staged, 0) + status_section(
        unstaged_header(),
        m.unstaged,
        m.staged.len(),
    ) + status_section(untracked_header(), m.untracked, m.staged.len() + m.unstaged.len())
        + seq![(seq!['\n'], None::<Color>)]
}

/// The row of branch `i`: a ` * ` prefix for the current branch, the number
/// in the colour of the row, and the name, magenta for the current branch and
/// green for the others.
pub open spec fn branch_row(m: BranchView, i: nat) -> Seq<PieceView> {
    let current = i == m.current;
    seq![
        (if current {
            seq![' ', '*', ' ']
        } else {
            seq![' ', ' ', ' ']
        }, None),
        (seq![' ', ' ', '['], None),
        (decimal(i), Some(row_color(i))),
        (seq![']', ' '], None),
        (m.branches[i as int], Some(
            if current {
                Color::Magenta
            } else {
                Color::Green
            },
        )),
        (seq!['\n'], None),
    ]
}

/// The first `n` rows of the branches.
pub open spec fn branch_rows(m: BranchView, n: nat) -> Seq<PieceView>
    decreases n,
{
    if n == 0 {
        Seq::empty()
    } else {
        branch_rows(m, (n - 1) as nat) + branch_row(m, (n - 1) as nat)
    }
}

/// The number of branches shown: those that have a commit.
pub open spec fn branch_count(m: BranchView) -> nat {
    if m.branches.len() <= m.commits.len() {
        m.branches.len()
    } else {
        m.commits.len()
    }
}

/// How the branches are shown: one row for each branch that has a commit.
pub open spec fn branch_layout(m: BranchView) -> Seq<PieceView> {
    branch_rows(m, branch_count(m))
}

/// A string with the characters of a string slice.
fn text(s: &str) -> (res: String)
    ensures
        res@ == s@,
{
    s.to_owned()
}

/// A string of a single character.
fn char_string(c: char) -> (res: String)
    ensures
        res@ == seq![c],
{
    let mut v: Vec<char> = Vec::new();
    v.push(c);
    assert(v@ =~= seq![c]);
    string_of(&v)
}

/// The colour of the number of row `i`.
fn row_color_of(i: usize) -> (res: Color)
    ensures
        res == row_color(i as nat),
{
    if i % 2 == 0 {
        Color::White
    } else {
        Color::TrueColor { r: 140, g: 140, b: 140 }
    }
}

/// The number `i` as shown with an entry: `[i]`.
fn label_string(i: usize) -> (res: String)
    ensures
        res@ == label(i as nat),
{
    let digits = decimal_chars(i);
    let mut v: Vec<char> = Vec::new();
    v.push('[');
    let mut k: usize = 0;
    while k < digits.len()
        invariant
            k <= digits@.len(),
            v@ == seq!['['] + digits@.take(k as int),
        decreases digits@.len() - k,
    {
        v.push(digits[k]);
        assert(v@ =~= seq!['['] + digits@.take(k + 1));
        k += 1;
    }
    v.push(']');
    assert(v@ =~= label(i as nat));
    string_of(&v)
}

/// Appends the row of entry `e` numbered `i`.
fn push_status_row(out: &mut Vec<Piece>, e: &StatusEntry, i: usize)
    ensures
        piece_views(final(out)@) == piece_views(old(out)@) + status_row(e@, i as nat),
{
    let c = e.status.to_color();
    let ghost before = piece_views(out@);
    out.push(plain(char_string(' ')));
    out.push(colored_piece(e.status.to_string(), c));
    out.push(plain(text("   ")));
    out.push(colored_piece(label_string(i), row_color_of(i)));
    out.push(plain(char_string(' ')));
    out.push(colored_piece(e.path.clone(), c));
    out.push(plain(char_string('\n')));
    proof {
        reveal_strlit("   ");
        assert("   "@ =~= seq![' ', ' ', ' ']);
        assert(piece_views(out@) =~= before + status_row(e@, i as nat));
    }
}

/// Appends a list of entries under its header, numbered from `start` on.
fn push_status_section(out: &mut Vec<Piece>, header: &str, es: &Vec<StatusEntry>, start: usize)
    requires
        start + es@.len() <= usize::MAX,
    ensures
        piece_views(final(out)@) == piece_views(old(out)@) + status_section(
            header@,
            entry_views(es@),
            start as nat,
        ),
{
    if es.len() == 0 {
        assert(piece_views(out@) =~= piece_views(out@) + Seq::<PieceView>::empty());
        return;
    }
    let ghost before = piece_views(out@);
    out.push(plain(text(header)));
    assert(piece_views(out@) =~= before + seq![(header@, None::<Color>)]);
    let mut k: usize = 0;
    assert(entry_views(es@).take(0) =~= Seq::<EntryView>::empty());
    while k < es.len()
        invariant
            k <= es@.len(),
            start + es@.len() <= usize::MAX,
            piece_views(out@) == before + seq![(header@, None::<Color>)] + status_rows(
                entry_views(es@).take(k as int),
                start as nat,
            ),
        decreases es@.len() - k,
    {
        let ghost mid = piece_views(out@);
        push_status_row(out, &es[k], start + k);
        proof {
            let t = entry_views(es@).take(k + 1);
            assert(t.drop_last() =~= entry_views(es@).take(k as int));
            assert(t.last() == es@[k as int]@);
            assert(status_rows(t, start as nat) == status_rows(t.drop_last(), start as nat)
                + status_row(t.last(), (start + k) as nat));
            assert(piece_views(out@) =~= before + seq![(header@, None::<Color>)] + status_rows(
                t,
                start as nat,
            ));
        }
        k += 1;
    }
    assert(entry_views(es@).take(k as int) =~= entry_views(es@));
    assert(piece_views(out@) =~= before + status_section(
        header@,
        entry_views(es@),
        start as nat,
    ));
}

impl Status {
    /// The pieces that the status is shown as.
    pub fn layout(&self) -> (res: Vec<Piece>)
        requires
            self@.entries().len() <= u32::MAX,
        ensures
            piece_views(res@) == status_layout(self@),
    {
        let mut out: Vec<Piece> = Vec::new();
        let a = self.staged.len();
        let b = self.unstaged.len();
        push_status_section(&mut out, "\n--- Staged Items ---\n\n", &self.staged, 0);
        push_status_section(&mut out, "\n--- Unstaged Items ---\n\n", &self.unstaged, a);
        push_status_section(&mut out, "\n--- Untracked Items ---\n\n", &self.untracked, a + b);
        let ghost before = piece_views(out@);
        out.push(plain(char_string('\n')));
        assert(piece_views(out@) =~= before + seq![(seq!['\n'], None::<Color>)]);
        assert(piece_views(Seq::<Piece>::empty()) =~= Seq::<PieceView>::empty());
        assert(piece_views(out@) =~= status_layout(self@));
        out
    }

    /// The contents of the status as shown to the user (what the status
    /// displays as).
    pub fn to_string(&self) -> (res: String)
        requires
            self@.entries().len() <= u32::MAX,
        ensures
            renders(status_layout(self@), res@),
    {
        let pieces = self.layout();
        render(&pieces)
    }
}

impl Branch {
    /// The pieces that the branches are shown as.
    pub fn layout(&self) -> (res: Vec<Piece>)
        ensures
            piece_views(res@) == branch_layout(self@),
    {
        let n = if self.branches.len() <= self.commits.len() {
            self.branches.len()
        } else {
            self.commits.len()
        };
        let mut out: Vec<Piece> = Vec::new();
        let mut i: usize = 0;
        assert(piece_views(out@) =~= Seq::<PieceView>::empty());
        while i < n
            invariant
                i <= n == branch_count(self@),
                n <= self.branches@.len(),
                piece_views(out@) == branch_rows(self@, i as nat),
            decreases n - i,
        {
            let current = i == self.current;
            let ghost before = piece_views(out@);
            let prefix = if current {
                text(" * ")
            } else {
                text("   ")
            };
            let color = if current {
                Color::Magenta
            } else {
                Color::Green
            };
            out.push(plain(prefix));
            out.push(plain(text("  [")));
            let digits = decimal_chars(i);
            out.push(colored_piece(string_of(&digits), row_color_of(i)));
            out.push(plain(text("] ")));
            out.push(colored_piece(self.branches[i].clone(), color));
            out.push(plain(char_string('\n')));
            proof {
                reveal_strlit(" * ");
                reveal_strlit("   ");
                reveal_strlit("  [");
                reveal_strlit("] ");
                assert(" * "@ =~= seq![' ', '*', ' ']);
                assert("   "@ =~= seq![' ', ' ', ' ']);
                assert("  ["@ =~= seq![' ', ' ', '[']);
                assert("] "@ =~= seq![']', ' ']);
                assert(self@.branches[i as int] == self.branches@[i as int]@);
                assert(piece_views(out@) =~= before + branch_row(self@, i as nat));
            }
            i += 1;
        }
        out
    }

    /// The branches as shown to the user (what the branches display as).
    pub fn to_string(&self) -> (res: String)
        ensures
            renders(branch_layout(self@), res@),
    {
        let pieces = self.layout();
        render(&pieces)
    }
}

} // verus!
