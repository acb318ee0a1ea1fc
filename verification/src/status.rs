//! The output of `git status --porcelain`, parsed into a `Status`.
//!
//! Each line of that output starts with two tag characters, `XY`: `X` tells
//! the state of the index (staged), `Y` the state of the work tree (unstaged).
//! A line whose tags are both `?` is an untracked file.

use vstd::prelude::*;
use crate::paint::Color;
use crate::sort::{sort_by_path, sort_entries};
use crate::order::{path_le, string_le, lemma_path_le_antisymmetric, lemma_path_le_reflexive, lemma_path_le_total, lemma_path_le_transitive};
use core::cmp::Ordering;
use vstd::std_specs::cmp::{PartialEqSpec, PartialOrdSpec};
use crate::text::{chars_of, char_views, lines, lines_of, string_of, trim, trimmed_from};

verus! {

/// The state a `git status` tag character stands for.
#[derive(PartialEq, Eq, Structural, PartialOrd, Ord, Clone, Copy, Debug)]
pub enum StatusTag {
    Unmodified,
    Modified,
    FileTypeChanged,
    Added,
    Deleted,
    Renamed,
    Copied,
    UpdatedUnmerged,
    Untracked,
    Ignored,
}

impl StatusTag {
    /// The tag that a `git status` tag character stands for.
    pub open spec fn from_char_spec(tag: char) -> Option<StatusTag> {
        if tag == ' ' {
            Some(StatusTag::Unmodified)
        } else if tag == 'M' {
            Some(StatusTag::Modified)
        } else if tag == 'T' {
            Some(StatusTag::FileTypeChanged)
        } else if tag == 'A' {
            Some(StatusTag::Added)
        } else if tag == 'D' {
            Some(StatusTag::Deleted)
        } else if tag == 'R' {
            Some(StatusTag::Renamed)
        } else if tag == 'C' {
            Some(StatusTag::Copied)
        } else if tag == 'U' {
            Some(StatusTag::UpdatedUnmerged)
        } else if tag == '?' {
            Some(StatusTag::Untracked)
        } else if tag == '!' {
            Some(StatusTag::Ignored)
        } else {
            None
        }
    }

    /// The colour an entry with this tag is shown in.
    pub open spec fn color_spec(self) -> Color {
        match self {
            StatusTag::Unmodified => Color::White,
            StatusTag::Modified => Color::Green,
            StatusTag::FileTypeChanged => Color::Yellow,
            StatusTag::Added => Color::Yellow,
            StatusTag::Deleted => Color::Red,
            StatusTag::Renamed => Color::BrightBlue,
            StatusTag::Copied => Color::BrightBlue,
            StatusTag::UpdatedUnmerged => Color::BrightBlue,
            StatusTag::Untracked => Color::BrightCyan,
            StatusTag::Ignored => Color::BrightCyan,
        }
    }

    /// The one-character symbol an entry with this tag is shown with.
    pub open spec fn symbol(self) -> char {
        match self {
            StatusTag::Unmodified => ' ',
            StatusTag::Modified => '~',
            StatusTag::FileTypeChanged => '~',
            StatusTag::Added => '+',
            StatusTag::Deleted => '-',
            StatusTag::Renamed => '~',
            StatusTag::Copied => '~',
            StatusTag::UpdatedUnmerged => '~',
            StatusTag::Untracked => '?',
            StatusTag::Ignored => '!',
        }
    }

    /// Parses an entry type from a `git status` tag character.
    pub fn from(tag: char) -> (res: Option<StatusTag>)
        ensures
            res == Self::from_char_spec(tag),
    {
        match tag {
            ' ' => Some(StatusTag::Unmodified),
            'M' => Some(StatusTag::Modified),
            'T' => Some(StatusTag::FileTypeChanged),
            'A' => Some(StatusTag::Added),
            'D' => Some(StatusTag::Deleted),
            'R' => Some(StatusTag::Renamed),
            'C' => Some(StatusTag::Copied),
            'U' => Some(StatusTag::UpdatedUnmerged),
            '?' => Some(StatusTag::Untracked),
            '!' => Some(StatusTag::Ignored),
            _ => None,
        }
    }

    /// The colour associated with the status.
    pub fn to_color(&self) -> (res: Color)
        ensures
            res == self.color_spec(),
    {
        match self {
            StatusTag::Unmodified => Color::White,
            StatusTag::Modified => Color::Green,
            StatusTag::FileTypeChanged => Color::Yellow,
            StatusTag::Added => Color::Yellow,
            StatusTag::Deleted => Color::Red,
            StatusTag::Renamed => Color::BrightBlue,
            StatusTag::Copied => Color::BrightBlue,
            StatusTag::UpdatedUnmerged => Color::BrightBlue,
            StatusTag::Untracked => Color::BrightCyan,
            StatusTag::Ignored => Color::BrightCyan,
        }
    }

    /// The symbol of the tag, as a string (what the tag displays as).
    pub fn to_string(&self) -> (res: String)
        ensures
            res@ == seq![self.symbol()],
    {
        let c = match self {
            StatusTag::Unmodified => ' ',
            StatusTag::Modified => '~',
            StatusTag::FileTypeChanged => '~',
            StatusTag::Added => '+',
            StatusTag::Deleted => '-',
            StatusTag::Renamed => '~',
            StatusTag::Copied => '~',
            StatusTag::UpdatedUnmerged => '~',
            StatusTag::Untracked => '?',
            StatusTag::Ignored => '!',
        };
        let mut v: Vec<char> = Vec::new();
        v.push(c);
        let s = crate::text::string_of(&v);
        assert(v@ =~= seq![c]);
        s
    }
}

/// An entry of `git status`: a path and the state it is in.
///
/// Two entries are equal when their paths are, whatever their tags.
pub struct StatusEntry {
    pub status: StatusTag,
    pub path: String,
}

/// What an entry stands for: its tag and the characters of its path.
pub type EntryView = (StatusTag, Seq<char>);

impl View for StatusEntry {
    type V = EntryView;

    open spec fn view(&self) -> EntryView {
        (self.status, self.path@)
    }
}

impl PartialEq for StatusEntry {
    fn eq(&self, other: &Self) -> (res: bool) {
        self.path == other.path
    }
}

impl vstd::std_specs::cmp::PartialEqSpecImpl for StatusEntry {
    open spec fn obeys_eq_spec() -> bool {
        true
    }

    open spec fn eq_spec(&self, other: &Self) -> bool {
        self.path@ == other.path@
    }
}

impl Eq for StatusEntry {

}

/// How two paths compare: lexicographically, character by character.
pub open spec fn path_order(a: Seq<char>, b: Seq<char>) -> Ordering {
    if path_le(a, b) && path_le(b, a) {
        Ordering::Equal
    } else if path_le(a, b) {
        Ordering::Less
    } else {
        Ordering::Greater
    }
}

/// Entries are ordered by their paths alone, whatever their tags.
impl PartialOrd for StatusEntry {
    fn partial_cmp(&self, other: &Self) -> (res: Option<Ordering>) {
        let le = string_le(&self.path, &other.path);
        let ge = string_le(&other.path, &self.path);
        if le && ge {
            Some(Ordering::Equal)
        } else if le {
            Some(Ordering::Less)
        } else {
            Some(Ordering::Greater)
        }
    }
}

impl vstd::std_specs::cmp::PartialOrdSpecImpl for StatusEntry {
    open spec fn obeys_partial_cmp_spec() -> bool {
        true
    }

    open spec fn partial_cmp_spec(&self, other: &Self) -> Option<Ordering> {
        Some(path_order(self.path@, other.path@))
    }
}

/// The order of entries is a total order on their paths that agrees with
/// their equality: two entries compare equal exactly when they are equal,
/// `a < b` exactly when `b > a`, and `<` and `>` are transitive.
pub proof fn lemma_entry_order()
    ensures
        vstd::laws_eq::obeys_eq::<StatusEntry>(),
        vstd::laws_cmp::obeys_partial_cmp_spec_properties::<StatusEntry>(),
        vstd::laws_cmp::obeys_cmp_partial_ord::<StatusEntry>(),
{
    reveal(vstd::laws_eq::obeys_eq_spec_properties);
    reveal(vstd::laws_cmp::obeys_partial_cmp_spec_properties);
    reveal(vstd::laws_cmp::obeys_cmp_partial_ord);
    assert forall|x: StatusEntry, y: StatusEntry|
        #[trigger] x.partial_cmp_spec(&y) == Some(Ordering::Equal) <==> x.eq_spec(&y) by {
        if path_le(x.path@, y.path@) && path_le(y.path@, x.path@) {
            lemma_path_le_antisymmetric(x.path@, y.path@);
        }
        if x.path@ == y.path@ {
            lemma_path_le_reflexive(x.path@);
        }
    }
    assert forall|x: StatusEntry, y: StatusEntry|
        #[trigger] x.partial_cmp_spec(&y) == Some(Ordering::Less) <==> y.partial_cmp_spec(&x)
            == Some(Ordering::Greater) by {
        lemma_path_le_total(x.path@, y.path@);
    }
    assert forall|x: StatusEntry, y: StatusEntry, z: StatusEntry|
        x.partial_cmp_spec(&y) == Some(Ordering::Less) && #[trigger] y.partial_cmp_spec(&z)
            == Some(Ordering::Less) implies #[trigger] x.partial_cmp_spec(&z) == Some(
        Ordering::Less,
    ) by {
        lemma_path_le_transitive(x.path@, y.path@, z.path@);
        if path_le(z.path@, x.path@) {
            lemma_path_le_transitive(y.path@, z.path@, x.path@);
        }
    }
    assert forall|x: StatusEntry, y: StatusEntry, z: StatusEntry|
        x.partial_cmp_spec(&y) == Some(Ordering::Greater) && #[trigger] y.partial_cmp_spec(&z)
            == Some(Ordering::Greater) implies #[trigger] x.partial_cmp_spec(&z) == Some(
        Ordering::Greater,
    ) by {
        lemma_path_le_total(x.path@, y.path@);
        lemma_path_le_total(y.path@, z.path@);
        lemma_path_le_transitive(z.path@, y.path@, x.path@);
        if path_le(x.path@, z.path@) {
            lemma_path_le_transitive(x.path@, z.path@, y.path@);
        }
    }
}

/// The views of a sequence of entries.
pub open spec fn entry_views(v: Seq<StatusEntry>) -> Seq<EntryView> {
    v.map_values(|e: StatusEntry| e@)
}

/// The view of an optional entry.
pub open spec fn entry_opt_view(o: Option<StatusEntry>) -> Option<EntryView> {
    match o {
        Some(e) => Some(e@),
        None => None,
    }
}

/// What a `Status` stands for: its three lists of entries.
pub struct StatusView {
    pub staged: Seq<EntryView>,
    pub unstaged: Seq<EntryView>,
    pub untracked: Seq<EntryView>,
}

impl StatusView {
    /// No entries at all.
    pub open spec fn empty() -> StatusView {
        StatusView { staged: Seq::empty(), unstaged: Seq::empty(), untracked: Seq::empty() }
    }

    /// All entries in the order that numbers them: staged, unstaged, untracked.
    pub open spec fn entries(self) -> Seq<EntryView> {
        self.staged + self.unstaged + self.untracked
    }
}

/// A data structure for `git status`'s output.
///
/// Holds three lists of `StatusEntry` structs: staged items, unstaged changes
/// and untracked files.
pub struct Status {
    pub staged: Vec<StatusEntry>,
    pub unstaged: Vec<StatusEntry>,
    pub untracked: Vec<StatusEntry>,
}

impl View for Status {
    type V = StatusView;

    open spec fn view(&self) -> StatusView {
        StatusView {
            staged: entry_views(self.staged@),
            unstaged: entry_views(self.unstaged@),
            untracked: entry_views(self.untracked@),
        }
    }
}

impl Default for Status {
    fn default() -> (res: Self)
        ensures
            res@ == StatusView::empty(),
    {
        let res = Status { staged: Vec::new(), unstaged: Vec::new(), untracked: Vec::new() };
        assert(res@.staged =~= Seq::<EntryView>::empty());
        assert(res@.unstaged =~= Seq::<EntryView>::empty());
        assert(res@.untracked =~= Seq::<EntryView>::empty());
        res
    }
}

/// Helpers that treat the entries as a whole, numbered across the staged,
/// unstaged and untracked lists in that order.
impl Status {
    /// A status with no entries.
    pub fn new() -> (res: Self)
        ensures
            res@ == StatusView::empty(),
    {
        Status::default()
    }

    /// Retrieves the entry at a unique index, counted across staged, unstaged
    /// and untracked items in that order.
    pub fn get(&self, index: usize) -> (res: Option<&StatusEntry>)
        ensures
            res is None <==> index >= self@.entries().len(),
            res matches Some(e) ==> e@ == self@.entries()[index as int],
    {
        let a = self.staged.len();
        let b = self.unstaged.len();
        let c = self.untracked.len();
        if index < a {
            Some(&self.staged[index])
        } else if index - a < b {
            Some(&self.unstaged[index - a])
        } else if index - a - b < c {
            Some(&self.untracked[index - a - b])
        } else {
            None
        }
    }

    /// All entries, in the order that numbers them.
    pub fn iter(&self) -> (res: Vec<&StatusEntry>)
        ensures
            res@.map_values(|e: &StatusEntry| e@) == self@.entries(),
    {
        let mut res: Vec<&StatusEntry> = Vec::new();
        let mut i: usize = 0;
        while i < self.staged.len()
            invariant
                i <= self.staged@.len(),
                res@.map_values(|e: &StatusEntry| e@) == self@.staged.take(i as int),
            decreases self.staged@.len() - i,
        {
            let ghost old_res = res@;
            res.push(&self.staged[i]);
            assert(res@.map_values(|e: &StatusEntry| e@) =~= old_res.map_values(
                |e: &StatusEntry| e@,
            ).push(self@.staged[i as int]));
            assert(res@.map_values(|e: &StatusEntry| e@) =~= self@.staged.take(i + 1));
            i += 1;
        }
        assert(self@.staged.take(i as int) =~= self@.staged);
        let mut j: usize = 0;
        while j < self.unstaged.len()
            invariant
                j <= self.unstaged@.len(),
                res@.map_values(|e: &StatusEntry| e@) == self@.staged + self@.unstaged.take(
                    j as int,
                ),
            decreases self.unstaged@.len() - j,
        {
            let ghost old_res = res@;
            res.push(&self.unstaged[j]);
            assert(res@.map_values(|e: &StatusEntry| e@) =~= old_res.map_values(
                |e: &StatusEntry| e@,
            ).push(self@.unstaged[j as int]));
            assert(res@.map_values(|e: &StatusEntry| e@) =~= self@.staged + self@.unstaged.take(
                j + 1,
            ));
            j += 1;
        }
        assert(self@.unstaged.take(j as int) =~= self@.unstaged);
        let mut k: usize = 0;
        while k < self.untracked.len()
            invariant
                k <= self.untracked@.len(),
                res@.map_values(|e: &StatusEntry| e@) == self@.staged + self@.unstaged
                    + self@.untracked.take(k as int),
            decreases self.untracked@.len() - k,
        {
            let ghost old_res = res@;
            res.push(&self.untracked[k]);
            assert(res@.map_values(|e: &StatusEntry| e@) =~= old_res.map_values(
                |e: &StatusEntry| e@,
            ).push(self@.untracked[k as int]));
            assert(res@.map_values(|e: &StatusEntry| e@) =~= self@.staged + self@.unstaged
                + self@.untracked.take(k + 1));
            k += 1;
        }
        assert(self@.untracked.take(k as int) =~= self@.untracked);
        res
    }
}

/// The number of bytes that `c` takes in UTF-8.
pub open spec fn utf8_len(c: char) -> nat {
    if (c as u32) < 0x80 {
        1
    } else if (c as u32) < 0x800 {
        2
    } else if (c as u32) < 0x10000 {
        3
    } else {
        4
    }
}

/// The first two bytes of `line` end at a character boundary: `str::split_at(2)`
/// does not panic on it.
pub open spec fn splits_after_two_bytes(line: Seq<char>) -> bool {
    ||| (line.len() >= 1 && utf8_len(line[0]) == 2)
    ||| (line.len() >= 2 && utf8_len(line[0]) == 1 && utf8_len(line[1]) == 1)
}

/// How many characters the first two bytes of `line` hold.
pub open spec fn tag_width(line: Seq<char>) -> int {
    if utf8_len(line[0]) == 2 {
        1
    } else {
        2
    }
}

/// The entry that tag character `k` (0: staged, 1: unstaged) of a status line
/// gives: a known tag other than `Unmodified`, with the trimmed rest of the line
/// as its path.
pub open spec fn line_entry(line: Seq<char>, k: int) -> Option<EntryView> {
    let w = tag_width(line);
    if k < w {
        match StatusTag::from_char_spec(line[k]) {
            Some(t) => if t != StatusTag::Unmodified {
                Some((t, trim(line.skip(w))))
            } else {
                None
            },
            None => None,
        }
    } else {
        None
    }
}

/// The status after one more line of output: its staged and unstaged entries
/// go to their lists, except that a line giving both entries with an untracked
/// staged tag goes to the untracked list once; a line that gives no entry, or
/// whose tag columns are cut short, is an error that names it.
pub open spec fn add_status_line(m: StatusView, line: Seq<char>) -> Result<StatusView, Seq<char>> {
    if line.len() == 0 {
        Ok(m)
    } else if !splits_after_two_bytes(line) {
        Err(line)
    } else {
        match (line_entry(line, 0), line_entry(line, 1)) {
            (Some(s), None) => Ok(StatusView { staged: m.staged.push(s), ..m }),
            (None, Some(u)) => Ok(StatusView { unstaged: m.unstaged.push(u), ..m }),
            (Some(s), Some(u)) => if s.0 != StatusTag::Untracked {
                Ok(StatusView { staged: m.staged.push(s), unstaged: m.unstaged.push(u), ..m })
            } else {
                Ok(StatusView { untracked: m.untracked.push(s), ..m })
            },
            (None, None) => Err(line),
        }
    }
}

/// The status that the lines give, or the first line that is malformed.
pub open spec fn status_of_lines(ls: Seq<Seq<char>>) -> Result<StatusView, Seq<char>>
    decreases ls.len(),
{
    if ls.len() == 0 {
        Ok(StatusView::empty())
    } else {
        match status_of_lines(ls.drop_last()) {
            Ok(m) => add_status_line(m, ls.last()),
            Err(line) => Err(line),
        }
    }
}

/// Once a line is malformed, so is the whole output.
pub proof fn lemma_status_error_persists(ls: Seq<Seq<char>>, j: int)
    requires
        0 <= j <= ls.len(),
        status_of_lines(ls.take(j)) is Err,
    ensures
        status_of_lines(ls) == status_of_lines(ls.take(j)),
    decreases ls.len() - j,
{
    if j < ls.len() {
        assert(ls.take(j + 1).drop_last() =~= ls.take(j));
        lemma_status_error_persists(ls, j + 1);
    } else {
        assert(ls.take(j) =~= ls);
    }
}

/// Why the output of `git status` could not be read.
pub enum StatusError {
    /// A line that gives no entry.
    MalformedLine(String),
}

impl StatusError {
    /// The text that tells the user what went wrong.
    pub open spec fn message_spec(self) -> Seq<char> {
        match self {
            StatusError::MalformedLine(line) => "Encountered malformed status line: "@ + line@,
        }
    }

    /// The text that tells the user what went wrong.
    pub fn message(&self) -> (res: String)
        ensures
            res@ == self.message_spec(),
    {
        match self {
            StatusError::MalformedLine(line) => {
                let mut s = "Encountered malformed status line: ".to_owned();
                s.append(line.as_str());
                s
            },
        }
    }
}

/// The two entries of a status line given as characters.
fn line_entries(line: &Vec<char>) -> (res: (Option<StatusEntry>, Option<StatusEntry>))
    requires
        splits_after_two_bytes(line@),
    ensures
        entry_opt_view(res.0) == line_entry(line@, 0),
        entry_opt_view(res.1) == line_entry(line@, 1),
{
    let first = line[0];
    let w: usize = if (first as u32) >= 0x80 {
        1
    } else {
        2
    };
    assert(w == tag_width(line@));
    let staged = match StatusTag::from(first) {
        Some(t) => if t != StatusTag::Unmodified {
            Some(StatusEntry { status: t, path: trimmed_from(line, w) })
        } else {
            None
        },
        None => None,
    };
    let unstaged = if w == 2 {
        match StatusTag::from(line[1]) {
            Some(t) => if t != StatusTag::Unmodified {
                Some(StatusEntry { status: t, path: trimmed_from(line, w) })
            } else {
                None
            },
            None => None,
        }
    } else {
        None
    };
    (staged, unstaged)
}

/// Parses a text as a `git status` line.
///
/// Returns the staged entry and the unstaged entry that the line gives.
pub fn parse_status_line(line: &str) -> (res: (Option<StatusEntry>, Option<StatusEntry>))
    requires
        splits_after_two_bytes(line@),
    ensures
        entry_opt_view(res.0) == line_entry(line@, 0),
        entry_opt_view(res.1) == line_entry(line@, 1),
{
    let cs = chars_of(line);
    line_entries(&cs)
}

/// Parses the output of `git status --porcelain` into a `Status`.
pub fn parse_status(output: &str) -> (res: Result<Status, StatusError>)
    ensures
        match status_of_lines(lines(output@)) {
            Ok(m) => res matches Ok(s) && s@ == m,
            Err(line) => res matches Err(StatusError::MalformedLine(l)) && l@ == line,
        },
{
    let all = lines_of(output);
    let ghost ls = lines(output@);
    let mut result = Status::new();
    let mut i: usize = 0;
    assert(ls.take(0) =~= Seq::<Seq<char>>::empty());
    while i < all.len()
        invariant
            i <= all@.len(),
            char_views(all@) == ls,
            ls == lines(output@),
            status_of_lines(ls.take(i as int)) == Ok::<StatusView, Seq<char>>(result@),
        decreases all@.len() - i,
    {
        let line = &all[i];
        assert(ls[i as int] == line@);
        assert(ls.take(i + 1).drop_last() =~= ls.take(i as int));
        assert(ls.take(i + 1).last() == line@);
        if line.len() > 0 && !line_splittable(line) {
            proof {
                lemma_status_error_persists(ls, i as int + 1);
            }
            return Err(StatusError::MalformedLine(string_of(line)));
        }
        if line.len() > 0 {
            let (staged, unstaged) = line_entries(line);
            let ghost m = result@;
            match staged {
                Some(s) => match unstaged {
                    None => {
                        result.staged.push(s);
                        assert(result@.staged =~= m.staged.push(s@));
                    },
                    Some(u) => {
                        if s.status != StatusTag::Untracked {
                            result.staged.push(s);
                            result.unstaged.push(u);
                            assert(result@.staged =~= m.staged.push(s@));
                            assert(result@.unstaged =~= m.unstaged.push(u@));
                        } else {
                            result.untracked.push(s);
                            assert(result@.untracked =~= m.untracked.push(s@));
                        }
                    },
                },
                None => match unstaged {
                    Some(u) => {
                        result.unstaged.push(u);
                        assert(result@.unstaged =~= m.unstaged.push(u@));
                    },
                    None => {
                        proof {
                            lemma_status_error_persists(ls, i as int + 1);
                        }
                        return Err(StatusError::MalformedLine(string_of(line)));
                    },
                },
            }
        }
        i += 1;
    }
    assert(ls.take(all@.len() as int) =~= ls);
    Ok(result)
}

/// The status that `git status --porcelain` prints as `output`: its lines
/// parsed, then the staged and the unstaged entries sorted by path.
pub open spec fn status_from_output_spec(output: Seq<char>) -> Result<StatusView, Seq<char>> {
    match status_of_lines(lines(output)) {
        Ok(m) => Ok(
            StatusView {
                staged: sort_by_path(m.staged),
                unstaged: sort_by_path(m.unstaged),
                untracked: m.untracked,
            },
        ),
        Err(line) => Err(line),
    }
}

/// Reads the output of `git status --porcelain` into a `Status`: parses it,
/// then sorts the staged and the unstaged entries by path.
pub fn status_from_output(output: &str) -> (res: Result<Status, StatusError>)
    ensures
        match status_from_output_spec(output@) {
            Ok(m) => res matches Ok(s) && s@ == m,
            Err(line) => res matches Err(StatusError::MalformedLine(l)) && l@ == line,
        },
{
    match parse_status(output) {
        Ok(parsed) => {
            let Status { staged, unstaged, untracked } = parsed;
            let staged = sort_entries(staged);
            let unstaged = sort_entries(unstaged);
            Ok(Status { staged, unstaged, untracked })
        },
        Err(e) => Err(e),
    }
}

/// Whether the first two bytes of the line `cs` end at a character boundary.
pub fn line_splittable(cs: &Vec<char>) -> (res: bool)
    ensures
        res == splits_after_two_bytes(cs@),
{
    if cs.len() == 0 {
        return false;
    }
    let c0 = cs[0] as u32;
    if c0 >= 0x80 {
        c0 < 0x800
    } else {
        cs.len() >= 2 && (cs[1] as u32) < 0x80
    }
}

} // verus!
