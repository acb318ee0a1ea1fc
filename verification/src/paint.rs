//! Coloured terminal text: the colours this tool paints with, pieces of text
//! that carry a colour, and the rendering of such pieces with `colored`.

use vstd::prelude::*;
use crate::number::decimal;

verus! {

/// The terminal colours this tool paints with (a subset of `colored::Color`).
#[derive(PartialEq, Eq, Structural, Clone, Copy, Debug)]
pub enum Color {
    Red,
    Green,
    Yellow,
    Magenta,
    White,
    BrightBlue,
    BrightCyan,
    TrueColor { r: u8, g: u8, b: u8 },
}

/// The escape sequence that ends coloured text.
pub open spec fn reset_seq() -> Seq<char> {
    seq!['\u{1b}', '[', '0', 'm']
}

/// The foreground code that `colored` writes for a colour when the terminal
/// takes 24-bit colour.
pub open spec fn fg_code(c: Color) -> Seq<char> {
    match c {
        Color::Red => seq!['3', '1'],
        Color::Green => seq!['3', '2'],
        Color::Yellow => seq!['3', '3'],
        Color::Magenta => seq!['3', '5'],
        Color::White => seq!['3', '7'],
        Color::BrightBlue => seq!['9', '4'],
        Color::BrightCyan => seq!['9', '6'],
        Color::TrueColor { r, g, b } => seq!['3', '8', ';', '2', ';'] + decimal(r as nat) + seq![
            ';',
        ] + decimal(g as nat) + seq![';'] + decimal(b as nat),
    }
}

/// One of the sixteen basic foreground codes (`30`..`37`, `90`..`97`).
pub open spec fn basic_fg_code(code: Seq<char>) -> bool {
    &&& code.len() == 2
    &&& (code[0] == '3' || code[0] == '9')
    &&& '0' <= code[1] && code[1] <= '7'
}

/// `code` is a foreground code that `colored` may write for `c`: its own code,
/// or, for a 24-bit colour on a terminal without 24-bit colour, a basic one.
pub open spec fn fg_code_of(c: Color, code: Seq<char>) -> bool {
    ||| code == fg_code(c)
    ||| (c is TrueColor && basic_fg_code(code))
}

/// The escape sequence that starts text in a colour with foreground code `code`.
pub open spec fn color_escape(code: Seq<char>) -> Seq<char> {
    seq!['\u{1b}', '['] + code + seq!['m']
}

/// `s` with `style` written again after each reset escape in it, scanning from
/// the left, so that text after an inner reset keeps the colour.
pub open spec fn restyle_after_resets(s: Seq<char>, style: Seq<char>) -> Seq<char>
    decreases s.len(),
{
    if s.len() == 0 {
        s
    } else if s.len() >= 4 && s.take(4) == reset_seq() {
        reset_seq() + style + restyle_after_resets(s.skip(4), style)
    } else {
        seq![s[0]] + restyle_after_resets(s.drop_first(), style)
    }
}

/// `out` is what `text` may be written as, in colour `color` where it has one:
/// the text itself, or the text between a colour escape and the reset escape,
/// with the colour escape repeated after each reset escape inside the text.
pub open spec fn painted_as(text: Seq<char>, color: Option<Color>, out: Seq<char>) -> bool {
    match color {
        None => out == text,
        Some(c) => {
            ||| out == text
            ||| exists|code: Seq<char>|
                fg_code_of(c, code) && out == color_escape(code) + restyle_after_resets(
                    text,
                    color_escape(code),
                ) + reset_seq()
        },
    }
}

/// Writes `text` in `color` through `colored` (`Colorize::color`, then `Display`).
///
/// Whether the colour escapes are written at all depends on the environment
/// (`CLICOLOR`, `NO_COLOR`, `CLICOLOR_FORCE`, whether standard output is a
/// terminal), and for a 24-bit colour `COLORTERM` decides between its own code
/// and the nearest basic colour; the contract allows each of these outcomes.
/// Where `text` holds a reset escape itself, `colored` writes the colour escape
/// again after it. The contract takes the colour setting and `COLORTERM` to stay
/// the same during the call.
#[verifier::external_body]
fn paint(text: &str, color: Color) -> (res: String)
    ensures
        painted_as(text@, Some(color), res@),
{
    let c = match color {
        Color::Red => colored::Color::Red,
        Color::Green => colored::Color::Green,
        Color::Yellow => colored::Color::Yellow,
        Color::Magenta => colored::Color::Magenta,
        Color::White => colored::Color::White,
        Color::BrightBlue => colored::Color::BrightBlue,
        Color::BrightCyan => colored::Color::BrightCyan,
        Color::TrueColor { r, g, b } => colored::Color::TrueColor { r, g, b },
    };
    colored::Colorize::color(text, c).to_string()
}

/// A piece of output text, plain or in a colour.
pub struct Piece {
    pub text: String,
    pub color: Option<Color>,
}

impl View for Piece {
    type V = (Seq<char>, Option<Color>);

    open spec fn view(&self) -> (Seq<char>, Option<Color>) {
        (self.text@, self.color)
    }
}

/// The views of a sequence of pieces.
pub open spec fn piece_views(pieces: Seq<Piece>) -> Seq<(Seq<char>, Option<Color>)> {
    pieces.map_values(|p: Piece| p@)
}

/// The concatenation of `parts`, in order.
pub open spec fn concat(parts: Seq<Seq<char>>) -> Seq<char>
    decreases parts.len(),
{
    if parts.len() == 0 {
        Seq::empty()
    } else {
        concat(parts.drop_last()) + parts.last()
    }
}

/// `out` is the pieces written one after the other, each as `painted_as` allows.
pub open spec fn renders(pieces: Seq<(Seq<char>, Option<Color>)>, out: Seq<char>) -> bool {
    exists|parts: Seq<Seq<char>>|
        {
            &&& parts.len() == pieces.len()
            &&& forall|k: int|
                0 <= k < parts.len() ==> painted_as(pieces[k].0, pieces[k].1, #[trigger] parts[k])
            &&& out == concat(parts)
        }
}

/// A plain piece.
pub fn plain(text: String) -> (res: Piece)
    ensures
        res@ == (text@, None::<Color>),
{
    Piece { text, color: None }
}

/// A coloured piece.
pub fn colored_piece(text: String, color: Color) -> (res: Piece)
    ensures
        res@ == (text@, Some(color)),
{
    Piece { text, color: Some(color) }
}

/// Writes the pieces one after the other, the coloured ones through `colored`.
pub fn render(pieces: &Vec<Piece>) -> (res: String)
    ensures
        renders(piece_views(pieces@), res@),
{
    let mut out = String::new();
    let ghost mut parts: Seq<Seq<char>> = Seq::empty();
    let mut i: usize = 0;
    while i < pieces.len()
        invariant
            i <= pieces@.len(),
            parts.len() == i,
            forall|k: int|
                0 <= k < i ==> painted_as(
                    piece_views(pieces@)[k].0,
                    piece_views(pieces@)[k].1,
                    #[trigger] parts[k],
                ),
            out@ == concat(parts),
        decreases pieces@.len() - i,
    {
        let piece = &pieces[i];
        let part = match piece.color {
            None => piece.text.clone(),
            Some(c) => paint(piece.text.as_str(), c),
        };
        let ghost old_parts = parts;
        out.append(part.as_str());
        proof {
            parts = parts.push(part@);
            assert(parts.drop_last() =~= old_parts);
            assert(forall|k: int| 0 <= k < i ==> parts[k] == old_parts[k]);
        }
        i += 1;
    }
    assert(piece_views(pieces@).len() == parts.len());
    out
}

} // verus!
