//! Character-level text handling: strings as sequences of `char`s,
//! whitespace trimming and splitting into lines.

use vstd::prelude::*;
use vstd::std_specs::iter::IteratorSpec;

verus! {

/// `char::is_whitespace`: the characters with the Unicode `White_Space` property.
pub open spec fn is_whitespace(c: char) -> bool {
    ||| ('\u{9}' <= c && c <= '\u{d}')
    ||| c == ' '
    ||| c == '\u{85}'
    ||| c == '\u{a0}'
    ||| c == '\u{1680}'
    ||| ('\u{2000}' <= c && c <= '\u{200a}')
    ||| c == '\u{2028}'
    ||| c == '\u{2029}'
    ||| c == '\u{202f}'
    ||| c == '\u{205f}'
    ||| c == '\u{3000}'
}

/// `s` with its leading whitespace removed.
pub open spec fn trim_start(s: Seq<char>) -> Seq<char>
    decreases s.len(),
{
    if s.len() > 0 && is_whitespace(s[0]) {
        trim_start(s.drop_first())
    } else {
        s
    }
}

/// `s` with its trailing whitespace removed.
pub open spec fn trim_end(s: Seq<char>) -> Seq<char>
    decreases s.len(),
{
    if s.len() > 0 && is_whitespace(s.last()) {
        trim_end(s.drop_last())
    } else {
        s
    }
}

/// `str::trim`: leading and trailing whitespace removed.
pub open spec fn trim(s: Seq<char>) -> Seq<char> {
    trim_end(trim_start(s))
}

/// The index of the first `c` in `s`, or the length of `s` where there is none.
pub open spec fn find_char(s: Seq<char>, c: char) -> nat
    decreases s.len(),
{
    if s.len() == 0 {
        0
    } else if s[0] == c {
        0
    } else {
        1 + find_char(s.drop_first(), c)
    }
}

/// `s` without one trailing carriage return.
pub open spec fn strip_cr(s: Seq<char>) -> Seq<char> {
    if s.len() > 0 && s.last() == '\r' {
        s.drop_last()
    } else {
        s
    }
}

/// `str::lines`: `s` split at each `\n`, a `\r` right before a `\n` dropped too,
/// and no empty last line for a text that ends in `\n`.
pub open spec fn lines(s: Seq<char>) -> Seq<Seq<char>>
    decreases s.len(),
{
    if s.len() == 0 {
        Seq::empty()
    } else {
        let i = find_char(s, '\n');
        if i >= s.len() {
            seq![s]
        } else {
            seq![strip_cr(s.take(i as int))] + lines(s.skip(i as int + 1))
        }
    }
}

pub proof fn lemma_find_char(s: Seq<char>, c: char)
    ensures
        find_char(s, c) <= s.len(),
        find_char(s, c) < s.len() ==> s[find_char(s, c) as int] == c,
        forall|j: int| 0 <= j < find_char(s, c) ==> s[j] != c,
    decreases s.len(),
{
    if s.len() > 0 && s[0] != c {
        lemma_find_char(s.drop_first(), c);
        assert forall|j: int| 0 <= j < find_char(s, c) implies s[j] != c by {
            if j > 0 {
                assert(s[j] == s.drop_first()[j - 1]);
            }
        }
    }
}

/// A prefix without `c` is skipped whole by `find_char`.
pub proof fn lemma_find_char_after(x: Seq<char>, rest: Seq<char>, c: char)
    requires
        forall|j: int| 0 <= j < x.len() ==> x[j] != c,
    ensures
        find_char(x + rest, c) == x.len() + find_char(rest, c),
    decreases x.len(),
{
    if x.len() > 0 {
        assert((x + rest).drop_first() =~= x.drop_first() + rest);
        assert((x + rest)[0] == x[0]);
        lemma_find_char_after(x.drop_first(), rest, c);
    } else {
        assert(x + rest =~= rest);
    }
}

/// Splitting at a newline: the text before it is the first line.
pub proof fn lemma_lines_newline(x: Seq<char>, y: Seq<char>)
    requires
        forall|j: int| 0 <= j < x.len() ==> x[j] != '\n',
    ensures
        lines(x + seq!['\n'] + y) == seq![strip_cr(x)] + lines(y),
{
    let s = x + seq!['\n'] + y;
    assert(s =~= x + (seq!['\n'] + y));
    lemma_find_char_after(x, seq!['\n'] + y, '\n');
    assert((seq!['\n'] + y)[0] == '\n');
    assert(find_char(seq!['\n'] + y, '\n') == 0);
    assert(s.take(x.len() as int) =~= x);
    assert(s.skip(x.len() as int + 1) =~= y);
}

/// A text without newline is a single line, or none when it is empty.
pub proof fn lemma_lines_no_newline(x: Seq<char>)
    requires
        forall|j: int| 0 <= j < x.len() ==> x[j] != '\n',
    ensures
        lines(x) == (if x.len() == 0 { Seq::<Seq<char>>::empty() } else { seq![x] }),
{
    lemma_find_char_after(x, Seq::empty(), '\n');
    assert(x + Seq::<char>::empty() =~= x);
}

/// The character sequences held by a vector of character vectors.
pub open spec fn char_views(v: Seq<Vec<char>>) -> Seq<Seq<char>> {
    v.map_values(|l: Vec<char>| l@)
}

/// `String::push`: appends one character.
#[verifier::external_body]
fn push_char(s: &mut String, c: char)
    ensures
        final(s)@ == old(s)@.push(c),
{
    s.push(c)
}

/// The characters of a string slice, in order.
pub fn chars_of(s: &str) -> (res: Vec<char>)
    ensures
        res@ == s@,
{
    let mut out: Vec<char> = Vec::new();
    let mut it = s.chars();
    loop
        invariant
            it.remaining() == s@.skip(out@.len() as int),
            out@ == s@.take(out@.len() as int),
            out@.len() <= s@.len(),
        ensures
            out@ == s@,
        decreases s@.len() - out@.len(),
    {
        match it.next() {
            Some(c) => {
                out.push(c);
            },
            None => {
                assert(s@.skip(out@.len() as int).len() == 0);
                assert(out@ =~= s@);
                break;
            },
        }
    }
    out
}

/// The string made of `cs[from..to]`.
pub fn string_of_range(cs: &Vec<char>, from: usize, to: usize) -> (res: String)
    requires
        from <= to <= cs@.len(),
    ensures
        res@ == cs@.subrange(from as int, to as int),
{
    let mut out = String::new();
    let mut i = from;
    while i < to
        invariant
            from <= i <= to <= cs@.len(),
            out@ == cs@.subrange(from as int, i as int),
        decreases to - i,
    {
        push_char(&mut out, cs[i]);
        assert(out@ =~= cs@.subrange(from as int, i + 1));
        i += 1;
    }
    out
}

/// The string made of all of `cs`.
pub fn string_of(cs: &Vec<char>) -> (res: String)
    ensures
        res@ == cs@,
{
    let res = string_of_range(cs, 0, cs.len());
    assert(cs@.subrange(0, cs@.len() as int) =~= cs@);
    res
}

/// `char::is_whitespace`.
pub fn char_is_whitespace(c: char) -> (res: bool)
    ensures
        res == is_whitespace(c),
{
    ('\u{9}' <= c && c <= '\u{d}') || c == ' ' || c == '\u{85}' || c == '\u{a0}'
        || c == '\u{1680}' || ('\u{2000}' <= c && c <= '\u{200a}') || c == '\u{2028}'
        || c == '\u{2029}' || c == '\u{202f}' || c == '\u{205f}' || c == '\u{3000}'
}

/// `cs[from..]` with leading and trailing whitespace removed, as a string.
pub fn trimmed_from(cs: &Vec<char>, from: usize) -> (res: String)
    requires
        from <= cs@.len(),
    ensures
        res@ == trim(cs@.skip(from as int)),
{
    let len = cs.len();
    let mut lo = from;
    while lo < len && char_is_whitespace(cs[lo])
        invariant
            from <= lo <= len == cs@.len(),
            trim_start(cs@.skip(from as int)) == trim_start(cs@.skip(lo as int)),
        decreases len - lo,
    {
        assert(cs@.skip(lo as int).drop_first() =~= cs@.skip(lo + 1));
        lo += 1;
    }
    assert(trim_start(cs@.skip(from as int)) == cs@.skip(lo as int));
    let mut hi = len;
    assert(cs@.skip(lo as int) =~= cs@.subrange(lo as int, hi as int));
    while hi > lo && char_is_whitespace(cs[hi - 1])
        invariant
            lo <= hi <= len == cs@.len(),
            trim(cs@.skip(from as int)) == trim_end(cs@.subrange(lo as int, hi as int)),
        decreases hi - lo,
    {
        assert(cs@.subrange(lo as int, hi as int).drop_last() =~= cs@.subrange(
            lo as int,
            hi - 1,
        ));
        hi -= 1;
    }
    string_of_range(cs, lo, hi)
}

/// `str::lines`, each line as its characters.
pub fn lines_of(s: &str) -> (res: Vec<Vec<char>>)
    ensures
        char_views(res@) == lines(s@),
{
    let cs = chars_of(s);
    let len = cs.len();
    let mut out: Vec<Vec<char>> = Vec::new();
    let mut cur: Vec<char> = Vec::new();
    let mut i: usize = 0;
    assert(cur@ + cs@.skip(0) =~= s@);
    while i < len
        invariant
            i <= len == cs@.len(),
            cs@ == s@,
            lines(s@) == char_views(out@) + lines(cur@ + cs@.skip(i as int)),
            forall|j: int| 0 <= j < cur@.len() ==> cur@[j] != '\n',
        decreases len - i,
    {
        let c = cs[i];
        if c == '\n' {
            proof {
                lemma_lines_newline(cur@, cs@.skip(i + 1));
                assert(cur@ + cs@.skip(i as int) =~= cur@ + seq!['\n'] + cs@.skip(i + 1));
            }
            let ghost before = char_views(out@);
            let mut line = cur;
            let n = line.len();
            if n > 0 && line[n - 1] == '\r' {
                line.pop();
            }
            assert(line@ == strip_cr(cur@));
            out.push(line);
            assert(char_views(out@) =~= before + seq![strip_cr(cur@)]);
            cur = Vec::new();
            assert(cur@ + cs@.skip(i + 1) =~= cs@.skip(i + 1));
        } else {
            let ghost old_cur = cur@;
            cur.push(c);
            assert(old_cur + cs@.skip(i as int) =~= cur@ + cs@.skip(i + 1));
        }
        i += 1;
    }
    proof {
        assert(cur@ + cs@.skip(len as int) =~= cur@);
        lemma_lines_no_newline(cur@);
    }
    if cur.len() > 0 {
        let ghost before = char_views(out@);
        out.push(cur);
        assert(char_views(out@) =~= before + seq![cur@]);
    } else {
        assert(char_views(out@) =~= char_views(out@) + Seq::<Seq<char>>::empty());
    }
    out
}

} // verus!
