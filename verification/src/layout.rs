//! Text set in columns, and texts gathered line by line.

use crate::text;
use crate::text::chars_of;
use vstd::prelude::*;
use vstd::string::*;

verus! {

/// `count` spaces.
pub open spec fn spaces(count: int) -> Seq<char> {
    Seq::new(
        if count > 0 {
            count as nat
        } else {
            0
        },
        |i: int| ' ',
    )
}

/// `s` with spaces behind it up to `width` characters.
pub open spec fn left(s: Seq<char>, width: int) -> Seq<char> {
    s + spaces(width - s.len())
}

/// `s` with spaces before it up to `width` characters.
pub open spec fn right(s: Seq<char>, width: int) -> Seq<char> {
    spaces(width - s.len()) + s
}

/// Appends `count` spaces.
fn push_spaces(s: &mut String, count: usize)
    ensures
        final(s)@ == old(s)@ + spaces(count as int),
{
    let mut i: usize = 0;
    assert(s@ =~= old(s)@ + spaces(0));
    while i < count
        invariant
            i <= count,
            s@ == old(s)@ + spaces(i as int),
        decreases count - i,
    {
        s.push(' ');
        i = i + 1;
        assert(s@ =~= old(s)@ + spaces(i as int));
    }
}

/// `s` with spaces behind it up to `width` characters.
pub fn left_text(s: &str, width: usize) -> (r: String)
    ensures
        r@ == left(s@, width as int),
{
    let n: usize = chars_of(s).len();
    let mut r = s.to_owned();
    if n < width {
        push_spaces(&mut r, width - n);
    }
    assert(r@ =~= left(s@, width as int));
    r
}

/// `s` with spaces before it up to `width` characters.
pub fn right_text(s: &str, width: usize) -> (r: String)
    ensures
        r@ == right(s@, width as int),
{
    let n: usize = chars_of(s).len();
    let mut r = String::new();
    if n < width {
        push_spaces(&mut r, width - n);
    }
    r.append(s);
    assert(r@ =~= right(s@, width as int));
    r
}

/// Appends a line.
pub fn push_line(out: &mut Vec<String>, line: String)
    ensures
        text::texts(final(out)@) == text::texts(old(out)@).push(line@),
{
    out.push(line);
    assert(text::texts(out@) =~= text::texts(old(out)@).push(line@));
}

/// Appends lines.
pub fn push_lines(out: &mut Vec<String>, more: &[String])
    ensures
        text::texts(final(out)@) == text::texts(old(out)@) + text::texts(more@),
{
    let mut i: usize = 0;
    assert(text::texts(out@) =~= text::texts(old(out)@) + text::texts(more@).take(0));
    while i < more.len()
        invariant
            i <= more@.len(),
            text::texts(out@) == text::texts(old(out)@) + text::texts(more@).take(i as int),
        decreases more@.len() - i,
    {
        push_line(out, more[i].clone());
        i = i + 1;
        assert(text::texts(out@) =~= text::texts(old(out)@) + text::texts(more@).take(i as int));
    }
    assert(text::texts(more@).take(more@.len() as int) =~= text::texts(more@));
}

/// A line where `there`, and otherwise none.
pub open spec fn line_if(there: bool, line: Seq<char>) -> Seq<Seq<char>> {
    if there {
        seq![line]
    } else {
        seq![]
    }
}

/// The text of `o`, where there is one.
pub open spec fn opt(o: Option<String>) -> Option<Seq<char>> {
    match o {
        Some(s) => Some(s@),
        None => None,
    }
}

/// A copy of `o`.
pub fn copy_opt(o: &Option<String>) -> (r: Option<String>)
    ensures
        opt(r) == opt(*o),
{
    match o {
        Some(s) => Some(s.clone()),
        None => None,
    }
}

} // verus!
