//! Character-level text helpers: decimal rendering and padding of numbers,
//! and conversion between strings and character vectors.

use vstd::prelude::*;

verus! {

/// The decimal digit character for a value in `0..10`.
pub open spec fn digit_char(d: int) -> char {
    if d == 0 {
        '0'
    } else if d == 1 {
        '1'
    } else if d == 2 {
        '2'
    } else if d == 3 {
        '3'
    } else if d == 4 {
        '4'
    } else if d == 5 {
        '5'
    } else if d == 6 {
        '6'
    } else if d == 7 {
        '7'
    } else if d == 8 {
        '8'
    } else {
        '9'
    }
}

/// The decimal representation of `n`, without sign or leading zeros.
pub open spec fn decimal(n: nat) -> Seq<char>
    decreases n,
{
    if n < 10 {
        seq![digit_char(n as int)]
    } else {
        decimal(n / 10).push(digit_char((n % 10) as int))
    }
}

/// `s` right-aligned in a field of `width` characters filled with `fill`.
pub open spec fn pad_left(s: Seq<char>, width: nat, fill: char) -> Seq<char> {
    if s.len() >= width {
        s
    } else {
        Seq::new((width - s.len()) as nat, |i: int| fill) + s
    }
}

/// `s` left-aligned in a field of `width` characters filled with spaces.
pub open spec fn pad_right(s: Seq<char>, width: nat) -> Seq<char> {
    if s.len() >= width {
        s
    } else {
        s + Seq::new((width - s.len()) as nat, |i: int| ' ')
    }
}

fn digit(d: usize) -> (c: char)
    requires
        d < 10,
    ensures
        c == digit_char(d as int),
{
    if d == 0 {
        '0'
    } else if d == 1 {
        '1'
    } else if d == 2 {
        '2'
    } else if d == 3 {
        '3'
    } else if d == 4 {
        '4'
    } else if d == 5 {
        '5'
    } else if d == 6 {
        '6'
    } else if d == 7 {
        '7'
    } else if d == 8 {
        '8'
    } else {
        '9'
    }
}

/// The decimal digits of `n`.
pub(crate) fn decimal_chars(n: usize) -> (r: Vec<char>)
    ensures
        r@ == decimal(n as nat),
    decreases n,
{
    if n < 10 {
        vec![digit(n)]
    } else {
        let mut r = decimal_chars(n / 10);
        r.push(digit(n % 10));
        r
    }
}

/// Appends the characters of `s` to `out`.
pub(crate) fn push_all(out: &mut Vec<char>, s: &Vec<char>)
    ensures
        final(out)@ == old(out)@ + s@,
{
    let mut i: usize = 0;
    while i < s.len()
        invariant
            i <= s@.len(),
            out@ == old(out)@ + s@.subrange(0, i as int),
        decreases s@.len() - i,
    {
        out.push(s[i]);
        i = i + 1;
        assert(s@.subrange(0, i as int) == s@.subrange(0, i - 1 as int).push(s@[i - 1]));
    }
    assert(s@.subrange(0, s@.len() as int) == s@);
}

/// Appends `count` copies of `c` to `out`.
pub(crate) fn push_repeat(out: &mut Vec<char>, c: char, count: usize)
    ensures
        final(out)@ == old(out)@ + Seq::new(count as nat, |i: int| c),
{
    let mut i: usize = 0;
    while i < count
        invariant
            i <= count,
            out@ == old(out)@ + Seq::new(i as nat, |k: int| c),
        decreases count - i,
    {
        out.push(c);
        i = i + 1;
        assert(Seq::new(i as nat, |k: int| c) == Seq::new((i - 1) as nat, |k: int| c).push(c));
    }
}

/// Appends `n` in decimal, right-aligned in a field of `width` filled with `fill`.
pub(crate) fn push_number(out: &mut Vec<char>, n: usize, width: usize, fill: char)
    ensures
        final(out)@ == old(out)@ + pad_left(decimal(n as nat), width as nat, fill),
{
    let digits = decimal_chars(n);
    if digits.len() < width {
        push_repeat(out, fill, width - digits.len());
    }
    push_all(out, &digits);
}

/// Appends `s`, left-aligned in a field of `width` filled with spaces.
pub(crate) fn push_padded(out: &mut Vec<char>, s: &Vec<char>, width: usize)
    ensures
        final(out)@ == old(out)@ + pad_right(s@, width as nat),
{
    push_all(out, s);
    if s.len() < width {
        push_repeat(out, ' ', width - s.len());
    }
}

/// The characters of `s`, in order.
pub(crate) fn chars_of(s: &str) -> (r: Vec<char>)
    ensures
        r@ == s@,
{
    let mut r: Vec<char> = Vec::new();
    for c in it: s.chars()
        invariant
            r@ == it.seq().subrange(0, it.index() as int),
    {
        r.push(c);
    }
    assert(r@ =~= s@);
    r
}

/// Relies on `String`'s `FromIterator<char>`: a string of the characters of `cs`, in order.
#[verifier::external_body]
pub(crate) fn string_of(cs: &Vec<char>) -> (r: String)
    ensures
        r@ == cs@,
{
    cs.iter().collect()
}

} // verus!
