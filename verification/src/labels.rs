//! Decimal rendering of label-pair indices and the two block label families.
use vstd::prelude::*;

verus! {

/// The decimal digit character for `d` in 0..10.
pub open spec fn dec_digit(d: int) -> char {
    if d == 0 {
        '0'
    } else if d == 1 {
        '1'
    } else if d == 2 {
        '2'
    } else if d == 3 {
        '3'
    } else if d == 4 {
        '4'
    } else if d == 5 {
        '5'
    } else if d == 6 {
        '6'
    } else if d == 7 {
        '7'
    } else if d == 8 {
        '8'
    } else {
        '9'
    }
}

/// The decimal digits of a nonnegative number, most significant first.
pub open spec fn dec_str(n: int) -> Seq<char>
    decreases n,
{
    if n < 10 {
        seq![dec_digit(n)]
    } else {
        dec_str(n / 10).push(dec_digit(n % 10))
    }
}

/// The label of the body block of pair `n`.
pub open spec fn lbl_body(n: int) -> Seq<char> {
    "body_"@ + dec_str(n)
}

/// The label of the end block of pair `n`.
pub open spec fn lbl_end(n: int) -> Seq<char> {
    "end_"@ + dec_str(n)
}

/// Relies on `String::push`: appends the character to the end of the string.
#[verifier::external_body]
fn push_char(s: &mut String, c: char)
    ensures
        final(s)@ == old(s)@.push(c),
{
    s.push(c);
}

/// The digit character for `d`.
fn digit_char(d: usize) -> (c: char)
    requires
        d < 10,
    ensures
        c == dec_digit(d as int),
{
    match d {
        0 => '0',
        1 => '1',
        2 => '2',
        3 => '3',
        4 => '4',
        5 => '5',
        6 => '6',
        7 => '7',
        8 => '8',
        _ => '9',
    }
}

/// Append the decimal digits of `n` to `out`, most significant first.
fn push_dec(out: &mut String, n: usize)
    ensures
        final(out)@ == old(out)@ + dec_str(n as int),
    decreases n,
{
    if n >= 10 {
        push_dec(out, n / 10);
    }
    let c = digit_char(n % 10);
    push_char(out, c);
    proof {
        if n < 10 {
            assert(old(out)@.push(c) =~= old(out)@ + seq![dec_digit(n as int)]);
        } else {
            assert((old(out)@ + dec_str(n as int / 10)).push(c)
                =~= old(out)@ + dec_str(n as int / 10).push(dec_digit(n as int % 10)));
        }
    }
}

/// The body block label of pair `n`, as text.
pub fn body_label(n: usize) -> (s: String)
    ensures
        s@ == lbl_body(n as int),
{
    let mut s = "body_".to_owned();
    push_dec(&mut s, n);
    s
}

/// The end block label of pair `n`, as text.
pub fn end_label(n: usize) -> (s: String)
    ensures
        s@ == lbl_end(n as int),
{
    let mut s = "end_".to_owned();
    push_dec(&mut s, n);
    s
}

} // verus!
