//! The text that the translator writes: instruction lines, label names and
//! diagnostics.
use vstd::prelude::*;

verus! {

/// An instruction line: a tab, the text and a line break.
pub open spec fn line(t: Seq<char>) -> Seq<char> {
    seq!['\t'] + t + seq!['\n']
}

/// The decimal digit character for `d < 10`.
pub open spec fn digit(d: nat) -> char {
    ((d + 48) as u8) as char
}

/// The decimal representation of `n`, without leading zeros.
pub open spec fn digits(n: nat) -> Seq<char>
    decreases n,
{
    if n < 10 {
        seq![digit(n)]
    } else {
        digits(n / 10) + seq![digit(n % 10)]
    }
}

/// The name of label number `n`: `L` followed by `n` in decimal.
pub open spec fn label_name(n: nat) -> Seq<char> {
    seq!['L'] + digits(n)
}

/// `Error: <s>.` and a line break.
pub open spec fn error_line(s: Seq<char>) -> Seq<char> {
    seq!['E', 'r', 'r', 'o', 'r', ':', ' '] + s + seq!['.', '\n']
}

/// `Error: <s> expected.` and a line break.
pub open spec fn expected_line(s: Seq<char>) -> Seq<char> {
    error_line(s + seq![' ', 'e', 'x', 'p', 'e', 'c', 't', 'e', 'd'])
}

/// Appends `src` to `dst`.
fn append(dst: &mut Vec<char>, src: &[char])
    ensures
        final(dst)@ == old(dst)@ + src@,
{
    let mut i: usize = 0;
    while i < src.len()
        invariant
            0 <= i <= src@.len(),
            dst@ == old(dst)@ + src@.subrange(0, i as int),
        decreases src@.len() - i,
    {
        dst.push(src[i]);
        i = i + 1;
        proof {
            assert(src@.subrange(0, i as int) =~= src@.subrange(0, i - 1) + seq![src@[i - 1]]);
        }
    }
    assert(src@.subrange(0, src@.len() as int) =~= src@);
}

/// Writes a tab followed by `s`, with no line break.
pub fn emit(out: &mut Vec<char>, s: &[char])
    ensures
        final(out)@ == old(out)@ + seq!['\t'] + s@,
{
    out.push('\t');
    append(out, s);
}

/// Writes a tab, `s` and a line break.
pub fn emitln(out: &mut Vec<char>, s: &[char])
    ensures
        final(out)@ == old(out)@ + line(s@),
{
    out.push('\t');
    append(out, s);
    out.push('\n');
    assert(old(out)@ + seq!['\t'] + s@ + seq!['\n'] =~= old(out)@ + line(s@));
}

/// Appends the decimal digits of `n`.
fn push_digits(out: &mut Vec<char>, n: usize)
    ensures
        final(out)@ == old(out)@ + digits(n as nat),
    decreases n,
{
    if n >= 10 {
        push_digits(out, n / 10);
    }
    let d: u8 = (n % 10) as u8;
    out.push((d + 48) as char);
    assert(final(out)@ =~= old(out)@ + digits(n as nat)) by {
        if n >= 10 {
            assert(digits(n as nat) == digits((n / 10) as nat) + seq![digit((n % 10) as nat)]);
        }
    }
}

/// The name of label number `n`.
pub fn label_text(n: usize) -> (r: Vec<char>)
    ensures
        r@ == label_name(n as nat),
{
    let mut r: Vec<char> = Vec::new();
    r.push('L');
    push_digits(&mut r, n);
    assert(r@ =~= label_name(n as nat));
    r
}

/// The diagnostic line for an error described by `s`.
pub fn error(s: &[char]) -> (r: Vec<char>)
    ensures
        r@ == error_line(s@),
{
    let mut r: Vec<char> = vec!['E', 'r', 'r', 'o', 'r', ':', ' '];
    append(&mut r, s);
    r.push('.');
    r.push('\n');
    assert(r@ =~= error_line(s@));
    r
}

/// The diagnostic line with which a run is abandoned: the error line for `s`.
/// Nothing is written after it.
pub fn abort(s: &[char]) -> (r: Vec<char>)
    ensures
        r@ == error_line(s@),
{
    error(s)
}

/// The diagnostic line saying that `s` was expected.
pub fn expected(s: &[char]) -> (r: Vec<char>)
    ensures
        r@ == expected_line(s@),
{
    let mut t: Vec<char> = Vec::new();
    append(&mut t, s);
    let tail: Vec<char> = vec![' ', 'e', 'x', 'p', 'e', 'c', 't', 'e', 'd'];
    append(&mut t, tail.as_slice());
    error(t.as_slice())
}

} // verus!
