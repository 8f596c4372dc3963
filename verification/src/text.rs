//! Text building blocks for the survey display: characters of a string,
//! decimal numbers and quote trimming.

use vstd::prelude::*;

verus! {

/// The character that is trimmed from both ends of an answer.
pub const QUOTE: char = '"';

/// The decimal digit for `d`, for `d` below ten.
pub open spec fn digit(d: nat) -> char {
    ('0' as int + d) as char
}

/// `n` written in decimal, without leading zeros.
pub open spec fn decimal(n: nat) -> Seq<char>
    decreases n,
{
    if n < 10 {
        seq![digit(n)]
    } else {
        decimal(n / 10).push(digit(n % 10))
    }
}

/// `s` without the quote characters at its start.
pub open spec fn strip_front(s: Seq<char>) -> Seq<char>
    decreases s.len(),
{
    if s.len() > 0 && s.first() == QUOTE {
        strip_front(s.drop_first())
    } else {
        s
    }
}

/// `s` without the quote characters at its end.
pub open spec fn strip_back(s: Seq<char>) -> Seq<char>
    decreases s.len(),
{
    if s.len() > 0 && s.last() == QUOTE {
        strip_back(s.drop_last())
    } else {
        s
    }
}

/// `s` without the quote characters at either end; quotes inside stay.
pub open spec fn trim_quotes(s: Seq<char>) -> Seq<char> {
    strip_back(strip_front(s))
}

/// `String::push` of std: appends the one character `c` to `s`.
#[verifier::external_body]
pub(crate) fn push_char(s: &mut String, c: char)
    ensures
        final(s)@ == old(s)@.push(c),
{
    s.push(c)
}

/// The characters of `s`, in order.
pub fn chars_of(s: &str) -> (out: Vec<char>)
    ensures
        out@ == s@,
{
    let mut out: Vec<char> = Vec::new();
    for c in it: s.chars()
        invariant
            it.seq() == s@,
            out@ == it.seq().take(it.index()),
    {
        out.push(c);
        assert(out@ =~= it.seq().take(it.index() + 1));
    }
    assert(out@ =~= s@);
    out
}

/// Appends the characters `from[lo..hi]` to `s`.
pub fn push_chars(s: &mut String, from: &Vec<char>, lo: usize, hi: usize)
    requires
        lo <= hi <= from.len(),
    ensures
        final(s)@ == old(s)@ + from@.subrange(lo as int, hi as int),
{
    let mut i: usize = lo;
    while i < hi
        invariant
            lo <= i <= hi <= from.len(),
            s@ == old(s)@ + from@.subrange(lo as int, i as int),
        decreases hi - i,
    {
        push_char(s, from[i]);
        i = i + 1;
        assert(s@ =~= old(s)@ + from@.subrange(lo as int, i as int));
    }
}

/// Appends `n` in decimal to `s`.
pub fn push_decimal(s: &mut String, n: u128)
    ensures
        final(s)@ == old(s)@ + decimal(n as nat),
    decreases n,
{
    if n >= 10 {
        push_decimal(s, n / 10);
    }
    let d: u8 = (n % 10) as u8;
    push_char(s, (48u8 + d) as char);
    assert(s@ =~= old(s)@ + decimal(n as nat));
}

/// Appends `text` to `s` without the quote characters at either end of it.
pub fn push_trimmed(s: &mut String, text: &str)
    ensures
        final(s)@ == old(s)@ + trim_quotes(text@),
{
    let chars = chars_of(text);
    let len: usize = chars.len();
    let mut lo: usize = 0;
    assert(chars@.subrange(0, len as int) =~= chars@);
    while lo < len && chars[lo] == QUOTE
        invariant
            lo <= len == chars.len(),
            strip_front(chars@) == strip_front(chars@.subrange(lo as int, len as int)),
        decreases len - lo,
    {
        assert(chars@.subrange(lo as int, len as int).drop_first()
            =~= chars@.subrange(lo as int + 1, len as int));
        lo = lo + 1;
    }
    let mut hi: usize = len;
    while hi > lo && chars[hi - 1] == QUOTE
        invariant
            lo <= hi <= len == chars.len(),
            trim_quotes(chars@) == strip_back(chars@.subrange(lo as int, hi as int)),
        decreases hi,
    {
        assert(chars@.subrange(lo as int, hi as int).drop_last()
            =~= chars@.subrange(lo as int, hi as int - 1));
        hi = hi - 1;
    }
    push_chars(s, &chars, lo, hi);
}

} // verus!
