//! The fixed alphabet of reaction symbols: the 26 regional indicator letters.

use vstd::prelude::*;

verus! {

/// Number of symbols in the alphabet.
pub const ALPHABET_LEN: usize = 26;

/// Code point of the first symbol, regional indicator letter A.
pub const BASE_CODE: u32 = 0x1F1E6;

/// The symbol at position `i` of the alphabet: the base symbol moved up by `i`.
pub open spec fn symbol(i: int) -> char {
    (BASE_CODE as int + i) as char
}

/// The first `n` symbols of the alphabet, in order.
pub open spec fn symbols(n: nat) -> Seq<char> {
    Seq::new(n, |i: int| symbol(i))
}

/// How many symbols `n` answers receive: one each, until the alphabet runs out.
pub open spec fn allocated(n: nat) -> nat {
    if n < ALPHABET_LEN as nat {
        n
    } else {
        ALPHABET_LEN as nat
    }
}

/// `char::from_u32` of std: the scalar value with code `code`, or `None`
/// where `code` is a surrogate or lies above the last code point.
#[verifier::external_body]
fn char_from_u32(code: u32) -> (c: Option<char>)
    ensures
        c == if code <= 0xD7FF || (0xE000 <= code && code <= 0x10FFFF) {
            Some(code as char)
        } else {
            None
        },
{
    char::from_u32(code)
}

/// The symbols for `n` answers: the first `min(n, 26)` of the alphabet, in
/// its order. Answers past the 26th get none.
pub fn allocate(n: usize) -> (out: Vec<char>)
    ensures
        out@ == symbols(allocated(n as nat)),
{
    let count: usize = if n < ALPHABET_LEN { n } else { ALPHABET_LEN };
    let mut out: Vec<char> = Vec::new();
    let mut i: usize = 0;
    while i < count
        invariant
            count <= ALPHABET_LEN,
            i <= count,
            out@ == symbols(i as nat),
        decreases count - i,
    {
        let code: u32 = BASE_CODE + i as u32;
        match char_from_u32(code) {
            Some(c) => {
                out.push(c);
            },
            None => {},
        }
        i = i + 1;
        assert(out@ =~= symbols(i as nat));
    }
    out
}

/// The whole alphabet, in order.
pub fn emojis() -> (out: Vec<char>)
    ensures
        out@ == symbols(ALPHABET_LEN as nat),
{
    allocate(ALPHABET_LEN)
}

/// The symbols for `n` answers are `n` many, and 26 where `n` is more; no
/// symbol is among them twice, and they stand in increasing order of their
/// code points.
pub proof fn allocated_symbols_distinct(n: nat, i: int, j: int)
    requires
        0 <= i < j < allocated(n),
    ensures
        symbols(allocated(n)).len() == if n < 26 { n } else { 26 },
        symbols(allocated(n))[i] != symbols(allocated(n))[j],
        (symbols(allocated(n))[i] as u32) < (symbols(allocated(n))[j] as u32),
{
}

/// The symbols for fewer answers are the first of the symbols for more.
pub proof fn allocated_symbols_prefix(n: nat, m: nat)
    requires
        n <= m,
    ensures
        symbols(allocated(n)) == symbols(allocated(m)).take(allocated(n) as int),
{
    assert(symbols(allocated(n)) =~= symbols(allocated(m)).take(allocated(n) as int));
}

} // verus!
