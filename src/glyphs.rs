//! The symbols that drops are drawn with.
use crate::random::{choose_band, random_in};
use vstd::prelude::*;

verus! {

/// Code of the first symbol: `!`, the first printable ASCII character after
/// the space.
pub const FIRST_SYMBOL: u32 = 33;

/// Code of the last symbol: `~`, the last printable ASCII character.
pub const LAST_SYMBOL: u32 = 0x7E;

/// How many symbols there are.
pub open spec fn symbol_count() -> nat {
    (LAST_SYMBOL - FIRST_SYMBOL + 1) as nat
}

/// The symbol table: every character from `FIRST_SYMBOL` to `LAST_SYMBOL`, in
/// order of code: the printable ASCII characters but the space.
pub open spec fn symbols() -> Seq<char> {
    Seq::new(symbol_count(), |k: int| (FIRST_SYMBOL + k) as char)
}

/// Returns the symbol table, `symbols()`.
pub fn get_all_unicode_chars() -> (r: Vec<char>)
    ensures
        r@ == symbols(),
{
    let mut r: Vec<char> = Vec::new();
    let mut code: u8 = FIRST_SYMBOL as u8;
    while code <= LAST_SYMBOL as u8
        invariant
            FIRST_SYMBOL <= code <= LAST_SYMBOL + 1,
            r@.len() == code - FIRST_SYMBOL,
            forall|k: int| 0 <= k < r@.len() ==> r@[k] == symbols()[k],
        decreases LAST_SYMBOL + 1 - code,
    {
        r.push(code as char);
        code = code + 1;
    }
    assert(r@ =~= symbols());
    r
}

} // verus!

verus! {

/// The bands of printable ASCII symbols that `get_random_char` draws from,
/// as inclusive bounds: punctuation, `:` to `@`, upper case letters, `[` to
/// `` ` ``, lower case letters, `{` to `~`. Digits are left out.
pub open spec fn symbol_bands() -> Seq<(u32, u32)> {
    seq![(33u32, 47u32), (58u32, 64u32), (65u32, 90u32), (91u32, 96u32), (97u32, 122u32), (123u32, 126u32)]
}

/// Whether `c` lies in one of `symbol_bands()`.
pub open spec fn is_band_symbol(c: char) -> bool {
    exists|k: int| 0 <= k < symbol_bands().len() &&
        #[trigger] symbol_bands()[k].0 <= c as u32 <= symbol_bands()[k].1
}

/// A random printable ASCII symbol: a band of `symbol_bands()` is chosen
/// uniformly, then a character uniformly within it.
pub fn get_random_char() -> (c: char)
    ensures
        is_band_symbol(c),
{
    let bands: Vec<(u32, u32)> = vec![(33, 47), (58, 64), (65, 90), (91, 96), (97, 122), (123, 126)];
    assert(bands@ =~= symbol_bands());
    let band = choose_band(&bands);
    let ghost k = choose|k: int| 0 <= k < bands@.len() && bands@[k] == band;
    let code = random_in(band.0, band.1 + 1);
    let c = code as u8 as char;
    assert(symbol_bands()[k].0 <= c as u32 <= symbol_bands()[k].1);
    c
}

} // verus!
