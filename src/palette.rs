//! The colour palette and the ANSI escapes that paint a line.
use vstd::prelude::*;

verus! {

/// Number of colours in the palette.
pub const PALETTE_SIZE: usize = 12;

/// The 256-colour codes handed out to commands, in launch order.
pub open spec fn palette() -> Seq<u8> {
    seq![14u8, 13u8, 12u8, 11u8, 10u8, 9u8, 1u8, 2u8, 3u8, 4u8, 5u8, 6u8]
}

/// The colour of the command launched at position `index`.
pub open spec fn colour_of(index: nat) -> u8 {
    palette()[(index % 12) as int]
}

/// The colour code of the command launched at position `index`: the palette
/// is used cyclically.
pub fn colour_code(index: usize) -> (r: u8)
    ensures
        r == colour_of(index as nat),
{
    let codes: [u8; 12] = [14, 13, 12, 11, 10, 9, 1, 2, 3, 4, 5, 6];
    let k = index % PALETTE_SIZE;
    proof {
        assert(codes@ =~= palette());
    }
    codes[k]
}

/// Launch positions twelve apart share their colour.
pub proof fn lemma_colour_cycle(index: nat)
    ensures
        colour_of(index + 12) == colour_of(index),
{
    assert((index + 12) % 12 == index % 12) by (nonlinear_arith);
}

/// The decimal digit `d`.
pub open spec fn digit(d: nat) -> char {
    seq!['0', '1', '2', '3', '4', '5', '6', '7', '8', '9'][d as int]
}

/// `n` written in decimal, without leading zeros.
pub open spec fn decimal(n: nat) -> Seq<char>
    decreases n,
{
    if n < 10 {
        seq![digit(n)]
    } else {
        decimal(n / 10) + seq![digit(n % 10)]
    }
}

/// The escape that selects 256-colour foreground `code`.
pub open spec fn foreground_escape(code: u8) -> Seq<char> {
    seq!['\x1b', '[', '3', '8', ';', '5', ';'] + decimal(code as nat) + seq!['m']
}

/// The escape that resets all styles.
pub open spec fn reset_escape() -> Seq<char> {
    seq!['\x1b', '[', '0', 'm']
}

/// `text` in foreground colour `code`, followed by a reset.
pub open spec fn painted(code: u8, text: Seq<char>) -> Seq<char> {
    foreground_escape(code) + text + reset_escape()
}

/// Relies on ansi_term's `Colour::Fixed(code).paint(text)` as displayed: the
/// prefix `ESC[38;5;<code>m`, the text, and the suffix `ESC[0m`.
#[verifier::external_body]
pub(crate) fn paint_fixed(code: u8, text: &str) -> (r: String)
    ensures
        r@ == painted(code, text@),
{
    ansi_term::Colour::Fixed(code).paint(text).to_string()
}

} // verus!
