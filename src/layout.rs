//! Column layout of the output prefixes, measured in bytes of UTF-8.
use vstd::prelude::*;
use vstd::utf8::encode_utf8;

use crate::command::{Cmd, CmdModel};

verus! {

/// The length of `s` in bytes of UTF-8, as `str::len` counts it.
pub open spec fn byte_len(s: Seq<char>) -> nat {
    encode_utf8(s).len()
}

/// `n` spaces.
pub open spec fn spaces(n: nat) -> Seq<char> {
    Seq::new(n, |_k: int| ' ')
}

/// `s` followed by as many spaces as bring it to `min` bytes, if it is shorter.
pub open spec fn padded(s: Seq<char>, min: nat) -> Seq<char> {
    if byte_len(s) < min {
        s + spaces((min - byte_len(s)) as nat)
    } else {
        s
    }
}

/// The alias in square brackets.
pub open spec fn bracketed(alias: Seq<char>) -> Seq<char> {
    seq!['['] + alias + seq![']']
}

/// The prefix of an alias in a run whose longest alias has `max_alias` bytes:
/// the bracketed alias, padded to `max_alias + 2` bytes.
pub open spec fn prefix_model(alias: Seq<char>, max_alias: nat) -> Seq<char> {
    padded(bracketed(alias), max_alias + 2)
}

/// The byte length of the longest alias among `cs` (0 when there is none).
pub open spec fn max_alias(cs: Seq<CmdModel>) -> nat
    decreases cs.len(),
{
    if cs.len() == 0 {
        0
    } else {
        let m = max_alias(cs.drop_last());
        let a = byte_len(cs.last().alias);
        if a > m {
            a
        } else {
            m
        }
    }
}

pub proof fn lemma_encode_concat(a: Seq<char>, b: Seq<char>)
    ensures
        encode_utf8(a + b) == encode_utf8(a) + encode_utf8(b),
    decreases a.len(),
{
    if a.len() == 0 {
        assert(a + b =~= b);
        assert(encode_utf8(a) + encode_utf8(b) =~= encode_utf8(b));
    } else {
        assert((a + b).drop_first() =~= a.drop_first() + b);
        assert((a + b)[0] == a[0]);
        lemma_encode_concat(a.drop_first(), b);
        let e0 = vstd::utf8::encode_scalar(a[0] as u32);
        assert(e0 + (encode_utf8(a.drop_first()) + encode_utf8(b)) =~= (e0 + encode_utf8(
            a.drop_first(),
        )) + encode_utf8(b));
    }
}

/// A string of ASCII characters has one byte per character.
pub proof fn lemma_ascii_byte_len(s: Seq<char>)
    requires
        forall|k: int| 0 <= k < s.len() ==> (#[trigger] s[k]) as u32 <= 0x7f,
    ensures
        byte_len(s) == s.len(),
    decreases s.len(),
{
    if s.len() > 0 {
        assert(s[0] as u32 <= 0x7f);
        assert(forall|k: int| 0 <= k < s.drop_first().len() ==> s.drop_first()[k] == s[k + 1]);
        lemma_ascii_byte_len(s.drop_first());
    }
}

pub proof fn lemma_byte_len_concat(a: Seq<char>, b: Seq<char>)
    ensures
        byte_len(a + b) == byte_len(a) + byte_len(b),
{
    lemma_encode_concat(a, b);
}

pub proof fn lemma_spaces_byte_len(n: nat)
    ensures
        byte_len(spaces(n)) == n,
{
    lemma_ascii_byte_len(spaces(n));
}

pub proof fn lemma_bracketed_byte_len(alias: Seq<char>)
    ensures
        byte_len(bracketed(alias)) == byte_len(alias) + 2,
{
    lemma_ascii_byte_len(seq!['[']);
    lemma_ascii_byte_len(seq![']']);
    lemma_byte_len_concat(seq!['['], alias);
    lemma_byte_len_concat(seq!['['] + alias, seq![']']);
}

/// Padding brings a string to at least `min` bytes, and to exactly `min`
/// bytes when it was no longer.
pub proof fn lemma_padded_byte_len(s: Seq<char>, min: nat)
    ensures
        byte_len(padded(s, min)) == if byte_len(s) < min {
            min
        } else {
            byte_len(s)
        },
{
    if byte_len(s) < min {
        lemma_byte_len_concat(s, spaces((min - byte_len(s)) as nat));
        lemma_spaces_byte_len((min - byte_len(s)) as nat);
    }
}

/// `src` padded on the right with spaces to at least `min` bytes.
pub fn pad_left(src: &str, min: usize) -> (r: String)
    requires
        byte_len(src@) <= usize::MAX,
    ensures
        r@ == padded(src@, min as nat),
{
    let len = src.len();
    let mut buf = src.to_owned();
    let mut j: usize = len;
    proof {
        reveal_strlit(" ");
        assert(src@ + spaces(0) =~= src@);
    }
    while j < min
        invariant
            len == byte_len(src@),
            len <= j,
            j <= min || j == len,
            buf@ == src@ + spaces((j - len) as nat),
        decreases min - j,
    {
        buf.append(" ");
        proof {
            reveal_strlit(" ");
            assert(src@ + spaces((j - len) as nat) + " "@ =~= src@ + spaces((j + 1 - len) as nat));
        }
        j = j + 1;
    }
    proof {
        if len >= min {
            assert(src@ + spaces(0) =~= src@);
        }
    }
    buf
}

} // verus!
