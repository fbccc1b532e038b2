//! How each command's lines look: its aligned prefix and its colour.
use vstd::prelude::*;

use crate::command::{Cmd, CmdModel};
use crate::layout::{
    bracketed, byte_len, lemma_bracketed_byte_len, lemma_padded_byte_len, max_alias, pad_left,
    prefix_model,
};
use crate::palette::{colour_code, colour_of, paint_fixed, painted};

verus! {

/// The look of one command's output lines.
#[derive(Debug)]
pub struct LineStyle {
    /// The bracketed alias, padded so that all prefixes of a run align.
    pub prefix: String,
    /// The 256-colour code the whole line is painted in.
    pub colour: u8,
}

/// Every command's alias fits, with its brackets, in a `usize` byte count;
/// an allocation of that size cannot exist.
pub open spec fn aliases_fit(cs: Seq<CmdModel>) -> bool {
    forall|i: int| 0 <= i < cs.len() ==> byte_len(#[trigger] cs[i].alias) + 2 <= usize::MAX
}

proof fn lemma_max_alias_bounds(cs: Seq<CmdModel>)
    ensures
        forall|i: int| 0 <= i < cs.len() ==> byte_len(#[trigger] cs[i].alias) <= max_alias(cs),
        cs.len() == 0 || exists|i: int| 0 <= i < cs.len() && byte_len(#[trigger] cs[i].alias) == max_alias(cs),
    decreases cs.len(),
{
    if cs.len() > 0 {
        let init = cs.drop_last();
        lemma_max_alias_bounds(init);
        assert forall|i: int| 0 <= i < cs.len() implies byte_len(#[trigger] cs[i].alias) <= max_alias(cs) by {
            if i < cs.len() - 1 {
                assert(init[i] == cs[i]);
            }
        }
        if byte_len(cs.last().alias) > max_alias(init) {
            assert(byte_len(cs[cs.len() - 1].alias) == max_alias(cs));
        } else if init.len() > 0 {
            let j = choose|j: int| 0 <= j < init.len() && byte_len(#[trigger] init[j].alias) == max_alias(init);
            assert(cs[j] == init[j]);
        } else {
            assert(byte_len(cs[0].alias) == max_alias(cs));
        }
    }
}

/// The byte length of the longest alias among `cmds` (0 when there is none).
pub fn max_alias_len(cmds: &Vec<Cmd>) -> (r: usize)
    requires
        aliases_fit(cmds@.map_values(|c: Cmd| c@)),
    ensures
        r == max_alias(cmds@.map_values(|c: Cmd| c@)),
{
    let ghost cs = cmds@.map_values(|c: Cmd| c@);
    let mut m: usize = 0;
    let mut i: usize = 0;
    proof {
        assert(cs.take(0) =~= Seq::<CmdModel>::empty());
    }
    while i < cmds.len()
        invariant
            cs == cmds@.map_values(|c: Cmd| c@),
            aliases_fit(cs),
            i <= cmds.len(),
            m == max_alias(cs.take(i as int)),
        decreases cmds.len() - i,
    {
        let a = cmds[i].alias.as_str().len();
        proof {
            assert(cs[i as int].alias == cmds@[i as int].alias@);
            assert(cs.take(i + 1).drop_last() =~= cs.take(i as int));
            assert(cs.take(i + 1).last() == cs[i as int]);
        }
        if a > m {
            m = a;
        }
        i = i + 1;
    }
    proof {
        assert(cs.take(i as int) =~= cs);
    }
    m
}

/// The prefix of `alias` in a run whose longest alias has `max_alias` bytes.
pub fn prefix_for(alias: &str, max_alias: usize) -> (r: String)
    requires
        max_alias + 2 <= usize::MAX,
        byte_len(alias@) + 2 <= usize::MAX,
    ensures
        r@ == prefix_model(alias@, max_alias as nat),
{
    let mut b = String::from_str("[");
    b.append(alias);
    b.append("]");
    proof {
        reveal_strlit("[");
        reveal_strlit("]");
        assert(b@ =~= bracketed(alias@));
        lemma_bracketed_byte_len(alias@);
    }
    pad_left(b.as_str(), max_alias + 2)
}

/// The style of each command, by launch position: the prefix padded to the
/// longest alias plus its brackets, and the palette colour of the position.
pub fn output_styles(cmds: &Vec<Cmd>) -> (r: Vec<LineStyle>)
    requires
        aliases_fit(cmds@.map_values(|c: Cmd| c@)),
    ensures
        r.len() == cmds.len(),
        forall|i: int|
            0 <= i < r.len() ==> (#[trigger] r@[i]).prefix@ == prefix_model(
                cmds@[i].alias@,
                max_alias(cmds@.map_values(|c: Cmd| c@)),
            ) && r@[i].colour == colour_of(i as nat),
{
    let ghost cs = cmds@.map_values(|c: Cmd| c@);
    let m = max_alias_len(cmds);
    proof {
        lemma_max_alias_bounds(cs);
    }
    let mut out: Vec<LineStyle> = Vec::new();
    let mut i: usize = 0;
    while i < cmds.len()
        invariant
            cs == cmds@.map_values(|c: Cmd| c@),
            aliases_fit(cs),
            m == max_alias(cs),
            cs.len() == 0 || m + 2 <= usize::MAX,
            i <= cmds.len(),
            out.len() == i,
            forall|k: int|
                0 <= k < i ==> (#[trigger] out@[k]).prefix@ == prefix_model(cmds@[k].alias@, m as nat)
                    && out@[k].colour == colour_of(k as nat),
        decreases cmds.len() - i,
    {
        proof {
            assert(cs[i as int].alias == cmds@[i as int].alias@);
        }
        let prefix = prefix_for(cmds[i].alias.as_str(), m);
        out.push(LineStyle { prefix, colour: colour_code(i) });
        i = i + 1;
    }
    out
}

/// One output line of a command: `<prefix> <line>`, painted in its colour.
pub fn render_line(style: &LineStyle, line: &str) -> (r: String)
    ensures
        r@ == painted(style.colour, style.prefix@ + seq![' '] + line@),
{
    let mut text = style.prefix.clone();
    text.append(" ");
    text.append(line);
    proof {
        reveal_strlit(" ");
    }
    paint_fixed(style.colour, text.as_str())
}

/// All prefixes of a run have the same width: two bytes more than the
/// longest alias.
pub proof fn lemma_prefixes_aligned(cs: Seq<CmdModel>)
    ensures
        forall|i: int|
            0 <= i < cs.len() ==> byte_len(#[trigger] prefix_model(cs[i].alias, max_alias(cs)))
                == max_alias(cs) + 2,
{
    lemma_max_alias_bounds(cs);
    assert forall|i: int| 0 <= i < cs.len() implies byte_len(
        #[trigger] prefix_model(cs[i].alias, max_alias(cs)),
    ) == max_alias(cs) + 2 by {
        lemma_bracketed_byte_len(cs[i].alias);
        lemma_padded_byte_len(bracketed(cs[i].alias), max_alias(cs) + 2);
    }
}

} // verus!
