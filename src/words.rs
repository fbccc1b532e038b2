//! Splitting a command string into whitespace-separated words.
use vstd::prelude::*;

verus! {

/// Unicode `White_Space`: the characters that `char::is_whitespace` accepts.
pub open spec fn is_white(c: char) -> bool {
    let u = c as u32;
    (0x09 <= u && u <= 0x0d) || u == 0x20 || u == 0x85 || u == 0xa0 || u == 0x1680 || (0x2000
        <= u && u <= 0x200a) || u == 0x2028 || u == 0x2029 || u == 0x202f || u == 0x205f || u
        == 0x3000
}

/// Number of leading characters of `s` that are not whitespace.
pub open spec fn run_len(s: Seq<char>) -> nat
    decreases s.len(),
{
    if s.len() == 0 || is_white(s[0]) {
        0
    } else {
        1 + run_len(s.drop_first())
    }
}

/// The maximal runs of non-whitespace characters of `s`, in order.
pub open spec fn words(s: Seq<char>) -> Seq<Seq<char>>
    decreases s.len(),
    via words_decreases
{
    if s.len() == 0 {
        seq![]
    } else if is_white(s[0]) {
        words(s.drop_first())
    } else {
        let n = run_len(s);
        seq![s.take(n as int)] + words(s.skip(n as int))
    }
}

#[via_fn]
proof fn words_decreases(s: Seq<char>) {
    if s.len() > 0 && !is_white(s[0]) {
        lemma_run_len_bounded(s);
        assert(run_len(s) >= 1);
    }
}

/// Whether `c` is a Unicode whitespace character.
pub fn is_whitespace(c: char) -> (r: bool)
    ensures
        r == is_white(c),
{
    let u = c as u32;
    (0x09 <= u && u <= 0x0d) || u == 0x20 || u == 0x85 || u == 0xa0 || u == 0x1680 || (0x2000
        <= u && u <= 0x200a) || u == 0x2028 || u == 0x2029 || u == 0x202f || u == 0x205f || u
        == 0x3000
}

proof fn lemma_run_len_bounded(s: Seq<char>)
    ensures
        run_len(s) <= s.len(),
    decreases s.len(),
{
    if s.len() > 0 && !is_white(s[0]) {
        lemma_run_len_bounded(s.drop_first());
    }
}

/// A run of non-whitespace characters of `s` from `start` to `end`, ended by
/// whitespace or by the end of `s`, is the run that `run_len` measures.
proof fn lemma_run_len_exact(s: Seq<char>, start: int, end: int)
    requires
        0 <= start <= end <= s.len(),
        forall|k: int| start <= k < end ==> !is_white(#[trigger] s[k]),
        end == s.len() || is_white(s[end]),
    ensures
        run_len(s.skip(start)) == end - start,
    decreases end - start,
{
    if start < end {
        assert(s.skip(start).drop_first() =~= s.skip(start + 1));
        lemma_run_len_exact(s, start + 1, end);
    } else if end < s.len() {
        assert(s.skip(start)[0] == s[end]);
    }
}

/// The words of `s`, each as its own string, in order.
pub fn split_whitespace(s: &str) -> (r: Vec<String>)
    ensures
        r@.map_values(|w: String| w@) == words(s@),
{
    let n = s.unicode_len();
    let mut out: Vec<String> = Vec::new();
    let mut i: usize = 0;
    proof {
        assert(s@.skip(0) =~= s@);
        assert(out@.map_values(|w: String| w@) + words(s@) =~= words(s@));
    }
    while i < n
        invariant
            n == s@.len(),
            i <= n,
            words(s@) == out@.map_values(|w: String| w@) + words(s@.skip(i as int)),
        decreases n - i,
    {
        if is_whitespace(s.get_char(i)) {
            proof {
                assert(s@.skip(i as int).drop_first() =~= s@.skip(i + 1));
            }
            i = i + 1;
        } else {
            let start = i;
            while i < n && !is_whitespace(s.get_char(i))
                invariant
                    n == s@.len(),
                    start <= i <= n,
                    forall|k: int| start <= k < i ==> !is_white(#[trigger] s@[k]),
                decreases n - i,
            {
                i = i + 1;
            }
            let w = s.substring_char(start, i).to_owned();
            proof {
                let rest = s@.skip(start as int);
                lemma_run_len_exact(s@, start as int, i as int);
                assert(rest.take(i - start) =~= w@);
                assert(rest.skip(i - start) =~= s@.skip(i as int));
                assert(out@.push(w).map_values(|w: String| w@) =~= out@.map_values(
                    |w: String| w@,
                ).push(w@));
            }
            out.push(w);
            i = i;
        }
    }
    proof {
        assert(out@.map_values(|w: String| w@) + words(s@.skip(n as int)) =~= out@.map_values(
            |w: String| w@,
        ));
    }
    out
}

} // verus!
