//! Whitespace tokenization of one raw line of the diagnostic stream.

use vstd::prelude::*;

verus! {

/// ASCII whitespace: the token separators honored by the line grammar.
pub open spec fn is_space(b: u8) -> bool {
    b == 32 || b == 9 || b == 10 || b == 11 || b == 12 || b == 13
}

/// End of the run of non-space bytes that starts at position `i`: the first
/// position at or after `i` holding a space, or the end of the line.
pub open spec fn run_end(s: Seq<u8>, i: int) -> int
    decreases s.len() - i,
{
    if i < 0 || i >= s.len() || is_space(s[i]) {
        i
    } else {
        run_end(s, i + 1)
    }
}

pub proof fn lemma_run_end_bounds(s: Seq<u8>, i: int)
    requires
        0 <= i <= s.len(),
    ensures
        i <= run_end(s, i) <= s.len(),
    decreases s.len() - i,
{
    if i < s.len() && !is_space(s[i]) {
        lemma_run_end_bounds(s, i + 1);
    }
}

/// The whitespace-separated tokens of `s` from position `i` on: each token is
/// a maximal run of non-space bytes, in line order.
pub open spec fn tokens_from(s: Seq<u8>, i: int) -> Seq<Seq<u8>>
    decreases s.len() - i,
    via tokens_from_decreases
{
    if i < 0 || i >= s.len() {
        Seq::empty()
    } else if is_space(s[i]) {
        tokens_from(s, i + 1)
    } else {
        seq![s.subrange(i, run_end(s, i))] + tokens_from(s, run_end(s, i))
    }
}

#[via_fn]
proof fn tokens_from_decreases(s: Seq<u8>, i: int) {
    if 0 <= i < s.len() && !is_space(s[i]) {
        lemma_run_end_bounds(s, i + 1);
    }
}

/// All whitespace-separated tokens of a line.
pub open spec fn tokens_of(s: Seq<u8>) -> Seq<Seq<u8>> {
    tokens_from(s, 0)
}

fn is_space_byte(b: u8) -> (r: bool)
    ensures
        r == is_space(b),
{
    b == 32 || b == 9 || b == 10 || b == 11 || b == 12 || b == 13
}

/// Splits a line into its whitespace-separated tokens.
pub fn split_tokens(line: &[u8]) -> (toks: Vec<Vec<u8>>)
    ensures
        toks@.map_values(|t: Vec<u8>| t@) == tokens_of(line@),
{
    let mut toks: Vec<Vec<u8>> = Vec::new();
    let mut i: usize = 0;
    while i < line.len()
        invariant
            i <= line@.len(),
            toks@.map_values(|t: Vec<u8>| t@) + tokens_from(line@, i as int) == tokens_of(
                line@,
            ),
        decreases line@.len() - i,
    {
        if is_space_byte(line[i]) {
            i = i + 1;
        } else {
            let start = i;
            let mut j = i;
            while j < line.len() && !is_space_byte(line[j])
                invariant
                    start <= j <= line@.len(),
                    run_end(line@, start as int) == run_end(line@, j as int),
                decreases line@.len() - j,
            {
                j = j + 1;
            }
            assert(j == run_end(line@, start as int));
            let tok = vstd::slice::slice_to_vec(vstd::slice::slice_subrange(line, start, j));
            let ghost prev = toks@;
            toks.push(tok);
            proof {
                assert(toks@.map_values(|t: Vec<u8>| t@) =~= prev.map_values(
                    |t: Vec<u8>| t@,
                ).push(tok@));
                assert(toks@.map_values(|t: Vec<u8>| t@) + tokens_from(line@, j as int)
                    =~= prev.map_values(|t: Vec<u8>| t@) + tokens_from(line@, start as int));
            }
            i = j;
        }
    }
    toks
}

} // verus!
