//! What one rewriting step may produce, and what `n` steps may produce.
use vstd::prelude::*;

use crate::rules::{alternatives_of, AltView};

verus! {

/// Whether `piece` is a replacement that one step may give the symbol `c`:
/// `c` itself where `c` has no alternatives, else one of its alternatives
/// of positive weight.
pub open spec fn may_expand(rules: Map<char, Seq<AltView>>, c: char, piece: Seq<char>) -> bool {
    let alts = alternatives_of(rules, c);
    if alts.len() == 0 {
        piece == seq![c]
    } else {
        exists|j: int| 0 <= j < alts.len() && alts[j].1 > 0 && piece == alts[j].0
    }
}

/// `pieces` holds, for each symbol of `input` in order, a replacement it may
/// take.
pub open spec fn expansion_of(
    rules: Map<char, Seq<AltView>>,
    input: Seq<char>,
    pieces: Seq<Seq<char>>,
) -> bool {
    &&& pieces.len() == input.len()
    &&& forall|i: int| 0 <= i < input.len() ==> may_expand(rules, input[i], #[trigger] pieces[i])
}

/// One generation: `output` is the concatenation, in order, of one
/// replacement for each symbol of `input`.
pub open spec fn rewrites_to(rules: Map<char, Seq<AltView>>, input: Seq<char>, output: Seq<char>) -> bool {
    exists|pieces: Seq<Seq<char>>| expansion_of(rules, input, pieces) && output == pieces.flatten()
}

/// `output` can be reached from `input` in exactly `n` generations.
pub open spec fn derives(rules: Map<char, Seq<AltView>>, input: Seq<char>, n: nat, output: Seq<char>) -> bool
    decreases n,
{
    if n == 0 {
        output == input
    } else {
        exists|mid: Seq<char>| derives(rules, input, (n - 1) as nat, mid) && rewrites_to(rules, mid, output)
    }
}

/// Every symbol that has a rule has exactly one alternative.
pub open spec fn deterministic(rules: Map<char, Seq<AltView>>) -> bool {
    forall|c: char| #[trigger] rules.contains_key(c) ==> rules[c].len() == 1
}

/// The replacement of `c` when it has at most one alternative.
pub open spec fn fixed_replacement(rules: Map<char, Seq<AltView>>, c: char) -> Seq<char> {
    let alts = alternatives_of(rules, c);
    if alts.len() == 0 {
        seq![c]
    } else {
        alts[0].0
    }
}

/// One generation under a deterministic rule set.
pub open spec fn step_fixed(rules: Map<char, Seq<AltView>>, input: Seq<char>) -> Seq<char> {
    input.flat_map(|c: char| fixed_replacement(rules, c))
}

/// `n` generations under a deterministic rule set.
pub open spec fn iterate_fixed(rules: Map<char, Seq<AltView>>, input: Seq<char>, n: nat) -> Seq<char>
    decreases n,
{
    if n == 0 {
        input
    } else {
        step_fixed(rules, iterate_fixed(rules, input, (n - 1) as nat))
    }
}

/// Under a deterministic rule set, the one generation that `input` may take
/// is `step_fixed`.
pub proof fn lemma_fixed_step(rules: Map<char, Seq<AltView>>, input: Seq<char>, output: Seq<char>)
    requires
        deterministic(rules),
        rewrites_to(rules, input, output),
    ensures
        output == step_fixed(rules, input),
    decreases input.len(),
{
    let pieces = choose|pieces: Seq<Seq<char>>| expansion_of(rules, input, pieces) && output == pieces.flatten();
    let f = |c: char| fixed_replacement(rules, c);
    assert(pieces =~= input.map_values(f)) by {
        assert forall|i: int| 0 <= i < input.len() implies pieces[i] == f(input[i]) by {
            assert(may_expand(rules, input[i], pieces[i]));
        }
    }
    assert(input.flat_map(f) == input.map_values(f).flatten());
}

/// Rewriting under a deterministic rule set is a function of its input: any
/// two results of one generation are equal.
pub proof fn lemma_deterministic_step_unique(
    rules: Map<char, Seq<AltView>>,
    input: Seq<char>,
    out1: Seq<char>,
    out2: Seq<char>,
)
    requires
        deterministic(rules),
        rewrites_to(rules, input, out1),
        rewrites_to(rules, input, out2),
    ensures
        out1 == out2,
{
    lemma_fixed_step(rules, input, out1);
    lemma_fixed_step(rules, input, out2);
}

/// Under a deterministic rule set, `n` generations from a start string give
/// one result only: `iterate_fixed`.
pub proof fn lemma_deterministic_derivation(
    rules: Map<char, Seq<AltView>>,
    start: Seq<char>,
    n: nat,
    output: Seq<char>,
)
    requires
        deterministic(rules),
        derives(rules, start, n, output),
    ensures
        output == iterate_fixed(rules, start, n),
    decreases n,
{
    if n > 0 {
        let mid = choose|mid: Seq<char>| derives(rules, start, (n - 1) as nat, mid) && rewrites_to(rules, mid, output);
        lemma_deterministic_derivation(rules, start, (n - 1) as nat, mid);
        lemma_fixed_step(rules, mid, output);
    }
}

} // verus!
