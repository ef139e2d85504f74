//! An L-system: a start string, its rules, and the seeded generator that
//! picks among weighted alternatives.
use vstd::prelude::*;

use rand::seq::SliceRandom;
use rand_chacha::rand_core::SeedableRng;

use crate::drawing::{initial_walk, walk, walk_from, Diagnostic, Drawing, Walk};
use crate::rewrite::{
    deterministic, derives, expansion_of, fixed_replacement, iterate_fixed, lemma_fixed_step, may_expand, rewrites_to,
    step_fixed,
};
use crate::rules::{alternatives_of, alts_view, weight_sum, RuleSet};
use crate::turtle::Turtle;

verus! {

#[verifier::external_type_specification]
#[verifier::external_body]
pub struct ExChaCha12Rng(rand_chacha::ChaCha12Rng);

#[verifier::external_type_specification]
#[verifier::external_body]
pub struct ExWeightedError(rand::distributions::WeightedError);

/// Relies on rand_chacha's `ChaCha12Rng` through `SeedableRng::seed_from_u64`:
/// a generator whose whole stream is fixed by the seed.
#[verifier::external_body]
fn seeded_rng(seed: u64) -> rand_chacha::ChaCha12Rng {
    rand_chacha::ChaCha12Rng::seed_from_u64(seed)
}

/// Relies on rand's `SliceRandom::choose_weighted` (rand 0.8): it builds a
/// `WeightedIndex` from the weights and returns the item at the sampled
/// index, which falls in a weight's own interval of `[0, total)`, so an item
/// of weight zero is never returned. It fails only on an empty slice or when
/// every weight is zero. It sums the `u8` weights in `u8`, which `requires`
/// keeps from overflowing.
#[verifier::external_body]
fn choose_replacement(
    alts: &Vec<(String, u8)>,
    rng: &mut rand_chacha::ChaCha12Rng,
) -> (r: Result<String, rand::distributions::WeightedError>)
    requires
        weight_sum(alts_view(alts@)) <= u8::MAX,
    ensures
        r is Ok ==> exists|j: int|
            0 <= j < alts.len() && alts[j].1 > 0 && r->Ok_0@ == #[trigger] alts[j].0@,
        r is Err ==> alts.len() == 0 || forall|j: int| 0 <= j < alts.len() ==> #[trigger] alts[j].1 == 0,
{
    alts.choose_weighted(rng, |a| a.1).map(|a| a.0.clone())
}

/// Relies on `String::push`: the character is appended.
#[verifier::external_body]
fn push_char(s: &mut String, c: char)
    ensures
        final(s)@ == old(s)@.push(c),
{
    s.push(c)
}

/// A grammar ready to rewrite: start string, rules, the symbol that neither
/// draws nor turns, and a seeded generator for weighted choices.
pub struct LSystem {
    pub start: String,
    pub rules: RuleSet,
    /// A symbol that the turtle skips even where it has a rule; it usually
    /// marks where branches grow.
    pub marker: Option<char>,
    /// The generator behind every weighted choice; a grammar rebuilt with
    /// the same seed makes the same choices.
    pub rng: rand_chacha::ChaCha12Rng,
}

impl LSystem {
    /// The rules are well formed.
    pub open spec fn wf(&self) -> bool {
        self.rules.wf()
    }

    /// A grammar over `start` and `rules`, with `'X'` as the skipped marker
    /// and a generator seeded by `seed`.
    pub fn new(start: &str, rules: RuleSet, seed: u64) -> (r: LSystem)
        requires
            rules.wf(),
        ensures
            r.wf(),
            r.start@ == start@,
            r.rules == rules,
            r.marker == Some('X'),
    {
        LSystem { start: start.to_owned(), rules, marker: Some('X'), rng: seeded_rng(seed) }
    }

    /// One generation: every symbol of `input` is replaced, left to right,
    /// by one of its alternatives (drawn by weight), or kept where it has no
    /// rule. Only the generator changes.
    pub fn rewrite(&mut self, input: &String) -> (r: String)
        requires
            old(self).wf(),
        ensures
            final(self).wf(),
            final(self).start == old(self).start,
            final(self).rules == old(self).rules,
            final(self).marker == old(self).marker,
            rewrites_to(old(self).rules@, input@, r@),
            deterministic(old(self).rules@) ==> r@ == step_fixed(old(self).rules@, input@),
    {
        let ghost rules = self.rules@;
        let mut res = String::new();
        let ghost mut pieces: Seq<Seq<char>> = Seq::empty();
        for c in it: input.chars()
            invariant
                self.wf(),
                self.rules@ == rules,
                self.start == old(self).start,
                self.rules == old(self).rules,
                self.marker == old(self).marker,
                it.seq() == input@,
                expansion_of(rules, it.seq().take(it.index() as int), pieces),
                res@ == pieces.flatten(),
        {
            let ghost i = it.index() as int;
            let ghost before = pieces;
            assert(it.seq()[i] == c);
            let piece = self.expand(c);
            res.append(piece.as_str());
            proof {
                pieces = pieces.push(piece@);
                assert(pieces.drop_last() =~= before);
                Seq::lemma_flatten_push(before, piece@);
                let done = it.seq().take(i + 1);
                assert forall|k: int| 0 <= k < done.len() implies may_expand(
                    rules,
                    done[k],
                    #[trigger] pieces[k],
                ) by {
                    if k < i {
                        assert(done[k] == it.seq().take(i)[k]);
                    }
                }
            }
        }
        proof {
            assert(input@.take(input@.len() as int) =~= input@);
            if deterministic(rules) {
                lemma_fixed_step(rules, input@, res@);
            }
        }
        res
    }

    /// The replacement of one symbol: the symbol itself where it has no
    /// rule, its replacement where it has one alternative, and otherwise an
    /// alternative drawn with probability proportional to its weight.
    pub fn expand(&mut self, c: char) -> (r: String)
        requires
            old(self).wf(),
        ensures
            final(self).wf(),
            final(self).start == old(self).start,
            final(self).rules == old(self).rules,
            final(self).marker == old(self).marker,
            may_expand(old(self).rules@, c, r@),
            alternatives_of(old(self).rules@, c).len() <= 1 ==> r@ == fixed_replacement(
                old(self).rules@,
                c,
            ),
    {
        let ghost rules = self.rules@;
        match self.rules.alternatives(c) {
            Some(alts) => {
                match choose_replacement(alts, &mut self.rng) {
                    Ok(s) => {
                        proof {
                            let j = choose|j: int|
                                0 <= j < alts.len() && alts[j].1 > 0 && s@ == #[trigger] alts[j].0@;
                            assert(alts_view(alts@)[j] == (alts[j].0@, alts[j].1));
                        }
                        s
                    },
                    Err(_) => {
                        proof {
                            assert(alts_view(alts@)[0].1 > 0);
                        }
                        String::new()
                    },
                }
            },
            None => {
                let mut s = String::new();
                push_char(&mut s, c);
                assert(s@ =~= seq![c]);
                s
            },
        }
    }

    /// The string after `n` generations from the start string: the start
    /// string itself when `n` is zero.
    pub fn generate(&mut self, n: u32) -> (r: String)
        requires
            old(self).wf(),
        ensures
            final(self).wf(),
            final(self).start == old(self).start,
            final(self).rules == old(self).rules,
            final(self).marker == old(self).marker,
            derives(old(self).rules@, old(self).start@, n as nat, r@),
            n == 0 ==> r@ == old(self).start@,
            deterministic(old(self).rules@) ==> r@ == iterate_fixed(
                old(self).rules@,
                old(self).start@,
                n as nat,
            ),
    {
        let ghost rules = self.rules@;
        let mut command = self.start.clone();
        for g in 0..n
            invariant
                self.wf(),
                self.rules@ == rules,
                self.start == old(self).start,
                self.rules == old(self).rules,
                self.marker == old(self).marker,
                derives(rules, self.start@, g as nat, command@),
                deterministic(rules) ==> command@ == iterate_fixed(rules, self.start@, g as nat),
        {
            let ghost mid = command@;
            command = self.rewrite(&command);
            assert(derives(rules, self.start@, (g + 1) as nat, command@)) by {
                assert(derives(rules, self.start@, g as nat, mid) && rewrites_to(rules, mid, command@));
            }
        }
        command
    }

    /// Walks the turtle over `input`: the marker is skipped, a symbol with a
    /// rule steps forward, `+` and `-` turn, `[` and `]` save and restore,
    /// and every `]` that restores opens a new polyline.
    pub fn calc_points(&self, input: &String) -> (r: Drawing)
        requires
            self.wf(),
            input@.len() <= i64::MAX,
            input@.len() <= usize::MAX,
        ensures
            r.shows(self.rules@.dom(), self.marker, input@),
            r.wf(),
    {
        let ghost draws = self.rules@.dom();
        let ghost marker = self.marker;
        let mut turtle = Turtle::new();
        let mut closed: Vec<Vec<usize>> = Vec::new();
        let mut current: Vec<usize> = Vec::new();
        current.push(turtle.curr());
        let mut diagnostics: Vec<Diagnostic> = Vec::new();
        let mut at: usize = 0;
        assert(input@.take(0) =~= Seq::<char>::empty());
        assert(closed@.map_values(|p: Vec<usize>| p@).push(current@) =~= seq![seq![0usize]]);
        for c in it: input.chars()
            invariant
                self.wf(),
                draws == self.rules@.dom(),
                marker == self.marker,
                it.seq() == input@,
                input@.len() <= i64::MAX,
                input@.len() <= usize::MAX,
                at == it.index(),
                walk_from(draws, marker, initial_walk(), 0, input@.take(at as int)) == (Walk {
                    pen: turtle@,
                    polylines: closed@.map_values(|p: Vec<usize>| p@).push(current@),
                    diagnostics: diagnostics@,
                }),
                -(at as int) <= turtle@.heading <= at,
                turtle@.steps.len() <= at,
                turtle@.position <= turtle@.steps.len(),
                forall|k: int|
                    0 <= k < turtle@.stack.len() ==> -(at as int) <= #[trigger] turtle@.stack[k].head
                        <= at && turtle@.stack[k].pos <= turtle@.steps.len(),
                forall|k: int| 0 <= k < turtle@.steps.len() ==> #[trigger] turtle@.steps[k].from <= k,
                current.len() > 0,
                forall|v: int| 0 <= v < current.len() ==> #[trigger] current[v] <= turtle@.steps.len(),
                forall|l: int| 0 <= l < closed.len() ==> #[trigger] closed[l].len() > 0,
                forall|l: int, v: int|
                    0 <= l < closed.len() && 0 <= v < closed[l].len() ==> #[trigger] closed[l][v]
                        <= turtle@.steps.len(),
        {
            let ghost w = Walk {
                pen: turtle@,
                polylines: closed@.map_values(|p: Vec<usize>| p@).push(current@),
                diagnostics: diagnostics@,
            };
            let ghost prev_current = current@;
            let ghost prev_closed = closed@;
            let skip = match self.marker {
                Some(m) => m == c,
                None => false,
            };
            if skip {
            } else if self.rules.contains(c) {
                let v = turtle.fd();
                current.push(v);
                assert(closed@.map_values(|p: Vec<usize>| p@).push(current@) =~= w.polylines.update(
                    w.polylines.len() - 1,
                    w.polylines.last().push(v),
                ));
            } else if c == '+' {
                turtle.left();
            } else if c == '-' {
                turtle.right();
            } else if c == '[' {
                turtle.push();
            } else if c == ']' {
                match turtle.pop() {
                    Some(v) => {
                        let mut fresh: Vec<usize> = Vec::new();
                        fresh.push(v);
                        closed.push(current);
                        current = fresh;
                        assert(closed@.map_values(|p: Vec<usize>| p@).push(current@) =~= w.polylines.push(
                            seq![v],
                        ));
                    },
                    None => {
                        diagnostics.push(Diagnostic::EmptyStack { at });
                    },
                }
            } else {
                diagnostics.push(Diagnostic::Unrecognized { at, symbol: c });
            }
            proof {
                assert forall|k: int| 0 <= k < turtle@.stack.len() implies -(at + 1) <= #[trigger] turtle@.stack[k].head
                    <= at + 1 && turtle@.stack[k].pos <= turtle@.steps.len() by {
                    if k < w.pen.stack.len() {
                        assert(turtle@.stack[k] == w.pen.stack[k]);
                    }
                }
                let next = input@.take(at + 1);
                assert(next.drop_last() =~= input@.take(at as int));
                assert(next.last() == c);
            }
            at = at + 1;
        }
        let ghost lines = closed@.map_values(|p: Vec<usize>| p@).push(current@);
        closed.push(current);
        proof {
            assert(input@.take(input@.len() as int) =~= input@);
            assert(closed@.map_values(|p: Vec<usize>| p@) =~= lines);
        }
        Drawing { steps: turtle.into_steps(), polylines: closed, diagnostics }
    }

    /// Rewrites the start string `n` times and walks the turtle over the
    /// result. Fails only where that result holds more than `i64::MAX`
    /// symbols, more turns than a heading can count.
    pub fn draw(&mut self, n: u32) -> (r: Option<Drawing>)
        requires
            old(self).wf(),
        ensures
            final(self).wf(),
            final(self).start == old(self).start,
            final(self).rules == old(self).rules,
            final(self).marker == old(self).marker,
            match r {
                Some(d) => d.wf() && exists|s: Seq<char>|
                    derives(old(self).rules@, old(self).start@, n as nat, s) && d.shows(
                        old(self).rules@.dom(),
                        old(self).marker,
                        s,
                    ),
                None => exists|s: Seq<char>|
                    derives(old(self).rules@, old(self).start@, n as nat, s) && s.len() > i64::MAX,
            },
            r is Some && deterministic(old(self).rules@) ==> r->Some_0.shows(
                old(self).rules@.dom(),
                old(self).marker,
                iterate_fixed(old(self).rules@, old(self).start@, n as nat),
            ),
    {
        let command = self.generate(n);
        let len = command.as_str().unicode_len();
        if len as u64 > i64::MAX as u64 {
            return None;
        }
        let d = self.calc_points(&command);
        Some(d)
    }
}

} // verus!
