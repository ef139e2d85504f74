//! Production rules: for each symbol, weighted alternatives for its
//! replacement.
use vstd::prelude::*;

verus! {

/// The model of one alternative: the replacement and its weight.
pub type AltView = (Seq<char>, u8);

/// The model of a symbol's alternatives, in the order they were added.
pub open spec fn alts_view(v: Seq<(String, u8)>) -> Seq<AltView> {
    v.map_values(|a: (String, u8)| (a.0@, a.1))
}

/// Sum of the weights of a list of alternatives.
pub open spec fn weight_sum(alts: Seq<AltView>) -> nat
    decreases alts.len(),
{
    if alts.len() == 0 {
        0
    } else {
        weight_sum(alts.drop_last()) + alts.last().1 as nat
    }
}

/// What a rule set must hold for every symbol that has a rule: at least one
/// alternative, every weight positive, and a weight total that fits in `u8`.
pub open spec fn valid_alternatives(alts: Seq<AltView>) -> bool {
    &&& alts.len() > 0
    &&& forall|j: int| 0 <= j < alts.len() ==> #[trigger] alts[j].1 > 0
    &&& weight_sum(alts) <= u8::MAX
}

/// The alternatives of `c` in `m`; none where `c` has no rule.
pub open spec fn alternatives_of(m: Map<char, Seq<AltView>>, c: char) -> Seq<AltView> {
    if m.contains_key(c) {
        m[c]
    } else {
        Seq::empty()
    }
}

/// Why a rule could not be added.
#[derive(Clone, Copy, Debug, PartialEq, Eq, Structural)]
pub enum RuleError {
    /// A weight of zero: every alternative must be possible.
    ZeroWeight,
    /// The weights of the symbol's alternatives would sum past 255.
    WeightOverflow,
}

/// A mapping from symbols to weighted replacements. A symbol with no rule
/// stands for itself when rewriting.
pub struct RuleSet {
    entries: Vec<(char, Vec<(String, u8)>)>,
}

impl RuleSet {
    /// The rule set as a map from symbol to its alternatives.
    pub closed spec fn view(&self) -> Map<char, Seq<AltView>> {
        Map::new(
            |c: char| exists|i: int| 0 <= i < self.entries.len() && #[trigger] self.entries[i].0 == c,
            |c: char|
                alts_view(
                    self.entries[choose|i: int|
                        0 <= i < self.entries.len() && #[trigger] self.entries[i].0 == c].1@,
                ),
        )
    }

    /// No symbol has two entries.
    pub closed spec fn unique(&self) -> bool {
        forall|i: int, j: int|
            0 <= i < self.entries.len() && 0 <= j < self.entries.len() && i != j
                ==> #[trigger] self.entries[i].0 != #[trigger] self.entries[j].0
    }

    /// Well-formed: every symbol's alternatives are valid.
    pub open spec fn wf(&self) -> bool {
        &&& self.unique()
        &&& forall|c: char| #[trigger] self@.contains_key(c) ==> valid_alternatives(self@[c])
    }

    /// An empty rule set.
    pub fn new() -> (r: RuleSet)
        ensures
            r.wf(),
            r@ == Map::<char, Seq<AltView>>::empty(),
    {
        let r = RuleSet { entries: Vec::new() };
        assert(r@ =~= Map::<char, Seq<AltView>>::empty());
        r
    }

    /// With no symbol entered twice, the map holds at an entry's symbol
    /// exactly that entry's alternatives.
    proof fn lemma_view_at(&self, i: int)
        requires
            self.unique(),
            0 <= i < self.entries.len(),
        ensures
            self@.contains_key(self.entries[i].0),
            self@[self.entries[i].0] == alts_view(self.entries[i].1@),
    {
        let c = self.entries[i].0;
        assert(self.entries[i].0 == c);
        let k = choose|k: int| 0 <= k < self.entries.len() && #[trigger] self.entries[k].0 == c;
        assert(k == i);
    }

    /// Index of the entry for `c`, if there is one.
    fn find(&self, c: char) -> (r: Option<usize>)
        requires
            self.unique(),
        ensures
            match r {
                Some(i) => i < self.entries.len() && self.entries[i as int].0 == c,
                None => !self@.contains_key(c),
            },
    {
        let mut i: usize = 0;
        while i < self.entries.len()
            invariant
                i <= self.entries.len(),
                forall|k: int| 0 <= k < i ==> #[trigger] self.entries[k].0 != c,
            decreases self.entries.len() - i,
        {
            if self.entries[i].0 == c {
                return Some(i);
            }
            i = i + 1;
        }
        None
    }

    /// Whether `c` has a rule.
    pub fn contains(&self, c: char) -> (r: bool)
        requires
            self.wf(),
        ensures
            r == self@.contains_key(c),
    {
        match self.find(c) {
            Some(i) => {
                proof {
                    self.lemma_view_at(i as int);
                }
                true
            },
            None => false,
        }
    }

    /// The alternatives for `c`, or `None` where `c` has no rule.
    pub fn alternatives(&self, c: char) -> (r: Option<&Vec<(String, u8)>>)
        requires
            self.wf(),
        ensures
            match r {
                Some(v) => self@.contains_key(c) && alts_view(v@) == self@[c],
                None => !self@.contains_key(c),
            },
    {
        match self.find(c) {
            Some(i) => {
                proof {
                    self.lemma_view_at(i as int);
                }
                Some(&self.entries[i].1)
            },
            None => None,
        }
    }

    /// Sum of the weights of `alts`, which `valid_alternatives` bounds.
    fn total_weight(alts: &Vec<(String, u8)>) -> (r: u8)
        requires
            weight_sum(alts_view(alts@)) <= u8::MAX,
        ensures
            r == weight_sum(alts_view(alts@)),
    {
        let ghost whole = alts_view(alts@);
        let mut sum: u8 = 0;
        let mut j: usize = 0;
        while j < alts.len()
            invariant
                j <= alts.len(),
                whole == alts_view(alts@),
                weight_sum(whole) <= u8::MAX,
                sum == weight_sum(whole.take(j as int)),
            decreases alts.len() - j,
        {
            proof {
                assert(whole.take(j + 1).drop_last() =~= whole.take(j as int));
                lemma_weight_sum_prefix(whole, j + 1);
            }
            sum = sum + alts[j].1;
            j = j + 1;
        }
        assert(whole.take(j as int) =~= whole);
        sum
    }

    /// Adds `replacement` with `weight` as one more alternative of `symbol`.
    /// A zero weight, or one that takes the symbol's total past 255, is
    /// refused and leaves the rule set as it was.
    pub fn add(&mut self, symbol: char, replacement: String, weight: u8) -> (r: Result<(), RuleError>)
        requires
            old(self).wf(),
        ensures
            final(self).wf(),
            weight == 0 ==> r == Err::<(), RuleError>(RuleError::ZeroWeight),
            weight > 0 && weight_sum(alternatives_of(old(self)@, symbol)) + weight > u8::MAX
                ==> r == Err::<(), RuleError>(RuleError::WeightOverflow),
            r is Err ==> final(self)@ == old(self)@,
            r is Ok ==> final(self)@ == old(self)@.insert(
                symbol,
                alternatives_of(old(self)@, symbol).push((replacement@, weight)),
            ),
            weight > 0 && weight_sum(alternatives_of(old(self)@, symbol)) + weight <= u8::MAX
                ==> r is Ok,
    {
        if weight == 0 {
            return Err(RuleError::ZeroWeight);
        }
        let ghost before = self@;
        match self.find(symbol) {
            Some(i) => {
                proof {
                    self.lemma_view_at(i as int);
                }
                let sum = RuleSet::total_weight(&self.entries[i].1);
                if weight > 255 - sum {
                    return Err(RuleError::WeightOverflow);
                }
                let ghost old_entries = self.entries@;
                let (sym, mut alts) = self.entries.remove(i);
                let ghost old_alts = alts@;
                alts.push((replacement, weight));
                assert(alts_view(alts@) =~= alts_view(old_alts).push((replacement@, weight)));
                self.entries.insert(i, (sym, alts));
                assert(self.entries@ =~= old_entries.update(i as int, (sym, alts)));
                proof {
                    self.lemma_view_at(i as int);
                    let m = before.insert(symbol, alternatives_of(before, symbol).push((replacement@, weight)));
                    assert forall|c: char| self@.contains_key(c) <==> m.contains_key(c) by {
                        if m.contains_key(c) && c != symbol {
                            let k = choose|k: int| 0 <= k < old_entries.len() && #[trigger] old_entries[k].0 == c;
                            assert(self.entries[k].0 == c);
                        }
                        if self@.contains_key(c) && c != symbol {
                            let k = choose|k: int| 0 <= k < self.entries.len() && #[trigger] self.entries[k].0 == c;
                            assert(old_entries[k].0 == c);
                        }
                    }
                    assert forall|c: char| #[trigger] self@.contains_key(c) && c != symbol
                        implies self@[c] == before[c] by {
                        let k = choose|k: int| 0 <= k < self.entries.len() && #[trigger] self.entries[k].0 == c;
                        self.lemma_view_at(k);
                        assert(old_entries[k].0 == c);
                        assert(old_entries[k] == self.entries[k]);
                    }
                    assert(self@ =~= m);
                    lemma_weight_sum_push(alternatives_of(before, symbol), (replacement@, weight));
                }
                Ok(())
            },
            None => {
                let ghost old_entries = self.entries@;
                let mut alts: Vec<(String, u8)> = Vec::new();
                alts.push((replacement, weight));
                assert(alts_view(alts@) =~= seq![(replacement@, weight)]);
                self.entries.push((symbol, alts));
                proof {
                    let n = old_entries.len() as int;
                    self.lemma_view_at(n);
                    let m = before.insert(symbol, seq![(replacement@, weight)]);
                    assert forall|c: char| self@.contains_key(c) <==> m.contains_key(c) by {
                        if m.contains_key(c) && c != symbol {
                            let k = choose|k: int| 0 <= k < old_entries.len() && #[trigger] old_entries[k].0 == c;
                            assert(self.entries[k].0 == c);
                        }
                        if self@.contains_key(c) && c != symbol {
                            let k = choose|k: int| 0 <= k < self.entries.len() && #[trigger] self.entries[k].0 == c;
                            assert(old_entries[k].0 == c);
                        }
                    }
                    assert forall|c: char| #[trigger] self@.contains_key(c) && c != symbol
                        implies self@[c] == before[c] by {
                        let k = choose|k: int| 0 <= k < self.entries.len() && #[trigger] self.entries[k].0 == c;
                        self.lemma_view_at(k);
                        assert(old_entries[k] == self.entries[k]);
                    }
                    assert(self@ =~= m);
                    assert(alternatives_of(before, symbol).push((replacement@, weight)) =~= seq![(replacement@, weight)]);
                    lemma_weight_sum_push(Seq::<AltView>::empty(), (replacement@, weight));
                }
                Ok(())
            },
        }
    }
}

/// Adding one alternative adds its weight to the total.
pub proof fn lemma_weight_sum_push(alts: Seq<AltView>, a: AltView)
    ensures
        weight_sum(alts.push(a)) == weight_sum(alts) + a.1,
{
    assert(alts.push(a).drop_last() =~= alts);
}

/// The total of a prefix grows by the weight of the next alternative.
pub proof fn lemma_weight_sum_prefix(alts: Seq<AltView>, j: int)
    requires
        0 < j <= alts.len(),
    ensures
        weight_sum(alts.take(j)) == weight_sum(alts.take(j - 1)) + alts[j - 1].1,
        weight_sum(alts.take(j)) <= weight_sum(alts),
    decreases alts.len() - j,
{
    assert(alts.take(j).drop_last() =~= alts.take(j - 1));
    if j < alts.len() {
        lemma_weight_sum_prefix(alts, j + 1);
    } else {
        assert(alts.take(j) =~= alts);
    }
}

} // verus!
