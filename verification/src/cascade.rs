//! The style set: the ordered list of style rules the cascade consults.
//!
//! Parsing CSS and matching selectors happen outside this crate; here a rule
//! is its selector's specificity plus an identifier for its declaration
//! block. Finishing the set sorts the rules by specificity with a stable
//! sort, so document order is preserved for rules of equal specificity —
//! that tie-break is what the cascade depends on.

use vstd::prelude::*;

verus! {

/// One style rule: its selector's specificity and the caller's identifier
/// for its declaration block.
#[derive(Clone, Copy, Debug, PartialEq, Eq, Structural)]
pub struct StyleRule {
    pub specificity: u64,
    pub block: u64,
}

/// The rules of all stylesheets seen so far, sorted by `finish`.
pub struct StyleSet {
    pub rules: Vec<StyleRule>,
}

/// Accumulates rules in document order until `finish` sorts them.
pub struct StyleSetBuilder(pub StyleSet);

/// Insert `x` behind every rule of equal or lower specificity: the position
/// a stable insertion sort gives a rule that appears last in document
/// order.
pub open spec fn spec_insert_rule(s: Seq<StyleRule>, x: StyleRule) -> Seq<StyleRule>
    decreases s.len(),
{
    if s.len() == 0 {
        seq![x]
    } else if x.specificity < s.last().specificity {
        spec_insert_rule(s.drop_last(), x).push(s.last())
    } else {
        s.push(x)
    }
}

/// The stable sort of the rules by specificity.
pub open spec fn spec_stable_sort(s: Seq<StyleRule>) -> Seq<StyleRule>
    decreases s.len(),
{
    if s.len() == 0 {
        Seq::empty()
    } else {
        spec_insert_rule(spec_stable_sort(s.drop_last()), s.last())
    }
}

pub open spec fn rules_sorted(s: Seq<StyleRule>) -> bool {
    forall|i: int, j: int|
        0 <= i < j < s.len() ==> (#[trigger] s[i]).specificity <= (#[trigger] s[j]).specificity
}

/// Inserting into a sorted list keeps it sorted.
proof fn lemma_insert_rule_sorted(s: Seq<StyleRule>, x: StyleRule)
    requires
        rules_sorted(s),
    ensures
        rules_sorted(spec_insert_rule(s, x)),
        spec_insert_rule(s, x).len() == s.len() + 1,
        forall|i: int|
            0 <= i < spec_insert_rule(s, x).len() ==> (#[trigger] spec_insert_rule(s, x)[i]).specificity
                <= max_spec(s, x),
    decreases s.len(),
{
    let r = spec_insert_rule(s, x);
    if s.len() == 0 {
    } else if x.specificity < s.last().specificity {
        assert(rules_sorted(s.drop_last())) by {
            assert forall|i: int, j: int|
                0 <= i < j < s.drop_last().len() implies (
            #[trigger] s.drop_last()[i]).specificity <= (
            #[trigger] s.drop_last()[j]).specificity by {
                assert(s[i].specificity <= s[j].specificity);
            }
        }
        lemma_insert_rule_sorted(s.drop_last(), x);
        let inner = spec_insert_rule(s.drop_last(), x);
        assert forall|i: int, j: int| 0 <= i < j < r.len() implies (#[trigger] r[i]).specificity
            <= (#[trigger] r[j]).specificity by {
            if j < inner.len() {
                assert(r[i] == inner[i] && r[j] == inner[j]);
            } else {
                assert(r[j] == s.last());
                if i < inner.len() {
                    assert(r[i] == inner[i]);
                    assert(inner[i].specificity <= max_spec(s.drop_last(), x));
                    assert(max_spec(s.drop_last(), x) <= s.last().specificity) by {
                        if s.drop_last().len() > 0 {
                            assert(s.drop_last()[s.len() - 2] == s[s.len() - 2]);
                            assert(s[s.len() - 2].specificity <= s.last().specificity);
                        }
                    }
                }
            }
        }
    } else {
    }
}

/// The largest specificity among `s` and `x`.
pub open spec fn max_spec(s: Seq<StyleRule>, x: StyleRule) -> u64 {
    if s.len() == 0 {
        x.specificity
    } else if s.last().specificity >= x.specificity {
        s.last().specificity
    } else {
        x.specificity
    }
}

/// The stable sort sorts.
pub proof fn lemma_stable_sort_sorted(s: Seq<StyleRule>)
    ensures
        rules_sorted(spec_stable_sort(s)),
    decreases s.len(),
{
    if s.len() > 0 {
        lemma_stable_sort_sorted(s.drop_last());
        lemma_insert_rule_sorted(spec_stable_sort(s.drop_last()), s.last());
    }
}

/// Where the exec insertion loop stops is where `spec_insert_rule` puts the
/// new rule.
proof fn lemma_insert_rule_at(s: Seq<StyleRule>, x: StyleRule, j: int)
    requires
        0 <= j <= s.len(),
        forall|k: int| j <= k < s.len() ==> x.specificity < (#[trigger] s[k]).specificity,
        j > 0 ==> !(x.specificity < s[j - 1].specificity),
    ensures
        spec_insert_rule(s, x) == s.take(j).push(x) + s.skip(j),
    decreases s.len(),
{
    if s.len() == 0 {
        assert(spec_insert_rule(s, x) =~= s.take(j).push(x) + s.skip(j));
    } else if j == s.len() {
        assert(spec_insert_rule(s, x) == s.push(x));
        assert(s.push(x) =~= s.take(j).push(x) + s.skip(j));
    } else {
        assert(x.specificity < s.last().specificity);
        lemma_insert_rule_at(s.drop_last(), x, j);
        assert(s.drop_last().take(j) =~= s.take(j));
        assert(spec_insert_rule(s, x) == spec_insert_rule(s.drop_last(), x).push(s.last()));
        assert((s.take(j).push(x) + s.drop_last().skip(j)).push(s.last()) =~= s.take(j).push(x)
            + s.skip(j));
    }
}

impl StyleSetBuilder {
    /// An empty style set under construction.
    pub fn new() -> (r: StyleSetBuilder)
        ensures
            r.0.rules@.len() == 0,
    {
        StyleSetBuilder(StyleSet { rules: Vec::new() })
    }

    /// Record one rule, in document order.
    pub fn push_rule(&mut self, specificity: u64, block: u64)
        ensures
            final(self).0.rules@ == old(self).0.rules@.push(StyleRule { specificity, block }),
    {
        self.0.rules.push(StyleRule { specificity, block });
    }

    /// Sort the rules by specificity. Sort stability preserves document
    /// order for rules of equal specificity.
    pub fn finish(self) -> (r: StyleSet)
        ensures
            r.rules@ == spec_stable_sort(self.0.rules@),
            rules_sorted(r.rules@),
    {
        let StyleSetBuilder(set) = self;
        let rules = set.rules;
        let ghost all = rules@;
        let mut sorted: Vec<StyleRule> = Vec::new();
        let mut i: usize = 0;
        while i < rules.len()
            invariant
                i <= all.len(),
                rules@ == all,
                sorted@ == spec_stable_sort(all.take(i as int)),
                rules_sorted(sorted@),
            decreases all.len() - i,
        {
            let x = rules[i];
            let mut j: usize = sorted.len();
            while j > 0 && x.specificity < sorted[j - 1].specificity
                invariant
                    j <= sorted@.len(),
                    forall|k: int|
                        j <= k < sorted@.len() ==> x.specificity < (
                        #[trigger] sorted@[k]).specificity,
                decreases j,
            {
                j -= 1;
            }
            let ghost prev_sorted = sorted@;
            proof {
                lemma_insert_rule_at(prev_sorted, x, j as int);
                lemma_insert_rule_sorted(prev_sorted, x);
            }
            sorted.insert(j, x);
            proof {
                assert(sorted@ =~= prev_sorted.take(j as int).push(x) + prev_sorted.skip(j as int));
                assert(sorted@ == spec_insert_rule(prev_sorted, x));
                assert(all.take(i + 1).drop_last() =~= all.take(i as int));
                assert(all.take(i + 1).last() == all[i as int]);
                assert(sorted@ == spec_stable_sort(all.take(i + 1)));
            }
            i += 1;
        }
        proof {
            assert(all.take(all.len() as int) =~= all);
        }
        StyleSet { rules: sorted }
    }
}

impl StyleSet {
    /// How many rules the set holds.
    pub fn len(&self) -> (r: usize)
        ensures
            r == self.rules@.len(),
    {
        self.rules.len()
    }

    /// The rule at `index`, in cascade order.
    pub fn rule_at(&self, index: usize) -> (r: StyleRule)
        requires
            index < self.rules@.len(),
        ensures
            r == self.rules@[index as int],
    {
        self.rules[index]
    }
}

} // verus!
