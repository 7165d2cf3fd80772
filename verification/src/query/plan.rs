//! The query plan: a parsed query's terms, split by modifier into the
//! indices of required, excluded and scored (optional) terms.
use super::parser::{Modifier, ParsedTerm};
use vstd::prelude::*;

verus! {

/// The terms of a query with the indices of each kind of term.
#[derive(Debug, Clone)]
pub struct QueryPlan {
    pub terms: Vec<ParsedTerm>,
    pub required: Vec<usize>,
    pub excluded: Vec<usize>,
    pub scored: Vec<usize>,
}

/// The indices below `n`, in increasing order, of the terms that carry `m`.
pub open spec fn indices_with(terms: Seq<ParsedTerm>, m: Modifier, n: int) -> Seq<usize>
    decreases n,
{
    if n <= 0 {
        Seq::empty()
    } else if terms[n - 1].modifier == m {
        indices_with(terms, m, n - 1).push((n - 1) as usize)
    } else {
        indices_with(terms, m, n - 1)
    }
}

/// The indices that `indices_with` lists lie below `n`, increase strictly,
/// and are exactly the positions below `n` whose term carries `m`.
pub proof fn lemma_indices_with(terms: Seq<ParsedTerm>, m: Modifier, n: int)
    requires
        0 <= n <= terms.len(),
        terms.len() <= usize::MAX,
    ensures
        forall|k: int|
            0 <= k < indices_with(terms, m, n).len() ==> #[trigger] indices_with(terms, m, n)[k]
                < n && terms[indices_with(terms, m, n)[k] as int].modifier == m,
        forall|a: int, b: int|
            0 <= a < b < indices_with(terms, m, n).len() ==> #[trigger] indices_with(terms, m, n)[a]
                < #[trigger] indices_with(terms, m, n)[b],
        forall|j: int|
            0 <= j < n ==> (indices_with(terms, m, n).contains(j as usize) <==> #[trigger] terms[j].modifier
                == m),
    decreases n,
{
    if n > 0 {
        lemma_indices_with(terms, m, n - 1);
        let prev = indices_with(terms, m, n - 1);
        let cur = indices_with(terms, m, n);
        assert forall|j: int| 0 <= j < n implies (cur.contains(j as usize) <==> #[trigger] terms[j].modifier
            == m) by {
            if j < n - 1 {
                if terms[n - 1].modifier == m {
                    if cur.contains(j as usize) {
                        let k = choose|k: int| 0 <= k < cur.len() && cur[k] == j as usize;
                        if k < prev.len() {
                            assert(prev[k] == j as usize);
                        }
                    }
                    if prev.contains(j as usize) {
                        let k = choose|k: int| 0 <= k < prev.len() && prev[k] == j as usize;
                        assert(cur[k] == j as usize);
                    }
                }
            } else {
                if terms[n - 1].modifier == m {
                    assert(cur[cur.len() - 1] == j as usize);
                } else if cur.contains(j as usize) {
                    let k = choose|k: int| 0 <= k < cur.len() && cur[k] == j as usize;
                    assert(prev[k] < n - 1);
                }
            }
        }
    }
}

/// Law of `from_terms`: a term's index is listed as required, excluded or
/// scored exactly when the term carries that modifier, so every index of
/// the plan is in exactly one of the three lists; each list keeps the order
/// of the input.
pub proof fn law_from_terms_partitions(terms: Seq<ParsedTerm>, j: int)
    requires
        0 <= j < terms.len(),
        terms.len() <= usize::MAX,
    ensures
        indices_with(terms, Modifier::Required, terms.len() as int).contains(j as usize) <==> terms[j].modifier
            == Modifier::Required,
        indices_with(terms, Modifier::Excluded, terms.len() as int).contains(j as usize) <==> terms[j].modifier
            == Modifier::Excluded,
        indices_with(terms, Modifier::Optional, terms.len() as int).contains(j as usize) <==> terms[j].modifier
            == Modifier::Optional,
        indices_with(terms, Modifier::Required, terms.len() as int).contains(j as usize)
            || indices_with(terms, Modifier::Excluded, terms.len() as int).contains(j as usize)
            || indices_with(terms, Modifier::Optional, terms.len() as int).contains(j as usize),
        forall|m: Modifier, a: int, b: int|
            0 <= a < b < indices_with(terms, m, terms.len() as int).len() ==> #[trigger] indices_with(
                terms,
                m,
                terms.len() as int,
            )[a] < #[trigger] indices_with(terms, m, terms.len() as int)[b],
{
    let n = terms.len() as int;
    lemma_indices_with(terms, Modifier::Required, n);
    lemma_indices_with(terms, Modifier::Excluded, n);
    lemma_indices_with(terms, Modifier::Optional, n);
    assert forall|m: Modifier, a: int, b: int|
        0 <= a < b < indices_with(terms, m, n).len() implies #[trigger] indices_with(terms, m, n)[a]
            < #[trigger] indices_with(terms, m, n)[b] by {
        lemma_indices_with(terms, m, n);
    }
}

/// Law: the indices a plan built by `from_terms` searches (required, then
/// scored) never name an excluded term.
pub proof fn law_searched_terms_are_not_excluded(terms: Seq<ParsedTerm>, k: int)
    requires
        terms.len() <= usize::MAX,
        0 <= k < (indices_with(terms, Modifier::Required, terms.len() as int) + indices_with(
            terms,
            Modifier::Optional,
            terms.len() as int,
        )).len(),
    ensures
        terms[(indices_with(terms, Modifier::Required, terms.len() as int) + indices_with(
            terms,
            Modifier::Optional,
            terms.len() as int,
        ))[k] as int].modifier != Modifier::Excluded,
{
    let n = terms.len() as int;
    let r = indices_with(terms, Modifier::Required, n);
    lemma_indices_with(terms, Modifier::Required, n);
    lemma_indices_with(terms, Modifier::Optional, n);
    if k >= r.len() {
        assert((r + indices_with(terms, Modifier::Optional, n))[k] == indices_with(
            terms,
            Modifier::Optional,
            n,
        )[k - r.len()]);
    }
}

/// The patterns of the terms at `idx`, in order.
pub open spec fn patterns_at(terms: Seq<ParsedTerm>, idx: Seq<usize>) -> Seq<Seq<char>> {
    idx.map_values(|i: usize| terms[i as int].pattern@)
}

/// Law: `patterns_at` gives one pattern per index, the pattern of the term
/// at that index, whatever the modifiers of the terms.
pub proof fn law_patterns_at(terms: Seq<ParsedTerm>, idx: Seq<usize>)
    ensures
        patterns_at(terms, idx).len() == idx.len(),
        forall|k: int|
            0 <= k < idx.len() ==> #[trigger] patterns_at(terms, idx)[k]
                == terms[idx[k] as int].pattern@,
{
}

impl QueryPlan {
    /// Every index lists a term of the plan.
    pub open spec fn indices_in_bounds(&self) -> bool {
        &&& forall|k: int| 0 <= k < self.required@.len() ==> #[trigger] self.required@[k] < self.terms@.len()
        &&& forall|k: int| 0 <= k < self.scored@.len() ==> #[trigger] self.scored@[k] < self.terms@.len()
    }

    /// Builds the plan of `terms`: the indices of the required, excluded and
    /// optional terms, each in increasing order.
    pub fn from_terms(terms: Vec<ParsedTerm>) -> (plan: Self)
        ensures
            plan.terms@ == terms@,
            plan.required@ == indices_with(terms@, Modifier::Required, terms@.len() as int),
            plan.excluded@ == indices_with(terms@, Modifier::Excluded, terms@.len() as int),
            plan.scored@ == indices_with(terms@, Modifier::Optional, terms@.len() as int),
            plan.indices_in_bounds(),
    {
        let mut required: Vec<usize> = Vec::new();
        let mut excluded: Vec<usize> = Vec::new();
        let mut scored: Vec<usize> = Vec::new();
        let n = terms.len();
        let mut i: usize = 0;
        while i < n
            invariant
                i <= n,
                n == terms@.len(),
                required@ == indices_with(terms@, Modifier::Required, i as int),
                excluded@ == indices_with(terms@, Modifier::Excluded, i as int),
                scored@ == indices_with(terms@, Modifier::Optional, i as int),
            decreases n - i,
        {
            let m = &terms[i].modifier;
            if *m == Modifier::Required {
                required.push(i);
            } else if *m == Modifier::Excluded {
                excluded.push(i);
            } else {
                scored.push(i);
            }
            i = i + 1;
        }
        proof {
            lemma_indices_with(terms@, Modifier::Required, n as int);
            lemma_indices_with(terms@, Modifier::Optional, n as int);
        }
        Self { terms, required, excluded, scored }
    }

    /// Whether the plan holds no term at all.
    pub fn is_empty(&self) -> (b: bool)
        ensures
            b == (self.terms@.len() == 0),
    {
        self.terms.is_empty()
    }

    /// The patterns to search for: those of the required terms, then those of
    /// the scored terms, each in index order. Excluded terms are not searched.
    pub fn search_patterns(&self) -> (pats: Vec<&str>)
        requires
            self.indices_in_bounds(),
        ensures
            pats@.map_values(|p: &str| p@) == patterns_at(self.terms@, self.required@)
                + patterns_at(self.terms@, self.scored@),
            pats@.len() == self.required@.len() + self.scored@.len(),
            forall|k: int|
                0 <= k < self.required@.len() ==> (#[trigger] pats@[k])@
                    == self.terms@[self.required@[k] as int].pattern@,
            forall|k: int|
                0 <= k < self.scored@.len() ==> (#[trigger] pats@[self.required@.len() + k])@
                    == self.terms@[self.scored@[k] as int].pattern@,
    {
        let mut pats: Vec<&str> = Vec::new();
        let mut k: usize = 0;
        while k < self.required.len()
            invariant
                self.indices_in_bounds(),
                k <= self.required@.len(),
                pats@.map_values(|p: &str| p@) == patterns_at(
                    self.terms@,
                    self.required@.take(k as int),
                ),
            decreases self.required@.len() - k,
        {
            let i = self.required[k];
            let ghost prev = pats@;
            let p = self.terms[i].pattern.as_str();
            pats.push(p);
            proof {
                assert(pats@.map_values(|p: &str| p@) =~= prev.map_values(|p: &str| p@).push(
                    self.terms@[i as int].pattern@,
                ));
                assert(self.required@.take(k + 1) =~= self.required@.take(k as int).push(i));
                assert(pats@.map_values(|p: &str| p@) =~= patterns_at(
                    self.terms@,
                    self.required@.take(k + 1),
                ));
            }
            k = k + 1;
        }
        assert(self.required@.take(k as int) =~= self.required@);
        let mut k: usize = 0;
        while k < self.scored.len()
            invariant
                self.indices_in_bounds(),
                k <= self.scored@.len(),
                pats@.map_values(|p: &str| p@) == patterns_at(self.terms@, self.required@)
                    + patterns_at(self.terms@, self.scored@.take(k as int)),
            decreases self.scored@.len() - k,
        {
            let i = self.scored[k];
            let ghost prev = pats@;
            let p = self.terms[i].pattern.as_str();
            pats.push(p);
            proof {
                assert(pats@.map_values(|p: &str| p@) =~= prev.map_values(|p: &str| p@).push(
                    self.terms@[i as int].pattern@,
                ));
                assert(self.scored@.take(k + 1) =~= self.scored@.take(k as int).push(i));
                assert(pats@.map_values(|p: &str| p@) =~= patterns_at(self.terms@, self.required@)
                    + patterns_at(self.terms@, self.scored@.take(k + 1)));
            }
            k = k + 1;
        }
        assert(self.scored@.take(k as int) =~= self.scored@);
        proof {
            let r = self.required@;
            let v = pats@.map_values(|p: &str| p@);
            assert(v.len() == pats@.len());
            assert forall|j: int| 0 <= j < r.len() implies (#[trigger] pats@[j])@
                == self.terms@[r[j] as int].pattern@ by {
                assert(v[j] == pats@[j]@);
            }
            assert forall|j: int| 0 <= j < self.scored@.len() implies (#[trigger] pats@[r.len()
                + j])@ == self.terms@[self.scored@[j] as int].pattern@ by {
                assert(v[r.len() + j] == pats@[r.len() + j]@);
            }
        }
        pats
    }
}

} // verus!
