//! The set of results of a search: the constraints found, each once, or
//! the record of a search that found none.
//!
//! The set itself is a `formality_core::ProvenSet`, which also keeps the
//! diagnostics of a failed search. It holds numbers; each number is the
//! place of a result in a table that this module keeps beside it.

use vstd::prelude::*;
use formality_core::judgment::{FailedRule, FailureLocation, ProofTree, RuleFailureCause};
use formality_core::ProvenSet;
use crate::constraints::{Constraints, ConstraintsView};
use crate::decls::Decls;
use crate::env::Env;
use crate::grammar::Wcs;

verus! {

/// `formality_core::ProvenSet`, which the prover carries without
/// looking into it.
#[verifier::external_type_specification]
#[verifier::external_body]
#[verifier::reject_recursive_types(J)]
pub struct ExProvenSet<J>(formality_core::ProvenSet<J>);

/// The numbers that a proven set holds; none for the set of a failed
/// judgment.
pub uninterp spec fn proven_items(set: ProvenSet<usize>) -> Set<usize>;

/// What a search was asked, for the record of a failed search.
#[derive(Debug)]
pub struct Judgment<'a> {
    pub goal: &'a Wcs,
    pub assumptions: &'a Wcs,
    pub env: &'a Env,
    pub decls: &'a Decls,
}

/// `ProvenSet::from_iter`, on the pairs of each number of `items` with a
/// leaf proof tree: the set holds exactly the numbers of `items`, and is
/// the set of a failed judgment where `items` is empty.
#[verifier::external_body]
fn collect_set(items: Vec<usize>) -> (set: ProvenSet<usize>)
    ensures
        proven_items(set) == items@.to_set(),
{
    items.into_iter().map(|i| (i, ProofTree::leaf("prove"))).collect()
}

/// `ProvenSet::failed_rules`, with one failed rule that names no cause
/// but that no rule applied: the set of a failed judgment, which holds
/// no number.
#[verifier::external_body]
fn failed_set(judgment: &Judgment) -> (set: ProvenSet<usize>)
    ensures
        proven_items(set) == Set::<usize>::empty(),
{
    let reason = String::from("no applicable rule");
    let rule = FailedRule::new(RuleFailureCause::Inapplicable { reason });
    ProvenSet::failed_rules(judgment, FailureLocation::caller(), std::iter::once(rule).collect())
}

/// `ProvenSet::is_proven`: whether the set holds a number at all.
#[verifier::external_body]
fn set_is_proven(set: &ProvenSet<usize>) -> (b: bool)
    ensures
        b == exists|i: usize| proven_items(*set).contains(i),
{
    set.is_proven()
}

/// The results that `table` holds.
pub open spec fn results(table: Seq<Constraints>) -> Set<ConstraintsView> {
    Set::new(|c: ConstraintsView| exists|i: int| 0 <= i < table.len() && (#[trigger] table[i])@ == c)
}

/// No result occurs twice in `table`.
pub open spec fn no_repeats(table: Seq<Constraints>) -> bool {
    forall|i: int, j: int|
        0 <= i < j < table.len() ==> (#[trigger] table[i])@ != (#[trigger] table[j])@
}

/// Whether `table` holds `c`.
pub fn holds(table: &Vec<Constraints>, c: &Constraints) -> (b: bool)
    ensures
        b == results(table@).contains(c@),
{
    let mut i: usize = 0;
    while i < table.len()
        invariant
            i <= table.len(),
            forall|j: int| 0 <= j < i ==> (#[trigger] table@[j])@ != c@,
        decreases table.len() - i,
    {
        if table[i].same(c) {
            return true;
        }
        i += 1;
    }
    false
}

/// Adds `c` to `table` unless `table` holds it.
pub fn insert(table: &mut Vec<Constraints>, c: Constraints)
    requires
        no_repeats(old(table)@),
    ensures
        no_repeats(final(table)@),
        results(final(table)@) == results(old(table)@).insert(c@),
        final(table)@.len() <= old(table)@.len() + 1,
{
    let ghost before = table@;
    if !holds(table, &c) {
        table.push(c);
        assert forall|x: ConstraintsView| results(table@).contains(x) <==> results(before).insert(
            c@,
        ).contains(x) by {
            if results(table@).contains(x) {
                let i = choose|i: int| 0 <= i < table@.len() && (#[trigger] table@[i])@ == x;
                if i < before.len() {
                    assert(before[i]@ == x);
                }
            }
            if results(before).contains(x) {
                let i = choose|i: int| 0 <= i < before.len() && (#[trigger] before[i])@ == x;
                assert(table@[i]@ == x);
            }
            if x == c@ {
                assert(table@[before.len() as int]@ == x);
            }
        }
    }
    assert(results(table@) =~= results(before).insert(c@));
}

/// The results of a search.
#[derive(Debug)]
pub struct ProvenConstraints {
    table: Vec<Constraints>,
    set: ProvenSet<usize>,
}

impl View for ProvenConstraints {
    type V = Set<ConstraintsView>;

    closed spec fn view(&self) -> Set<ConstraintsView> {
        results(self.table@)
    }
}

impl ProvenConstraints {
    #[verifier::type_invariant]
    spec fn inv(self) -> bool {
        &&& no_repeats(self.table@)
        &&& forall|i: usize| proven_items(self.set).contains(i) <==> i < self.table@.len()
    }

    /// The set of the results in `table`; where `table` is empty, the
    /// set of a search that failed on `judgment`.
    pub(crate) fn proven(table: Vec<Constraints>, judgment: &Judgment) -> (set: ProvenConstraints)
        requires
            no_repeats(table@),
        ensures
            set@ == results(table@),
    {
        if table.len() == 0 {
            return ProvenConstraints { table, set: failed_set(judgment) };
        }
        let mut items: Vec<usize> = Vec::new();
        let mut i: usize = 0;
        while i < table.len()
            invariant
                i <= table.len(),
                items@.len() == i,
                forall|k: int| 0 <= k < i ==> items@[k] == k,
            decreases table.len() - i,
        {
            items.push(i);
            i += 1;
        }
        proof {
            assert forall|k: usize| items@.to_set().contains(k) <==> k < table@.len() by {
                if k < table@.len() {
                    assert(items@[k as int] == k);
                    assert(items@.contains(k));
                }
            }
        }
        ProvenConstraints { table, set: collect_set(items) }
    }

    /// The set that holds `c` alone.
    pub fn singleton(c: Constraints, judgment: &Judgment) -> (set: ProvenConstraints)
        ensures
            set@ == Set::<ConstraintsView>::empty().insert(c@),
    {
        let mut table: Vec<Constraints> = Vec::new();
        assert(results(table@) =~= Set::<ConstraintsView>::empty());
        insert(&mut table, c);
        ProvenConstraints::proven(table, judgment)
    }

    /// Whether the search found a result.
    pub fn is_proven(&self) -> (b: bool)
        ensures
            b == (self.spec_len() > 0),
            b == exists|c: ConstraintsView| self@.contains(c),
    {
        let b = set_is_proven(&self.set);
        proof {
            use_type_invariant(self);
            if self.table@.len() > 0 {
                assert(proven_items(self.set).contains(0usize));
                assert(results(self.table@).contains(self.table@[0]@));
                assert(self@.contains(self.table@[0]@));
            } else {
                assert forall|c: ConstraintsView| !self@.contains(c) by {
                    if results(self.table@).contains(c) {
                        let i = choose|i: int|
                            0 <= i < self.table@.len() && (#[trigger] self.table@[i])@ == c;
                    }
                }
            }
        }
        b
    }

    /// The number of results.
    pub closed spec fn spec_len(&self) -> nat {
        self.table@.len()
    }

    /// The results in the order in which they were found.
    pub closed spec fn spec_items(&self) -> Seq<Constraints> {
        self.table@
    }

    /// The number of results.
    pub fn len(&self) -> (n: usize)
        ensures
            n == self.spec_len(),
            n == self.spec_items().len(),
    {
        self.table.len()
    }

    /// The results, each once, in the order in which they were found.
    pub fn items(&self) -> (table: &Vec<Constraints>)
        ensures
            table@ == self.spec_items(),
            results(table@) == self@,
            no_repeats(table@),
    {
        proof {
            use_type_invariant(self);
        }
        &self.table
    }

    /// Whether `c` is among the results.
    pub fn contains(&self, c: &Constraints) -> (b: bool)
        ensures
            b == self@.contains(c@),
    {
        holds(&self.table, c)
    }

    /// The proven set behind the results, with the record of the failure
    /// where there is none.
    pub fn as_proven_set(&self) -> (set: &ProvenSet<usize>)
        ensures
            forall|i: usize| proven_items(*set).contains(i) <==> i < self.spec_len(),
    {
        proof {
            use_type_invariant(self);
        }
        &self.set
    }
}

} // verus!
