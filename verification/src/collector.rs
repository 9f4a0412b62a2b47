//! The ordered list of open targets, kept sorted as results arrive.

use crate::address::{target_le, target_precedes, Target};
use vstd::prelude::*;

verus! {

/// Whether a list of targets is in order: each target comes at or before all
/// that follow it.
pub open spec fn sorted(s: Seq<Target>) -> bool {
    forall|i: int, j: int| 0 <= i < j < s.len() ==> target_le(s[i]@, s[j]@)
}

/// How many targets of `s` come at or before `t`. In a sorted list this is
/// the index behind the last of them, where `t` is inserted.
pub open spec fn insertion_index(s: Seq<Target>, t: Target) -> int
    decreases s.len(),
{
    if s.len() == 0 {
        0
    } else if target_le(s.last()@, t@) {
        insertion_index(s.drop_last(), t) + 1
    } else {
        insertion_index(s.drop_last(), t)
    }
}

/// In a sorted list, an index that parts the targets at or before `t` from
/// those behind `t` is the insertion index of `t`.
pub proof fn lemma_insertion_index_is_boundary(s: Seq<Target>, t: Target, at: int)
    requires
        0 <= at <= s.len(),
        forall|i: int| 0 <= i < at ==> target_le(#[trigger] s[i]@, t@),
        forall|i: int| at <= i < s.len() ==> !target_le(#[trigger] s[i]@, t@),
    ensures
        insertion_index(s, t) == at,
    decreases s.len(),
{
    if s.len() > 0 {
        let front = s.drop_last();
        if at == s.len() {
            lemma_insertion_index_is_boundary(front, t, at - 1);
        } else {
            lemma_insertion_index_is_boundary(front, t, at);
        }
    }
}

/// A target inserted into a sorted list at its insertion index leaves the
/// list sorted.
pub proof fn lemma_insertion_keeps_sorted(s: Seq<Target>, t: Target)
    requires
        sorted(s),
    ensures
        0 <= insertion_index(s, t) <= s.len(),
        sorted(s.insert(insertion_index(s, t), t)),
        s.insert(insertion_index(s, t), t).to_multiset() == s.to_multiset().insert(t),
{
    let at = lemma_boundary_exists(s, t);
    lemma_insertion_index_is_boundary(s, t, at);
    let after = s.insert(at, t);
    assert forall|i: int, j: int| 0 <= i < j < after.len() implies target_le(
        after[i]@,
        after[j]@,
    ) by {
        if j < at {
            assert(after[i] == s[i] && after[j] == s[j]);
        } else if j == at {
            assert(after[i] == s[i]);
        } else if i < at {
            assert(after[i] == s[i] && after[j] == s[j - 1]);
        } else if i == at {
            assert(after[j] == s[j - 1]);
        } else {
            assert(after[i] == s[i - 1] && after[j] == s[j - 1]);
        }
    }
    vstd::seq_lib::to_multiset_insert(s, at, t);
}

/// A sorted list has an index that parts the targets at or before `t` from
/// those behind `t`.
proof fn lemma_boundary_exists(s: Seq<Target>, t: Target) -> (at: int)
    requires
        sorted(s),
    ensures
        0 <= at <= s.len(),
        forall|i: int| 0 <= i < at ==> target_le(#[trigger] s[i]@, t@),
        forall|i: int| at <= i < s.len() ==> !target_le(#[trigger] s[i]@, t@),
    decreases s.len(),
{
    if s.len() == 0 {
        0
    } else if target_le(s.last()@, t@) {
        assert forall|i: int| 0 <= i < s.len() implies target_le(#[trigger] s[i]@, t@) by {
            if i < s.len() - 1 {
                assert(target_le(s[i]@, s[s.len() - 1]@));
            }
        }
        s.len() as int
    } else {
        let front = s.drop_last();
        assert(sorted(front)) by {
            assert forall|i: int, j: int| 0 <= i < j < front.len() implies target_le(
                front[i]@,
                front[j]@,
            ) by {
                assert(front[i] == s[i] && front[j] == s[j]);
            }
        }
        let at = lemma_boundary_exists(front, t);
        assert forall|i: int| at <= i < s.len() implies !target_le(#[trigger] s[i]@, t@) by {
            if i < s.len() - 1 {
                assert(front[i] == s[i]);
            }
        }
        assert forall|i: int| 0 <= i < at implies target_le(#[trigger] s[i]@, t@) by {
            assert(front[i] == s[i]);
        }
        at
    }
}

/// The open targets found so far, always in order.
pub struct ResultCollector {
    results: Vec<Target>,
}

impl View for ResultCollector {
    type V = Seq<Target>;

    closed spec fn view(&self) -> Seq<Target> {
        self.results@
    }
}

impl ResultCollector {
    /// Whether the collector holds its targets in order, as every collector
    /// made and changed through its own functions does.
    pub open spec fn well_formed(&self) -> bool {
        sorted(self@)
    }

    /// A collector that holds nothing yet.
    pub fn new() -> (collector: ResultCollector)
        ensures
            collector@ == Seq::<Target>::empty(),
            collector.well_formed(),
    {
        ResultCollector { results: Vec::new() }
    }

    /// Records one open target at its place in the order: behind every
    /// target already held that comes at or before it, and in front of the
    /// others.
    pub fn record(&mut self, result: Target)
        requires
            old(self).well_formed(),
        ensures
            final(self).well_formed(),
            final(self)@ == old(self)@.insert(insertion_index(old(self)@, result), result),
    {
        let mut at: usize = 0;
        while at < self.results.len() && target_precedes(&self.results[at], &result)
            invariant
                at <= self.results.len(),
                forall|i: int| 0 <= i < at ==> target_le(#[trigger] self.results@[i]@, result@),
            decreases self.results.len() - at,
        {
            at = at + 1;
        }
        proof {
            assert forall|i: int| at <= i < self.results.len() implies !target_le(
                #[trigger] self.results@[i]@,
                result@,
            ) by {
                if i > at {
                    assert(target_le(self.results@[at as int]@, self.results@[i]@));
                }
            }
            lemma_insertion_index_is_boundary(self.results@, result, at as int);
            lemma_insertion_keeps_sorted(self.results@, result);
        }
        self.results.insert(at, result);
    }

    /// The open targets found so far, in order.
    pub fn results(&self) -> (results: &Vec<Target>)
        ensures
            results@ == self@,
    {
        &self.results
    }

    /// How many open targets were found so far.
    pub fn len(&self) -> (count: usize)
        ensures
            count == self@.len(),
    {
        self.results.len()
    }
}

} // verus!
