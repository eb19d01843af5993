//! Orchestration state shared across concurrent file searches: the run-wide
//! match-count budget, the fold of per-file results into one answer, and the
//! best-effort stop on the first error.

use vstd::prelude::*;

verus! {

use crate::printer::Error;

/// Whether a budget in state `rem` accepts one more match.
pub open spec fn spec_accepts(rem: Option<u64>) -> bool {
    rem != Some(0u64)
}

/// The budget state after one more match was offered.
pub open spec fn spec_after(rem: Option<u64>) -> Option<u64> {
    match rem {
        None => None,
        Some(k) => if k == 0 {
            Some(0u64)
        } else {
            Some((k - 1) as u64)
        },
    }
}

/// The budget state after `n` matches were offered.
pub open spec fn budget_after(rem: Option<u64>, n: nat) -> Option<u64>
    decreases n,
{
    if n == 0 {
        rem
    } else {
        spec_after(budget_after(rem, (n - 1) as nat))
    }
}

/// How many of `n` offered matches the budget accepts.
pub open spec fn accepted_count(rem: Option<u64>, n: nat) -> nat
    decreases n,
{
    if n == 0 {
        0nat
    } else {
        accepted_count(rem, (n - 1) as nat) + if spec_accepts(budget_after(rem, (n - 1) as nat)) {
            1nat
        } else {
            0nat
        }
    }
}

/// The run-wide match-count budget. `None` means unlimited. `Some(k)` means
/// at most `k` further matches are accepted, across all files together: the
/// counter is shared by every concurrently searched file, not reset per file.
/// The caller serializes access to it (one decrement per accepted match).
pub struct MatchBudget {
    pub remaining: Option<u64>,
}

impl MatchBudget {
    /// A fresh budget of `max_count` matches, or an unlimited one.
    pub fn new(max_count: Option<u64>) -> (r: Self)
        ensures
            r.remaining == max_count,
    {
        MatchBudget { remaining: max_count }
    }

    /// Offer one match: it is accepted unless the budget is spent, and an
    /// accepted match spends one unit.
    pub fn accept(&mut self) -> (r: bool)
        ensures
            r == spec_accepts(old(self).remaining),
            final(self).remaining == spec_after(old(self).remaining),
    {
        match self.remaining {
            None => true,
            Some(k) => {
                if k == 0 {
                    false
                } else {
                    self.remaining = Some(k - 1);
                    true
                }
            },
        }
    }

    /// True when no further match will be accepted, so a file search can stop
    /// before it starts.
    pub fn exhausted(&self) -> (r: bool)
        ensures
            r == !spec_accepts(self.remaining),
    {
        match self.remaining {
            None => false,
            Some(k) => k == 0,
        }
    }
}

/// After `n` offers, a budget of `b` has `b - n` units left, but never fewer
/// than none.
proof fn lemma_budget_after(b: u64, n: nat)
    ensures
        budget_after(Some(b), n) == Some(
            (if n <= b {
                b - n
            } else {
                0int
            }) as u64,
        ),
    decreases n,
{
    if n > 0 {
        lemma_budget_after(b, (n - 1) as nat);
    }
}

/// A budget of `b` accepts exactly `min(b, n)` of `n` offered matches. The
/// count depends only on how many matches were offered in total, not on the
/// order in which concurrently searched files offer them: any interleaving of
/// the same offers accepts the same number.
pub proof fn lemma_budget_accepts_min(b: u64, n: nat)
    ensures
        accepted_count(Some(b), n) == if n <= b {
            n
        } else {
            b as nat
        },
    decreases n,
{
    if n > 0 {
        lemma_budget_accepts_min(b, (n - 1) as nat);
        lemma_budget_after(b, (n - 1) as nat);
    }
}

proof fn lemma_budget_after_none(n: nat)
    ensures
        budget_after(None, n) is None,
    decreases n,
{
    if n > 0 {
        lemma_budget_after_none((n - 1) as nat);
    }
}

/// An unlimited budget accepts every offered match.
pub proof fn lemma_budget_unlimited(n: nat)
    ensures
        accepted_count(None, n) == n,
    decreases n,
{
    if n > 0 {
        lemma_budget_unlimited((n - 1) as nat);
        lemma_budget_after_none((n - 1) as nat);
    }
}

/// The run-wide answer: true iff some element is true.
pub open spec fn or_fold(s: Seq<bool>) -> bool {
    exists|i: int| 0 <= i < s.len() && s[i]
}

/// Fold the per-file "found a match" flags into the run-wide answer.
pub fn fold_found(results: &Vec<bool>) -> (r: bool)
    ensures
        r == or_fold(results@),
{
    let mut i: usize = 0;
    while i < results.len()
        invariant
            i <= results@.len(),
            forall|k: int| 0 <= k < i ==> !results@[k],
        decreases results@.len() - i,
    {
        if results[i] {
            return true;
        }
        i = i + 1;
    }
    false
}

/// Disjunction is associative and commutative, so the folded answer is the
/// same for every completion order of the workers: two result sequences that
/// are permutations of one another fold to the same answer.
pub proof fn lemma_or_fold_permutation(s1: Seq<bool>, s2: Seq<bool>)
    requires
        s1.to_multiset() == s2.to_multiset(),
    ensures
        or_fold(s1) == or_fold(s2),
{
    broadcast use vstd::seq_lib::group_to_multiset_ensures;

    assert(or_fold(s1) == s1.contains(true));
    assert(or_fold(s2) == s2.contains(true));
    assert(s1.contains(true) == s1.to_multiset().contains(true));
    assert(s2.contains(true) == s2.to_multiset().contains(true));
}

/// Decision state of the orchestrator: whether any chunk was rendered so far,
/// and the first error observed. Workers already running when an error
/// arrives still fold their results in (best-effort short circuit, no
/// rollback), but no new work is scheduled.
pub struct RunState {
    pub found: bool,
    pub error: Option<Error>,
}

impl RunState {
    /// A fresh run: nothing found, no error.
    pub fn new() -> (r: Self)
        ensures
            !r.found,
            r.error is None,
    {
        RunState { found: false, error: None }
    }

    /// Fold one finished unit into the run: the found flags are joined by
    /// disjunction, and the first error is kept.
    pub fn on_unit_result(&mut self, result: Result<bool, Error>)
        ensures
            final(self).found == (old(self).found || (result is Ok && result->Ok_0)),
            final(self).error == if old(self).error is Some {
                old(self).error
            } else {
                match result {
                    Ok(_) => None::<Error>,
                    Err(e) => Some(e),
                }
            },
    {
        match result {
            Ok(found) => {
                if found {
                    self.found = true;
                }
            },
            Err(e) => {
                if self.error.is_none() {
                    self.error = Some(e);
                }
            },
        }
    }

    /// New work is scheduled only while no error has been observed.
    pub fn should_continue(&self) -> (r: bool)
        ensures
            r == (self.error is None),
    {
        self.error.is_none()
    }

    /// The run-wide result: the first error if any unit failed, otherwise
    /// whether any chunk was rendered.
    pub fn into_result(self) -> (r: Result<bool, Error>)
        ensures
            match self.error {
                Some(e) => r == Err::<bool, Error>(e),
                None => r == Ok::<bool, Error>(self.found),
            },
    {
        match self.error {
            Some(e) => Err(e),
            None => Ok(self.found),
        }
    }
}

/// The process exit status: zero when at least one match was rendered, one
/// when none was found, two on any error.
pub fn exit_status(result: &Result<bool, Error>) -> (r: i32)
    ensures
        r == match result {
            Ok(true) => 0int,
            Ok(false) => 1int,
            Err(_) => 2int,
        },
{
    match result {
        Ok(true) => 0,
        Ok(false) => 1,
        Err(_) => 2,
    }
}

/// The line numbers covered by one match that spans `count` physical lines:
/// one entry per covered line, starting at the match's first line. A
/// single-line match covers exactly its own line.
pub fn expand_multiline(line_number: u64, count: u64) -> (r: Vec<u64>)
    requires
        count >= 1,
        line_number + count - 1 <= u64::MAX,
    ensures
        r@.len() == count,
        forall|i: int| 0 <= i < count ==> #[trigger] r@[i] == line_number + i,
{
    let mut r: Vec<u64> = Vec::new();
    let mut i: u64 = 0;
    while i < count
        invariant
            i <= count,
            line_number + count - 1 <= u64::MAX,
            r@.len() == i,
            forall|k: int| 0 <= k < i ==> #[trigger] r@[k] == line_number + k,
        decreases count - i,
    {
        r.push(line_number + i);
        i = i + 1;
    }
    r
}

} // verus!
