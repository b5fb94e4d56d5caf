use vstd::prelude::*;
use vstd::std_specs::cmp::PartialEqSpecImpl;

verus! {

/// How far a task has come: a description and a percentage (0 to 100).
#[derive(Clone, Debug, Eq)]
pub struct TaskProgress {
    pub description: String,
    pub percent: u8,
}

impl PartialEq for TaskProgress {
    fn eq(&self, other: &Self) -> (r: bool) {
        self.description == other.description && self.percent == other.percent
    }
}

impl PartialEqSpecImpl for TaskProgress {
    open spec fn obeys_eq_spec() -> bool {
        true
    }

    open spec fn eq_spec(&self, other: &Self) -> bool {
        self.description@ == other.description@ && self.percent == other.percent
    }
}

/// The percentage shown for `completed` of `total` steps: 100 when there
/// are no steps; otherwise `completed * 100 / total` (the product saturating
/// at `usize::MAX`), capped at 100.
pub open spec fn count_percent(completed: nat, total: nat) -> nat {
    if total == 0 {
        100
    } else {
        let scaled = if completed * 100 <= usize::MAX { completed * 100 } else { usize::MAX as nat };
        let q = scaled / total;
        if q > 100 {
            100
        } else {
            q
        }
    }
}

impl TaskProgress {
    /// Progress with `description` at `percent`, capped at 100.
    pub fn new(description: String, percent: u8) -> (r: Self)
        ensures
            r.description@ == description@,
            r.percent == if percent > 100 { 100 } else { percent },
    {
        TaskProgress { description, percent: if percent > 100 { 100 } else { percent } }
    }

    /// Progress with `description` after `completed` of `total` steps.
    pub fn from_count(description: String, completed: usize, total: usize) -> (r: Self)
        ensures
            r.description@ == description@,
            r.percent as nat == count_percent(completed as nat, total as nat),
            r.percent <= 100,
    {
        let percent: u8 = if total == 0 {
            100
        } else {
            let scaled: usize = match completed.checked_mul(100) {
                Some(x) => x,
                None => usize::MAX,
            };
            let q = scaled / total;
            if q > 100 {
                100
            } else {
                q as u8
            }
        };
        TaskProgress { description, percent }
    }
}

/// The percentage never goes above 100.
pub proof fn lemma_percent_at_most_100(completed: nat, total: nat)
    ensures
        count_percent(completed, total) <= 100,
{
}

/// Completing more steps of the same task never lowers the percentage.
pub proof fn lemma_percent_monotone(c1: nat, c2: nat, total: nat)
    requires
        c1 <= c2,
    ensures
        count_percent(c1, total) <= count_percent(c2, total),
{
    if total > 0 {
        let s1 = if c1 * 100 <= usize::MAX { c1 * 100 } else { usize::MAX as nat };
        let s2 = if c2 * 100 <= usize::MAX { c2 * 100 } else { usize::MAX as nat };
        assert(s1 <= s2) by (nonlinear_arith)
            requires
                c1 <= c2,
                s1 == (if c1 * 100 <= usize::MAX { c1 * 100 } else { usize::MAX as nat }),
                s2 == (if c2 * 100 <= usize::MAX { c2 * 100 } else { usize::MAX as nat }),
        ;
        vstd::arithmetic::div_mod::lemma_div_is_ordered(s1 as int, s2 as int, total as int);
    }
}

/// A task with every step done shows 100%, as long as `total * 100` fits
/// in a `usize` (beyond that the saturating product makes it less).
pub proof fn lemma_percent_complete(total: nat)
    requires
        total > 0,
        total * 100 <= usize::MAX,
    ensures
        count_percent(total, total) == 100,
{
    assert((total * 100) / total == 100) by (nonlinear_arith)
        requires
            total > 0,
    ;
}

/// A task with steps of which none is done shows 0%.
pub proof fn lemma_percent_nothing_done(total: nat)
    requires
        total > 0,
    ensures
        count_percent(0, total) == 0,
{
}

/// With at least one step and no overflow, the percentage of `completed`
/// of `total` steps (no more than `total`) is the whole part of
/// `completed * 100 / total`: it times `total` is at most `completed * 100`,
/// and one more would be too much.
pub proof fn lemma_percent_is_whole_part(completed: nat, total: nat)
    requires
        0 < total,
        completed <= total,
        total * 100 <= usize::MAX,
    ensures
        count_percent(completed, total) * total <= completed * 100,
        completed * 100 < (count_percent(completed, total) + 1) * total,
{
    assert(completed * 100 <= total * 100) by (nonlinear_arith)
        requires
            completed <= total,
    ;
    let q = (completed * 100) / total;
    assert(q <= 100) by (nonlinear_arith)
        requires
            q == (completed * 100) / total,
            completed <= total,
            0 < total,
    ;
    assert(q * total <= completed * 100 && completed * 100 < (q + 1) * total) by (nonlinear_arith)
        requires
            q == (completed * 100) / total,
            0 < total,
    ;
}

} // verus!
