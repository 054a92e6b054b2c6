//! Unbounded natural-number counters.
//!
//! A [`Counter`] stores its value as little-endian 64-bit limbs, so that
//! stepping up never overflows. Stepping down from zero stays at zero.

use vstd::prelude::*;
use crate::operators::{Add, Sub};

verus! {

/// The weight of one limb relative to the previous one.
spec fn limb_base() -> nat {
    0x1_0000_0000_0000_0000
}

/// The natural number denoted by little-endian limbs.
spec fn limbs_value(limbs: Seq<u64>) -> nat
    decreases limbs.len(),
{
    if limbs.len() == 0 {
        0
    } else {
        limbs[0] as nat + limb_base() * limbs_value(limbs.drop_first())
    }
}

/// The value after one upward step.
pub open spec fn succ(n: nat) -> nat {
    n + 1
}

/// The value after one downward step; zero stays zero.
pub open spec fn pred(n: nat) -> nat {
    if n == 0 {
        0
    } else {
        (n - 1) as nat
    }
}

/// The value after `k` upward steps.
pub open spec fn succ_times(n: nat, k: nat) -> nat
    decreases k,
{
    if k == 0 {
        n
    } else {
        succ(succ_times(n, (k - 1) as nat))
    }
}

proof fn lemma_zero_limbs(limbs: Seq<u64>)
    ensures
        limbs_value(limbs) == 0 <==> forall|k: int| 0 <= k < limbs.len() ==> limbs[k] == 0,
    decreases limbs.len(),
{
    if limbs.len() > 0 {
        let rest = limbs.drop_first();
        lemma_zero_limbs(rest);
        assert(forall|k: int| 0 <= k < rest.len() ==> rest[k] == limbs[k + 1]);
        if limbs_value(limbs) == 0 {
            assert(limbs_value(rest) == 0) by (nonlinear_arith)
                requires
                    limbs[0] as nat + limb_base() * limbs_value(rest) == 0,
                    limb_base() > 0,
            ;
            assert forall|k: int| 0 <= k < limbs.len() implies limbs[k] == 0 by {
                if k > 0 {
                    assert(rest[k - 1] == limbs[k]);
                }
            }
        } else if forall|k: int| 0 <= k < limbs.len() ==> limbs[k] == 0 {
            assert forall|k: int| 0 <= k < rest.len() implies rest[k] == 0 by {
                assert(rest[k] == limbs[k + 1]);
            }
            assert(limbs_value(rest) == 0);
            assert(false);
        }
    }
}

proof fn lemma_carry(before: Seq<u64>, after: Seq<u64>, at: int)
    requires
        0 <= at <= before.len(),
        after.len() == if at == before.len() { before.len() + 1 } else { before.len() },
        forall|k: int| 0 <= k < at ==> before[k] == u64::MAX && after[k] == 0,
        at < before.len() ==> before[at] < u64::MAX && after[at] == before[at] + 1,
        at == before.len() ==> after[at] == 1,
        forall|k: int| at < k < before.len() ==> after[k] == before[k],
    ensures
        limbs_value(after) == limbs_value(before) + 1,
    decreases at,
{
    if at == 0 {
        if before.len() == 0 {
            assert(after.drop_first().len() == 0);
            assert(limbs_value(after.drop_first()) == 0);
        } else {
            assert(after.drop_first() =~= before.drop_first());
        }
    } else {
        lemma_carry(before.drop_first(), after.drop_first(), at - 1);
        let low = limbs_value(before.drop_first());
        assert(limb_base() * (low + 1) == limb_base() * low + limb_base()) by (nonlinear_arith);
    }
}

proof fn lemma_borrow(before: Seq<u64>, after: Seq<u64>, at: int)
    requires
        0 <= at < before.len(),
        after.len() == before.len(),
        forall|k: int| 0 <= k < at ==> before[k] == 0 && after[k] == u64::MAX,
        before[at] > 0,
        after[at] == before[at] - 1,
        forall|k: int| at < k < before.len() ==> after[k] == before[k],
    ensures
        limbs_value(after) + 1 == limbs_value(before),
    decreases at,
{
    if at == 0 {
        assert(after.drop_first() =~= before.drop_first());
    } else {
        lemma_borrow(before.drop_first(), after.drop_first(), at - 1);
        let low = limbs_value(after.drop_first());
        assert(limb_base() * (low + 1) == limb_base() * low + limb_base()) by (nonlinear_arith);
    }
}

proof fn lemma_single_limb(limbs: Seq<u64>)
    requires
        limbs.len() > 0,
    ensures
        (forall|k: int| 1 <= k < limbs.len() ==> limbs[k] == 0) ==> limbs_value(limbs)
            == limbs[0],
        !(forall|k: int| 1 <= k < limbs.len() ==> limbs[k] == 0) ==> limbs_value(limbs)
            >= limb_base(),
{
    let rest = limbs.drop_first();
    lemma_zero_limbs(rest);
    assert(forall|k: int| 0 <= k < rest.len() ==> rest[k] == limbs[k + 1]);
    if forall|k: int| 1 <= k < limbs.len() ==> limbs[k] == 0 {
        assert forall|k: int| 0 <= k < rest.len() implies rest[k] == 0 by {
            assert(rest[k] == limbs[k + 1]);
        }
    } else {
        let k = choose|k: int| 1 <= k < limbs.len() && limbs[k] != 0;
        assert(rest[k - 1] == limbs[k]);
        assert(limbs_value(rest) >= 1);
        assert(limb_base() * limbs_value(rest) >= limb_base()) by (nonlinear_arith)
            requires
                limbs_value(rest) >= 1,
        ;
    }
}

/// An unbounded non-negative integer.
pub struct Counter {
    limbs: Vec<u64>,
}

impl View for Counter {
    type V = nat;

    closed spec fn view(&self) -> nat {
        limbs_value(self.limbs@)
    }
}

impl Clone for Counter {
    fn clone(&self) -> (copy: Self)
        ensures
            copy@ == self@,
    {
        let limbs = self.limbs.clone();
        assert(limbs@ =~= self.limbs@);
        Counter { limbs }
    }
}

impl Counter {
    /// The counter at zero.
    pub fn zero() -> (c: Counter)
        ensures
            c@ == 0,
    {
        Counter { limbs: Vec::new() }
    }

    /// The counter holding `n`.
    pub fn from_usize(n: usize) -> (c: Counter)
        ensures
            c@ == n,
    {
        let mut limbs: Vec<u64> = Vec::new();
        limbs.push(n as u64);
        proof {
            assert(limbs@.drop_first().len() == 0);
            assert(limbs_value(limbs@.drop_first()) == 0);
        }
        Counter { limbs }
    }

    /// Steps the counter up by one. There is no upper bound.
    pub fn increment(&mut self)
        ensures
            final(self)@ == succ(old(self)@),
    {
        let n = self.limbs.len();
        let mut i: usize = 0;
        while i < n && self.limbs[i] == u64::MAX
            invariant
                n == old(self).limbs@.len(),
                self.limbs@.len() == n,
                i <= n,
                forall|k: int|
                    0 <= k < i ==> old(self).limbs@[k] == u64::MAX && self.limbs@[k] == 0,
                forall|k: int| i <= k < n ==> self.limbs@[k] == old(self).limbs@[k],
            decreases n - i,
        {
            self.limbs.set(i, 0);
            i += 1;
        }
        if i < n {
            let limb = self.limbs[i];
            self.limbs.set(i, limb + 1);
        } else {
            self.limbs.push(1);
        }
        proof {
            lemma_carry(old(self).limbs@, self.limbs@, i as int);
        }
    }

    /// Steps the counter down by one; a counter at zero stays at zero.
    pub fn decrement(&mut self)
        ensures
            final(self)@ == pred(old(self)@),
    {
        let n = self.limbs.len();
        let mut at: usize = 0;
        while at < n && self.limbs[at] == 0
            invariant
                n == self.limbs@.len(),
                at <= n,
                forall|k: int| 0 <= k < at ==> self.limbs@[k] == 0,
            decreases n - at,
        {
            at += 1;
        }
        proof {
            lemma_zero_limbs(self.limbs@);
        }
        if at < n {
            let mut i: usize = 0;
            while i < at
                invariant
                    n == old(self).limbs@.len(),
                    self.limbs@.len() == n,
                    i <= at < n,
                    forall|k: int| 0 <= k < i ==> self.limbs@[k] == u64::MAX,
                    forall|k: int| i <= k < n ==> self.limbs@[k] == old(self).limbs@[k],
                decreases at - i,
            {
                self.limbs.set(i, u64::MAX);
                i += 1;
            }
            let limb = self.limbs[at];
            self.limbs.set(at, limb - 1);
            proof {
                lemma_borrow(old(self).limbs@, self.limbs@, at as int);
            }
        }
    }

    /// Whether the counter is at zero.
    pub fn is_zero(&self) -> (zero: bool)
        ensures
            zero == (self@ == 0),
    {
        let n = self.limbs.len();
        let mut i: usize = 0;
        while i < n && self.limbs[i] == 0
            invariant
                n == self.limbs@.len(),
                i <= n,
                forall|k: int| 0 <= k < i ==> self.limbs@[k] == 0,
            decreases n - i,
        {
            i += 1;
        }
        proof {
            lemma_zero_limbs(self.limbs@);
        }
        i == n
    }

    /// The value as a machine integer, where it fits into one.
    pub fn to_usize(&self) -> (value: Option<usize>)
        ensures
            value == if self@ <= usize::MAX { Some(self@ as usize) } else { None },
    {
        let n = self.limbs.len();
        if n == 0 {
            return Some(0);
        }
        let mut i: usize = 1;
        while i < n && self.limbs[i] == 0
            invariant
                n == self.limbs@.len(),
                1 <= i <= n,
                forall|k: int| 1 <= k < i ==> self.limbs@[k] == 0,
            decreases n - i,
        {
            i += 1;
        }
        proof {
            lemma_single_limb(self.limbs@);
        }
        let low = self.limbs[0];
        if i == n && low <= usize::MAX as u64 {
            Some(low as usize)
        } else {
            None
        }
    }
}

/// Something that denotes a natural number.
pub trait Number {
    /// The number denoted.
    spec fn value(&self) -> nat;

    /// The number as a machine integer.
    fn eval(&self) -> (n: usize)
        requires
            self.value() <= usize::MAX,
        ensures
            n == self.value(),
    ;
}

impl Number for Counter {
    open spec fn value(&self) -> nat {
        self@
    }

    fn eval(&self) -> (n: usize) {
        self.to_usize().unwrap()
    }
}

/// A unit step on counters.
pub trait Operation {
    /// The value that the step gives on `n`.
    spec fn apply(n: nat) -> nat;

    /// Performs the step on `counter`.
    fn exec(counter: &mut Counter)
        ensures
            final(counter)@ == Self::apply(old(counter)@),
    ;
}

impl Operation for Add {
    open spec fn apply(n: nat) -> nat {
        succ(n)
    }

    fn exec(counter: &mut Counter) {
        counter.increment();
    }
}

impl Operation for Sub {
    open spec fn apply(n: nat) -> nat {
        pred(n)
    }

    fn exec(counter: &mut Counter) {
        counter.decrement();
    }
}

/// Stepping down undoes stepping up, stepping down from zero stays at zero,
/// and `k` upward steps from zero give `k`.
pub proof fn counter_step_laws(n: nat, k: nat)
    ensures
        pred(succ(n)) == n,
        Sub::apply(Add::apply(n)) == n,
        pred(0) == 0,
        Sub::apply(0) == 0,
        succ_times(0, k) == k,
    decreases k,
{
    if k > 0 {
        counter_step_laws(n, (k - 1) as nat);
    }
}

} // verus!
