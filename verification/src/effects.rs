//! Reference structures for the two capabilities a block relies on.
//!
//! The expander only emits `lift` and `sequence` calls; what they mean is
//! the business of the structure type in use.  This module pins down the
//! behaviour of three such structures on straight-line blocks whose steps
//! are given outright: the optional structure, which short-circuits on an
//! absent step; the fallible structure, which short-circuits on a failed
//! step and carries its error out unchanged; and a counting structure,
//! which folds an instance count across every sequencing step.

use vstd::prelude::*;

use crate::Lift;

verus! {

/// The value of a block of optional steps followed by a tail value: the
/// tail if every step is present, absent otherwise.
pub open spec fn option_chain(steps: Seq<Option<i64>>, tail: Option<i64>) -> Option<i64>
    decreases steps.len(),
{
    if steps.len() == 0 {
        tail
    } else {
        match steps[0] {
            Option::None => None,
            Option::Some(_) => option_chain(steps.drop_first(), tail),
        }
    }
}

/// How many steps of an optional block are entered: every step up to and
/// including the first absent one.
pub open spec fn option_steps_entered(steps: Seq<Option<i64>>) -> int
    decreases steps.len(),
{
    if steps.len() == 0 {
        0
    } else if steps[0] is None {
        1
    } else {
        1 + option_steps_entered(steps.drop_first())
    }
}

/// Run a block of optional steps, sequencing left to right, and report the
/// result together with how many steps were entered.
pub fn run_option_block(steps: &Vec<Option<i64>>, tail: Option<i64>) -> (r: (Option<i64>, usize))
    ensures
        r.0 == option_chain(steps@, tail),
        r.1 == option_steps_entered(steps@),
{
    let mut i: usize = 0;
    proof {
        assert(steps@.skip(0) =~= steps@);
    }
    while i < steps.len()
        invariant
            0 <= i <= steps@.len(),
            forall|j: int| 0 <= j < i ==> (#[trigger] steps@[j]) is Some,
            option_chain(steps@, tail) == option_chain(steps@.skip(i as int), tail),
            option_steps_entered(steps@) == i + option_steps_entered(steps@.skip(i as int)),
        decreases steps@.len() - i,
    {
        proof {
            assert(steps@.skip(i as int)[0] == steps@[i as int]);
            assert(steps@.skip(i as int).drop_first() =~= steps@.skip(i as int + 1));
        }
        if steps[i].is_none() {
            return (None, i + 1);
        }
        i = i + 1;
    }
    proof {
        assert(steps@.skip(i as int) =~= Seq::<Option<i64>>::empty());
    }
    (tail, i)
}

/// Short-circuit propagation: with an absent step anywhere before the tail,
/// the whole block is absent, and no step after the first absent one is
/// entered.
pub proof fn lemma_option_short_circuit(steps: Seq<Option<i64>>, tail: Option<i64>, i: int)
    requires
        0 <= i < steps.len(),
        steps[i] is None,
        forall|j: int| 0 <= j < i ==> (#[trigger] steps[j]) is Some,
    ensures
        option_chain(steps, tail) is None,
        option_steps_entered(steps) == i + 1,
    decreases i,
{
    if i > 0 {
        let rest = steps.drop_first();
        assert forall|j: int| 0 <= j < i - 1 implies (#[trigger] rest[j]) is Some by {
            assert(rest[j] == steps[j + 1]);
        }
        assert(rest[i - 1] == steps[i]);
        lemma_option_short_circuit(rest, tail, i - 1);
    }
}

/// The value of a block of fallible steps followed by a tail value: the
/// tail if every step succeeded, else the first failure, carried unchanged.
pub open spec fn result_chain(
    steps: Seq<Result<i64, u64>>,
    tail: Result<i64, u64>,
) -> Result<i64, u64>
    decreases steps.len(),
{
    if steps.len() == 0 {
        tail
    } else {
        match steps[0] {
            Result::Err(e) => Err(e),
            Result::Ok(_) => result_chain(steps.drop_first(), tail),
        }
    }
}

/// How many steps of a fallible block are entered: every step up to and
/// including the first failed one.
pub open spec fn result_steps_entered(steps: Seq<Result<i64, u64>>) -> int
    decreases steps.len(),
{
    if steps.len() == 0 {
        0
    } else if steps[0] is Err {
        1
    } else {
        1 + result_steps_entered(steps.drop_first())
    }
}

/// Run a block of fallible steps, sequencing left to right, and report the
/// result together with how many steps were entered.
pub fn run_result_block(
    steps: &Vec<Result<i64, u64>>,
    tail: Result<i64, u64>,
) -> (r: (Result<i64, u64>, usize))
    ensures
        r.0 == result_chain(steps@, tail),
        r.1 == result_steps_entered(steps@),
{
    let mut i: usize = 0;
    proof {
        assert(steps@.skip(0) =~= steps@);
    }
    while i < steps.len()
        invariant
            0 <= i <= steps@.len(),
            forall|j: int| 0 <= j < i ==> (#[trigger] steps@[j]) is Ok,
            result_chain(steps@, tail) == result_chain(steps@.skip(i as int), tail),
            result_steps_entered(steps@) == i + result_steps_entered(steps@.skip(i as int)),
        decreases steps@.len() - i,
    {
        proof {
            assert(steps@.skip(i as int)[0] == steps@[i as int]);
            assert(steps@.skip(i as int).drop_first() =~= steps@.skip(i as int + 1));
        }
        match steps[i] {
            Err(e) => {
                return (Err(e), i + 1);
            },
            Ok(_) => {
                i = i + 1;
            },
        }
    }
    proof {
        assert(steps@.skip(i as int) =~= Seq::<Result<i64, u64>>::empty());
    }
    (tail, i)
}

/// Failure propagation: with a failed step anywhere before the tail, the
/// whole block is that failure, error value unchanged, and no step after
/// the first failed one is entered.
pub proof fn lemma_result_error_propagation(
    steps: Seq<Result<i64, u64>>,
    tail: Result<i64, u64>,
    i: int,
)
    requires
        0 <= i < steps.len(),
        steps[i] is Err,
        forall|j: int| 0 <= j < i ==> (#[trigger] steps[j]) is Ok,
    ensures
        result_chain(steps, tail) == steps[i],
        result_steps_entered(steps) == i + 1,
    decreases i,
{
    if i > 0 {
        let rest = steps.drop_first();
        assert forall|j: int| 0 <= j < i - 1 implies (#[trigger] rest[j]) is Ok by {
            assert(rest[j] == steps[j + 1]);
        }
        assert(rest[i - 1] == steps[i]);
        lemma_result_error_propagation(rest, tail, i - 1);
    }
}

/// A counting structure: a value paired with how many fresh instances were
/// folded into it.
pub struct Counted<A> {
    /// How many fresh instances this one accumulates.
    pub count: usize,
    /// The payload.
    pub value: A,
}

impl<A> Counted<A> {
    /// A fresh instance counts itself once.
    pub fn new(value: A) -> (r: Counted<A>)
        ensures
            r.count == 1,
            r.value == value,
    {
        Counted { count: 1, value }
    }

    /// Sequencing for the counting structure: enter the continuation with
    /// the unwrapped payload, exactly once, and sum the two counts — this
    /// structure never short-circuits.
    pub fn and_then<B, F: FnOnce(A) -> Counted<B>>(self, f: F) -> (r: Counted<B>)
        requires
            call_requires(f, (self.value,)),
            forall|out: Counted<B>|
                call_ensures(f, (self.value,), out) ==> self.count + out.count <= usize::MAX,
        ensures
            exists|mid: Counted<B>|
                {
                    &&& call_ensures(f, (self.value,), mid)
                    &&& r.count == self.count + mid.count
                    &&& r.value == mid.value
                },
    {
        let count = self.count;
        let mid = f(self.value);
        Counted { count: count + mid.count, value: mid.value }
    }
}

/// Lifting into the counting structure yields a fresh instance.
impl<A> Lift<A> for Counted<A> {
    open spec fn spec_lift(a: A) -> Counted<A> {
        Counted { count: 1, value: a }
    }

    fn lift(a: A) -> (r: Counted<A>) {
        Counted::new(a)
    }
}

/// Structural fold correctness for the counting structure: sequencing a
/// block of fresh steps and a fresh tail applies the fold once per step, so
/// the result counts every statement of the block and holds the tail's
/// value.
pub fn run_counted_block(steps: &[i64], tail: i64) -> (r: Counted<i64>)
    requires
        steps@.len() < usize::MAX,
    ensures
        r.count == steps@.len() + 1,
        r.value == tail,
    decreases steps@.len(),
{
    if steps.len() == 0 {
        Counted::new(tail)
    } else {
        let first = Counted::new(steps[0]);
        let rest = run_counted_block(vstd::slice::slice_subrange(steps, 1, steps.len()), tail);
        proof {
            assert(steps@.subrange(1, steps@.len() as int) =~= steps@.drop_first());
        }
        first.and_then(
            (move |_discarded: i64| -> (c: Counted<i64>)
                ensures
                    c == rest,
                {
                    rest
                }),
        )
    }
}

} // verus!
