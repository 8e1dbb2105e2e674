use vstd::prelude::*;
use core::cmp::Ordering;
use vstd::laws_cmp::obeys_partial_cmp_spec_properties;
use vstd::laws_eq::{obeys_concrete_eq, obeys_eq_spec_properties};
use vstd::std_specs::cmp::{PartialEqSpec, PartialOrdIs, PartialOrdSpec};

verus! {

/// What `clamp` returns when the order on `T` follows its specification.
pub open spec fn clamped<T: PartialOrd>(x: T, lb: T, ub: T) -> T {
    if x.is_lt(&lb) {
        lb
    } else if x.is_gt(&ub) {
        ub
    } else {
        x
    }
}

/// Limits `x` to the range `[lb, ub]`: `lb` when `x < lb`, `ub` when `x > ub`, else `x`.
pub fn clamp<T: PartialOrd>(x: T, lb: T, ub: T) -> (r: T)
    ensures
        r == x || r == lb || r == ub,
        T::obeys_partial_cmp_spec() ==> r == clamped(x, lb, ub),
{
    if x < lb {
        lb
    } else if x > ub {
        ub
    } else {
        x
    }
}

/// Clamping twice into the same range gives what clamping once gives, for any
/// lawful partial order and bounds with `lb <= ub`.
pub proof fn lemma_clamp_idempotent<T: PartialOrd>(x: T, lb: T, ub: T)
    requires
        obeys_partial_cmp_spec_properties::<T>(),
        lb.is_le(&ub),
    ensures
        clamped(clamped(x, lb, ub), lb, ub) == clamped(x, lb, ub),
{
    reveal(obeys_partial_cmp_spec_properties);
    reveal(obeys_eq_spec_properties);
    if !x.is_lt(&lb) && x.is_gt(&ub) {
        if lb.is_lt(&ub) {
            assert(ub.is_gt(&lb));
        } else {
            assert(lb.eq_spec(&ub));
            assert(ub.eq_spec(&lb));
        }
    }
}

/// `a` and `b` are ordered one way or the other (or equal).
pub open spec fn comparable<T: PartialOrd>(a: T, b: T) -> bool {
    a.partial_cmp_spec(&b) is Some
}

/// Clamping keeps the order of values: `x1 <= x2` gives `clamp(x1) <= clamp(x2)`, for a
/// lawful order whose equality is identity, bounds with `lb <= ub`, and values that compare
/// with the bounds (as all values of the integer types do).
pub proof fn lemma_clamp_monotonic<T: PartialOrd>(x1: T, x2: T, lb: T, ub: T)
    requires
        obeys_partial_cmp_spec_properties::<T>(),
        obeys_concrete_eq::<T>(),
        lb.is_le(&ub),
        x1.is_le(&x2),
        comparable(x1, lb),
        comparable(x1, ub),
        comparable(x2, lb),
        comparable(x2, ub),
    ensures
        clamped(x1, lb, ub).is_le(&clamped(x2, lb, ub)),
{
    reveal(obeys_partial_cmp_spec_properties);
    reveal(obeys_eq_spec_properties);
    reveal(obeys_concrete_eq);
    assert(lb.eq_spec(&lb));
    assert(ub.eq_spec(&ub));
    assert(lb.is_le(&lb));
    assert(ub.is_le(&ub));
    if x1.is_lt(&lb) {
        if !x2.is_lt(&lb) && !x2.is_gt(&ub) {
            if x2.is_gt(&lb) {
                assert(lb.is_lt(&x2));
            } else {
                assert(x2.partial_cmp_spec(&lb) == Some(Ordering::Equal));
                assert(x2.eq_spec(&lb));
                assert(x2 == lb);
            }
        }
    } else if x1.is_gt(&ub) {
        assert(x2.is_gt(&ub));
        if lb.is_lt(&ub) {
            assert(x2.is_gt(&lb));
        }
        assert(!x2.is_lt(&lb));
    } else {
        if x2.is_lt(&lb) {
            assert(x1.is_lt(&lb));
        }
        if x2.is_gt(&ub) {
            assert(x1.is_le(&ub));
        }
    }
}

/// Taking the contents out of a collection, leaving an empty one behind.
pub trait VecExt: Sized {
    fn move_contents(&mut self) -> Self;
}

impl<T> VecExt for Vec<T> {
    /// Returns the elements held so far and leaves the vector empty.
    fn move_contents(&mut self) -> (r: Self)
        ensures
            r@ == old(self)@,
            final(self)@ == Seq::<T>::empty(),
    {
        let mut taken: Vec<T> = Vec::new();
        std::mem::swap(self, &mut taken);
        taken
    }
}

} // verus!
