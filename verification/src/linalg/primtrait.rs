//! The scalar trait the generic linear-algebra kernels range over.
//!
//! A `PrimNum` is a plain machine number with an exact view into the
//! unbounded integers: addition and multiplication are exact wherever the
//! mathematical result fits back into the type, and the kernels prove
//! that it always does under their stated bounds.

use vstd::prelude::*;

verus! {

/// A primitive exact scalar: copyable, with a mathematical view, a zero,
/// and exact addition and multiplication on values that fit.
pub trait PrimNum: Sized + Copy {
    /// The mathematical value of this scalar.
    spec fn pn_view(self) -> int;

    /// Which mathematical values fit in this scalar type.
    spec fn pn_fits(v: int) -> bool;

    /// Every inhabitant's value fits.
    proof fn pn_lemma_view_fits(self)
        ensures
            Self::pn_fits(self.pn_view()),
    ;

    /// The values that fit form an interval: anything between two fitting
    /// values fits as well.
    proof fn pn_lemma_fits_between(a: int, b: int, v: int)
        requires
            Self::pn_fits(a),
            Self::pn_fits(b),
            a <= v <= b,
        ensures
            Self::pn_fits(v),
    ;

    /// The additive identity.
    fn pn_zero() -> (r: Self)
        ensures
            r.pn_view() == 0,
    ;

    /// Exact addition; the caller shows that the sum fits.
    fn pn_plus(self, o: Self) -> (r: Self)
        requires
            Self::pn_fits(self.pn_view() + o.pn_view()),
        ensures
            r.pn_view() == self.pn_view() + o.pn_view(),
    ;

    /// Exact multiplication; the caller shows that the product fits.
    fn pn_times(self, o: Self) -> (r: Self)
        requires
            Self::pn_fits(self.pn_view() * o.pn_view()),
        ensures
            r.pn_view() == self.pn_view() * o.pn_view(),
    ;
}

impl PrimNum for i64 {
    open spec fn pn_view(self) -> int {
        self as int
    }

    open spec fn pn_fits(v: int) -> bool {
        i64::MIN <= v <= i64::MAX
    }

    proof fn pn_lemma_view_fits(self) {
    }

    proof fn pn_lemma_fits_between(a: int, b: int, v: int) {
    }

    fn pn_zero() -> (r: Self) {
        0
    }

    fn pn_plus(self, o: Self) -> (r: Self) {
        self + o
    }

    fn pn_times(self, o: Self) -> (r: Self) {
        self * o
    }
}

impl PrimNum for u64 {
    open spec fn pn_view(self) -> int {
        self as int
    }

    open spec fn pn_fits(v: int) -> bool {
        0 <= v <= u64::MAX
    }

    proof fn pn_lemma_view_fits(self) {
    }

    proof fn pn_lemma_fits_between(a: int, b: int, v: int) {
    }

    fn pn_zero() -> (r: Self) {
        0
    }

    fn pn_plus(self, o: Self) -> (r: Self) {
        self + o
    }

    fn pn_times(self, o: Self) -> (r: Self) {
        self * o
    }
}

} // verus!
