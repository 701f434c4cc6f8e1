//! One of four alternatives.

use vstd::prelude::*;

verus! {

/// Combines four different kinds of work into one.
#[derive(Debug)]
pub enum FourEither<A, B, C, D> {
    /// First branch of the type
    A(A),
    /// Second branch of the type
    B(B),
    C(C),
    D(D),
}

impl<T, A, B, C, D> FourEither<(T, A), (T, B), (T, C), (T, D)> {
    /// Splits out what all branches have in common.
    pub fn split(self) -> (r: (T, FourEither<A, B, C, D>))
        ensures
            match self {
                FourEither::A(p) => r.0 == p.0 && r.1 == FourEither::<A, B, C, D>::A(p.1),
                FourEither::B(p) => r.0 == p.0 && r.1 == FourEither::<A, B, C, D>::B(p.1),
                FourEither::C(p) => r.0 == p.0 && r.1 == FourEither::<A, B, C, D>::C(p.1),
                FourEither::D(p) => r.0 == p.0 && r.1 == FourEither::<A, B, C, D>::D(p.1),
            },
    {
        match self {
            FourEither::A((a, b)) => (a, FourEither::A(b)),
            FourEither::B((a, b)) => (a, FourEither::B(b)),
            FourEither::C((a, b)) => (a, FourEither::C(b)),
            FourEither::D((a, b)) => (a, FourEither::D(b)),
        }
    }
}

} // verus!
