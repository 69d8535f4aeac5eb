use vstd::prelude::*;
use vstd::view::View as _;

use crate::lens::{Lens, Path};

verus! {

/// A key that can extend a lens by one step: text names an object field, an
/// integer an array position, and a lens is appended whole.
pub trait Select: Sized {
    /// The step this key stands for.
    spec fn step(&self) -> Path;

    /// `lens` followed by this key's step.
    fn pipe(self, lens: Lens) -> (r: Lens)
        ensures
            r@ == Path::Compose(Box::new(lens@), Box::new(self.step())),
    ;
}

impl Select for Lens {
    open spec fn step(&self) -> Path {
        self@
    }

    fn pipe(self, other: Lens) -> (r: Lens) {
        Lens::Compose(Box::new(other), Box::new(self))
    }
}

impl<'s> Select for &'s str {
    open spec fn step(&self) -> Path {
        Path::Field((*self)@)
    }

    fn pipe(self, lens: Lens) -> (r: Lens) {
        lens.select(self.to_owned())
    }
}

impl Select for String {
    open spec fn step(&self) -> Path {
        Path::Field(self@)
    }

    fn pipe(self, lens: Lens) -> (r: Lens) {
        lens.select(Lens::Field(self))
    }
}

impl Select for usize {
    open spec fn step(&self) -> Path {
        Path::Index(*self as nat)
    }

    fn pipe(self, lens: Lens) -> (r: Lens) {
        lens.select(Lens::Index(self))
    }
}

} // verus!
