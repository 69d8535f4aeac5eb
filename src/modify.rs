use vstd::prelude::*;
use vstd::view::View as _;

use crate::lens::{get_spec, set_spec, Lens, Path};
use crate::value::Value;
use crate::view::Proj;

verus! {

/// A mutable projection of a document through a lens.  It holds the
/// document's exclusive borrow and the path it addresses, and resolves that
/// path again when it writes.
pub struct Modify<'a> {
    pub doc: &'a mut Value,
    pub path: Lens,
}

impl<'a> Modify<'a> {
    /// The regions of the document this projection addresses.
    pub open spec fn proj(&self) -> Option<Proj> {
        get_spec(self.path@, (*self.doc)@)
    }

    /// Narrows this projection by a further lens, as a read projection
    /// narrows; nothing when no addressed region survives.
    pub fn get_mut(self, lens: &Lens) -> (r: Option<Self>)
        ensures
            r is Some <==> get_spec(Path::Compose(Box::new(self.path@), Box::new(lens@)), (*old(self.doc))@) is Some,
            r matches Some(m) ==> m.path@ == Path::Compose(Box::new(self.path@), Box::new(lens@))
                && *m.doc == *old(self.doc) && *final(m.doc) == *final(self.doc),
            r is None ==> *final(self.doc) == *old(self.doc),
    {
        let path = Lens::Compose(Box::new(self.path), Box::new(lens.duplicate()));
        if path.get(self.doc).is_some() {
            Some(Modify { doc: self.doc, path })
        } else {
            None
        }
    }

    /// Writes `x` along `lens` in every region this projection addresses.
    pub fn set(self, lens: &Lens, x: Value)
        ensures
            (*final(self.doc))@ == set_spec(Path::Compose(Box::new(self.path@), Box::new(lens@)), (*old(self.doc))@, x@),
    {
        let path = Lens::Compose(Box::new(self.path), Box::new(lens.duplicate()));
        path.set(self.doc, x);
    }
}

} // verus!
