use vstd::prelude::*;
use vstd::view::View as _;

use crate::lens::{narrow, narrow_seq, Lens};
use crate::value::{find_key, Doc, Value};

verus! {

broadcast use {
    vstd::std_specs::vec::group_vec_axioms,
    vstd::seq::axiom_seq_index_decreases,
};

/// What a read projection holds: one document, or one projection for each
/// element that a broadcast step reached.
pub ghost enum Proj {
    One(Doc),
    Many(Seq<Proj>),
}

/// A read-only projection of a document through a lens.
#[derive(Debug, PartialEq)]
pub enum View<'a> {
    Borrow(&'a Value),
    BorrowVec(Vec<View<'a>>),
}

impl<'a> View<'a> {
    /// The documents this projection holds, in its shape.
    pub open spec fn proj(&self) -> Proj
        decreases self,
    {
        match self {
            View::Borrow(v) => Proj::One((*v)@),
            View::BorrowVec(vs) => Proj::Many(
                Seq::new(vs@.len(), |i: int|
                    if 0 <= i < vs@.len() {
                        vs@[i].proj()
                    } else {
                        Proj::Many(Seq::empty())
                    }),
            ),
        }
    }

    /// Narrows this projection by a further lens: a single document is read
    /// along `lens`; each member of a broadcast projection is narrowed on its
    /// own, keeping those that still yield something, and nothing is left
    /// when none does.
    pub fn get(self, lens: &'a Lens) -> (r: Option<Self>)
        ensures
            proj_of(r) == narrow(lens@, self.proj()),
    {
        narrow_view(lens, self)
    }
}

/// What an optional projection holds.
pub open spec fn proj_of(r: Option<View>) -> Option<Proj> {
    match r {
        Some(v) => Some(v.proj()),
        None => None,
    }
}

/// Narrows projection `q` along `lens`.
pub fn narrow_view<'a>(lens: &'a Lens, q: View<'a>) -> (r: Option<View<'a>>)
    ensures
        proj_of(r) == narrow(lens@, q.proj()),
    decreases lens@, q.proj(),
{
    match q {
        View::BorrowVec(vs) => {
            let ghost qs = q.proj()->Many_0;
            let ghost n = vs@.len();
            let mut rest = vs;
            let mut out: Vec<View<'a>> = Vec::new();
            let ghost mut i: int = 0;
            while rest.len() > 0
                invariant
                    0 <= i <= n,
                    q.proj() == Proj::Many(qs),
                    qs.len() == n,
                    rest@.len() == n - i,
                    forall|j: int| 0 <= j < rest@.len() ==> (#[trigger] rest@[j]).proj() == qs[i + j],
                    out@.len() == narrow_seq(lens@, qs.subrange(0, i)).len(),
                    forall|j: int| 0 <= j < out@.len() ==>
                        (#[trigger] out@[j]).proj() == narrow_seq(lens@, qs.subrange(0, i))[j],
                decreases rest@.len(),
            {
                let first = rest.remove(0);
                proof {
                    assert(decreases_to!(q.proj() => q.proj()->Many_0));
                    assert(decreases_to!(qs => qs[i]));
                    assert(decreases_to!(q.proj() => qs[i]));
                    assert(qs.subrange(0, i + 1).subrange(0, i) =~= qs.subrange(0, i));
                }
                let got = narrow_view(lens, first);
                match got {
                    Some(g) => {
                        out.push(g);
                    },
                    None => {},
                }
                proof {
                    i = i + 1;
                }
            }
            assert(qs.subrange(0, n as int) =~= qs);
            if out.len() == 0 {
                None
            } else {
                let r = View::BorrowVec(out);
                assert(r.proj()->Many_0 =~= narrow_seq(lens@, qs));
                Some(r)
            }
        },
        View::Borrow(v) => match lens {
            Lens::Field(k) => match v {
                Value::Object(entries) => match find_key(entries, k) {
                    Some(i) => Some(View::Borrow(&entries[i].1)),
                    None => None,
                },
                _ => None,
            },
            Lens::Index(i) => match v {
                Value::Array(items) => if *i < items.len() {
                    Some(View::Borrow(&items[*i]))
                } else {
                    None
                },
                _ => None,
            },
            Lens::Compose(a, b) => match narrow_view(a, View::Borrow(v)) {
                Some(r) => narrow_view(b, r),
                None => None,
            },
            Lens::ForEach => match v {
                Value::Array(items) => {
                    let mut out: Vec<View<'a>> = Vec::new();
                    let mut j: usize = 0;
                    while j < items.len()
                        invariant
                            j <= items.len(),
                            out@.len() == j,
                            forall|t: int| 0 <= t < j ==> (#[trigger] out@[t]).proj() == Proj::One(items@[t]@),
                        decreases items.len() - j,
                    {
                        out.push(View::Borrow(&items[j]));
                        j += 1;
                    }
                    let r = View::BorrowVec(out);
                    assert(r.proj()->Many_0 =~= Seq::new(
                        v@->List_0.len(),
                        |t: int| Proj::One(v@->List_0[t]),
                    ));
                    Some(r)
                },
                _ => None,
            },
            Lens::Empty => Some(View::Borrow(v)),
        },
    }
}

} // verus!
