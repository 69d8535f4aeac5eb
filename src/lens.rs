use vstd::prelude::*;
use vstd::view::View as _;

use crate::value::{
    find_key, key_pos, keys_of, lemma_array_view, lemma_object_view, vals_of, Doc, Value,
};
use crate::modify::Modify;
use crate::select::Select;
use crate::view::{narrow_view, proj_of, Proj, View};

verus! {

broadcast use {
    vstd::std_specs::vec::group_vec_axioms,
    vstd::seq::axiom_seq_index_decreases,
    vstd::seq::axiom_seq_subrange_decreases,
};

/// A path into a document: a reusable description of the location(s) to read
/// or write.
#[derive(Debug)]
pub enum Lens {
    Field(String),
    Index(usize),
    Compose(Box<Lens>, Box<Lens>),
    ForEach,
    Empty,
}

/// The mathematical content of a `Lens`.
pub ghost enum Path {
    Field(Seq<char>),
    Index(nat),
    Compose(Box<Path>, Box<Path>),
    ForEach,
    Empty,
}

impl vstd::view::View for Lens {
    type V = Path;

    open spec fn view(&self) -> Path
        decreases self,
    {
        match self {
            Lens::Field(k) => Path::Field(k@),
            Lens::Index(i) => Path::Index(*i as nat),
            Lens::Compose(a, b) => Path::Compose(Box::new((**a)@), Box::new((**b)@)),
            Lens::ForEach => Path::ForEach,
            Lens::Empty => Path::Empty,
        }
    }
}

/// The number of steps in a path, counting each composition.
pub open spec fn size(p: Path) -> nat
    decreases p,
{
    match p {
        Path::Compose(a, b) => 1 + size(*a) + size(*b),
        _ => 1,
    }
}

/// Narrowing a projection along a path.  A single document is read step by
/// step; each member of a broadcast projection is narrowed on its own, the
/// members that fail are dropped, and when none is left nothing is.
pub open spec fn narrow(p: Path, q: Proj) -> Option<Proj>
    decreases p, q,
{
    match q {
        Proj::Many(qs) => {
            let rs = narrow_seq(p, qs);
            if rs.len() == 0 {
                None
            } else {
                Some(Proj::Many(rs))
            }
        },
        Proj::One(d) => match p {
            Path::Field(k) => match d {
                Doc::Record(keys, vals) => match key_pos(keys, k) {
                    Some(i) => Some(Proj::One(vals[i])),
                    None => None,
                },
                _ => None,
            },
            Path::Index(i) => match d {
                Doc::List(s) => if i < s.len() {
                    Some(Proj::One(s[i as int]))
                } else {
                    None
                },
                _ => None,
            },
            Path::Compose(a, b) => match narrow(*a, Proj::One(d)) {
                Some(r) => narrow(*b, r),
                None => None,
            },
            Path::ForEach => match d {
                Doc::List(s) => Some(Proj::Many(Seq::new(s.len(), |j: int| Proj::One(s[j])))),
                _ => None,
            },
            Path::Empty => Some(Proj::One(d)),
        },
    }
}

/// The members of a broadcast projection that survive narrowing, in order.
pub open spec fn narrow_seq(p: Path, qs: Seq<Proj>) -> Seq<Proj>
    decreases p, qs,
{
    if qs.len() == 0 {
        Seq::empty()
    } else {
        let rest = narrow_seq(p, qs.subrange(0, qs.len() - 1));
        match narrow(p, qs[qs.len() - 1]) {
            Some(r) => rest.push(r),
            None => rest,
        }
    }
}

/// What reading document `d` along `p` yields.
pub open spec fn get_spec(p: Path, d: Doc) -> Option<Proj> {
    narrow(p, Proj::One(d))
}

/// The document after writing `x` at the location(s) `p` addresses in `d`.
pub open spec fn set_spec(p: Path, d: Doc, x: Doc) -> Doc
    decreases size(p), 0nat,
{
    match p {
        Path::Field(k) => match d {
            Doc::Record(keys, vals) => match key_pos(keys, k) {
                Some(i) => Doc::Record(keys, vals.update(i, x)),
                None => Doc::Record(keys.push(k), vals.push(x)),
            },
            _ => d,
        },
        Path::Index(i) => match d {
            Doc::List(s) => if i < s.len() {
                Doc::List(s.update(i as int, x))
            } else {
                d
            },
            _ => d,
        },
        Path::Compose(a, b) => over(*a, d, *b, x),
        Path::ForEach => match d {
            Doc::List(s) => Doc::List(Seq::new(s.len(), |j: int| x)),
            _ => d,
        },
        Path::Empty => d,
    }
}

/// The document after writing `x` along `then` at every location that `p`
/// addresses in `d`.
pub open spec fn over(p: Path, d: Doc, then: Path, x: Doc) -> Doc
    decreases size(p) + size(then), size(p),
{
    match p {
        Path::Field(k) => match d {
            Doc::Record(keys, vals) => match key_pos(keys, k) {
                Some(i) => Doc::Record(keys, vals.update(i, set_spec(then, vals[i], x))),
                None => d,
            },
            _ => d,
        },
        Path::Index(i) => match d {
            Doc::List(s) => if i < s.len() {
                Doc::List(s.update(i as int, set_spec(then, s[i as int], x)))
            } else {
                d
            },
            _ => d,
        },
        Path::Compose(a, b) => over(*a, d, Path::Compose(b, Box::new(then)), x),
        Path::ForEach => match d {
            Doc::List(s) => Doc::List(Seq::new(s.len(), |j: int| set_spec(then, s[j], x))),
            _ => d,
        },
        Path::Empty => set_spec(then, d, x),
    }
}

impl Lens {
    /// A copy of this lens.
    pub fn duplicate(&self) -> (r: Lens)
        ensures
            r@ == self@,
        decreases self,
    {
        match self {
            Lens::Field(k) => Lens::Field(k.clone()),
            Lens::Index(i) => Lens::Index(*i),
            Lens::Compose(a, b) => Lens::Compose(Box::new(a.duplicate()), Box::new(b.duplicate())),
            Lens::ForEach => Lens::ForEach,
            Lens::Empty => Lens::Empty,
        }
    }

    /// Reads `value` along this lens: absence when the document's shape does
    /// not match the path.
    pub fn get<'a>(&'a self, value: &'a Value) -> (r: Option<View<'a>>)
        ensures
            proj_of(r) == get_spec(self@, value@),
    {
        narrow_view(self, View::Borrow(value))
    }

    /// A mutable projection of `value` through this lens: present exactly
    /// when reading along the lens yields something.
    pub fn get_mut<'a>(&'a self, value: &'a mut Value) -> (r: Option<Modify<'a>>)
        ensures
            r is Some <==> get_spec(self@, old(value)@) is Some,
            r matches Some(m) ==> m.path@ == self@ && *m.doc == *old(value) && *final(m.doc)
                == *final(value),
            r is None ==> *final(value) == *old(value),
    {
        if self.get(&*value).is_some() {
            Some(Modify { doc: value, path: self.duplicate() })
        } else {
            None
        }
    }

    /// Writes `x` at the location(s) this lens addresses in `value`; where
    /// the document's shape does not match, it is left as it was.
    pub fn set(&self, value: &mut Value, x: Value)
        ensures
            final(value)@ == set_spec(self@, old(value)@, x@),
        decreases size(self@), 0nat,
    {
        let mut cur = Value::Null;
        std::mem::swap(value, &mut cur);
        match self {
            Lens::Field(k) => match cur {
                Value::Object(mut entries) => {
                    proof {
                        lemma_object_view(entries);
                    }
                    let ghost es0 = entries@;
                    match find_key(&entries, k) {
                        Some(i) => {
                            entries[i].1 = x;
                            assert(keys_of(entries@) =~= keys_of(es0));
                            assert(vals_of(entries@) =~= vals_of(es0).update(i as int, x@));
                        },
                        None => {
                            entries.push((k.clone(), x));
                            assert(keys_of(entries@) =~= keys_of(es0).push(k@));
                            assert(vals_of(entries@) =~= vals_of(es0).push(x@));
                        },
                    }
                    proof {
                        lemma_object_view(entries);
                    }
                    *value = Value::Object(entries);
                },
                other => {
                    *value = other;
                },
            },
            Lens::Index(i) => match cur {
                Value::Array(mut items) => {
                    proof {
                        lemma_array_view(items);
                    }
                    let ghost s0 = items@;
                    if *i < items.len() {
                        items[*i] = x;
                    }
                    proof {
                        lemma_array_view(items);
                        if (*i as int) < s0.len() {
                            assert(Seq::new(items@.len(), |t: int| items@[t]@) =~= Seq::new(
                                s0.len(),
                                |t: int| s0[t]@,
                            ).update(*i as int, x@));
                        } else {
                            assert(items@ == s0);
                        }
                    }
                    *value = Value::Array(items);
                },
                other => {
                    *value = other;
                },
            },
            Lens::Compose(a, b) => {
                a.set_under(&mut cur, b, x);
                *value = cur;
            },
            Lens::ForEach => match cur {
                Value::Array(mut items) => {
                    let n = items.len();
                    let mut j: usize = 0;
                    while j < n
                        invariant
                            n == items@.len(),
                            j <= n,
                            forall|t: int| 0 <= t < j ==> (#[trigger] items@[t])@ == x@,
                        decreases n - j,
                    {
                        items[j] = x.deep_copy();
                        j += 1;
                    }
                    proof {
                        lemma_array_view(items);
                        assert(Seq::new(items@.len(), |t: int| items@[t]@) =~= Seq::new(
                            n as nat,
                            |t: int| x@,
                        ));
                    }
                    *value = Value::Array(items);
                },
                other => {
                    *value = other;
                },
            },
            Lens::Empty => {
                *value = cur;
            },
        }
    }

    /// Writes `x` along `then` at every location this lens addresses in
    /// `value`.
    fn set_under(&self, value: &mut Value, then: &Lens, x: Value)
        ensures
            final(value)@ == over(self@, old(value)@, then@, x@),
        decreases size(self@) + size(then@), size(self@),
    {
        let mut cur = Value::Null;
        std::mem::swap(value, &mut cur);
        match self {
            Lens::Field(k) => match cur {
                Value::Object(mut entries) => {
                    proof {
                        lemma_object_view(entries);
                    }
                    let ghost es0 = entries@;
                    match find_key(&entries, k) {
                        Some(i) => {
                            then.set(&mut entries[i].1, x);
                            assert(keys_of(entries@) =~= keys_of(es0));
                            assert(vals_of(entries@) =~= vals_of(es0).update(
                                i as int,
                                set_spec(then@, es0[i as int].1@, x@),
                            ));
                        },
                        None => {},
                    }
                    proof {
                        lemma_object_view(entries);
                    }
                    *value = Value::Object(entries);
                },
                other => {
                    *value = other;
                },
            },
            Lens::Index(i) => match cur {
                Value::Array(mut items) => {
                    proof {
                        lemma_array_view(items);
                    }
                    let ghost s0 = items@;
                    if *i < items.len() {
                        then.set(&mut items[*i], x);
                    }
                    proof {
                        lemma_array_view(items);
                        if (*i as int) < s0.len() {
                            assert(Seq::new(items@.len(), |t: int| items@[t]@) =~= Seq::new(
                                s0.len(),
                                |t: int| s0[t]@,
                            ).update(*i as int, set_spec(then@, s0[*i as int]@, x@)));
                        } else {
                            assert(items@ == s0);
                        }
                    }
                    *value = Value::Array(items);
                },
                other => {
                    *value = other;
                },
            },
            Lens::Compose(a, b) => {
                let rest = Lens::Compose(Box::new(b.duplicate()), Box::new(then.duplicate()));
                a.set_under(&mut cur, &rest, x);
                *value = cur;
            },
            Lens::ForEach => match cur {
                Value::Array(mut items) => {
                    proof {
                        lemma_array_view(items);
                    }
                    let ghost s0 = items@;
                    let n = items.len();
                    let mut j: usize = 0;
                    while j < n
                        invariant
                            n == items@.len(),
                            n == s0.len(),
                            j <= n,
                            forall|t: int|
                                0 <= t < j ==> (#[trigger] items@[t])@ == set_spec(
                                    then@,
                                    s0[t]@,
                                    x@,
                                ),
                            forall|t: int| j <= t < n ==> #[trigger] items@[t] == s0[t],
                        decreases n - j,
                    {
                        then.set(&mut items[j], x.deep_copy());
                        j += 1;
                    }
                    proof {
                        lemma_array_view(items);
                        let s = old(value)@->List_0;
                        assert(s =~= Seq::new(s0.len(), |t: int| s0[t]@));
                        assert(Seq::new(items@.len(), |t: int| items@[t]@) =~= over(
                            self@,
                            old(value)@,
                            then@,
                            x@,
                        )->List_0);
                    }
                    *value = Value::Array(items);
                },
                other => {
                    *value = other;
                },
            },
            Lens::Empty => {
                then.set(&mut cur, x);
                *value = cur;
            },
        }
    }

    /// This lens followed by one more step.
    pub fn select<I: Select>(self, item: I) -> (r: Self)
        ensures
            r@ == Path::Compose(Box::new(self@), Box::new(item.step())),
    {
        item.pipe(self)
    }

    /// A one-step lens.
    pub fn new<I: Select>(item: I) -> (r: Self)
        ensures
            r@ == Path::Compose(Box::new(Path::Empty), Box::new(item.step())),
    {
        item.pipe(Lens::Empty)
    }

    /// The broadcast lens: every element of an array.
    pub fn foreach() -> (r: Self)
        ensures
            r@ == Path::ForEach,
    {
        Lens::ForEach
    }

    /// This lens followed by a broadcast step.
    pub fn each(self) -> (r: Self)
        ensures
            r@ == Path::Compose(Box::new(self@), Box::new(Path::ForEach)),
    {
        Lens::ForEach.pipe(self)
    }
}

impl Default for Lens {
    /// The identity lens, which addresses the document itself.
    fn default() -> (r: Lens)
        ensures
            r@ == Path::Empty,
    {
        Lens::Empty
    }
}

} // verus!
