use vstd::prelude::*;

verus! {

broadcast use {
    vstd::std_specs::vec::group_vec_axioms,
    vstd::seq::axiom_seq_index_decreases,
};

#[verifier::external_type_specification]
#[verifier::external_body]
pub struct ExNumber(serde_json::Number);

/// A tree-shaped, dynamically typed document: the host value model that
/// lenses address.  Object entries keep their insertion order.
#[derive(Debug, PartialEq)]
pub enum Value {
    Null,
    Bool(bool),
    Number(serde_json::Number),
    String(String),
    Array(Vec<Value>),
    Object(Vec<(String, Value)>),
}

/// The mathematical content of a `Value`.
pub ghost enum Doc {
    Null,
    Bool(bool),
    Number(serde_json::Number),
    Text(Seq<char>),
    List(Seq<Doc>),
    /// The keys and, position for position, the values of an object.
    Record(Seq<Seq<char>>, Seq<Doc>),
}

impl View for Value {
    type V = Doc;

    open spec fn view(&self) -> Doc
        decreases self,
    {
        match self {
            Value::Null => Doc::Null,
            Value::Bool(b) => Doc::Bool(*b),
            Value::Number(n) => Doc::Number(*n),
            Value::String(s) => Doc::Text(s@),
            Value::Array(items) => Doc::List(
                Seq::new(items@.len(), |i: int|
                    if 0 <= i < items@.len() {
                        items@[i]@
                    } else {
                        Doc::Null
                    }),
            ),
            Value::Object(entries) => Doc::Record(
                Seq::new(entries@.len(), |i: int| entries@[i].0@),
                Seq::new(entries@.len(), |i: int|
                    if 0 <= i < entries@.len() {
                        entries@[i].1@
                    } else {
                        Doc::Null
                    }),
            ),
        }
    }
}

/// Relies on the `Clone` that serde_json derives for `Number` (a copy of its
/// `Copy` representation): the copy equals the original.
pub assume_specification[ <serde_json::Number as Clone>::clone ](
    n: &serde_json::Number,
) -> (r: serde_json::Number)
    ensures
        r == *n,
;

/// `i` is the position of the first key equal to `k`.
pub open spec fn first_key_at(keys: Seq<Seq<char>>, k: Seq<char>, i: int) -> bool {
    &&& 0 <= i < keys.len()
    &&& keys[i] == k
    &&& forall|j: int| 0 <= j < i ==> keys[j] != k
}

/// Where key `k` stands among the keys of an object, if anywhere.
pub open spec fn key_pos(keys: Seq<Seq<char>>, k: Seq<char>) -> Option<int> {
    if exists|i: int| first_key_at(keys, k, i) {
        Some(choose|i: int| first_key_at(keys, k, i))
    } else {
        None
    }
}

/// The keys of an object's entries.
pub open spec fn keys_of(entries: Seq<(String, Value)>) -> Seq<Seq<char>> {
    Seq::new(entries.len(), |i: int| entries[i].0@)
}

/// The values of an object's entries.
pub open spec fn vals_of(entries: Seq<(String, Value)>) -> Seq<Doc> {
    Seq::new(entries.len(), |i: int| entries[i].1@)
}

/// An object's content is its keys and values, position for position.
pub proof fn lemma_object_view(entries: Vec<(String, Value)>)
    ensures
        Value::Object(entries)@ == Doc::Record(keys_of(entries@), vals_of(entries@)),
{
    assert(Value::Object(entries)@->Record_0 =~= keys_of(entries@));
    assert(Value::Object(entries)@->Record_1 =~= vals_of(entries@));
}

/// An array's content is its elements' content, in order.
pub proof fn lemma_array_view(items: Vec<Value>)
    ensures
        Value::Array(items)@ == Doc::List(Seq::new(items@.len(), |i: int| items@[i]@)),
{
    assert(Value::Array(items)@->List_0 =~= Seq::new(items@.len(), |i: int| items@[i]@));
}

/// Looks for key `k` among the entries of an object.
pub fn find_key(entries: &Vec<(String, Value)>, k: &String) -> (r: Option<usize>)
    ensures
        r matches Some(i) ==> key_pos(keys_of(entries@), k@) == Some(i as int),
        r is None ==> key_pos(keys_of(entries@), k@) is None,
{
    let ghost keys = keys_of(entries@);
    let mut i: usize = 0;
    while i < entries.len()
        invariant
            i <= entries.len(),
            keys == keys_of(entries@),
            forall|j: int| 0 <= j < i ==> keys[j] != k@,
        decreases entries.len() - i,
    {
        if entries[i].0 == *k {
            assert(first_key_at(keys, k@, i as int));
            let ghost c = choose|c: int| first_key_at(keys, k@, c);
            assert(c == i);
            return Some(i);
        }
        i += 1;
    }
    None
}

impl Value {
    /// A copy of this document with the same content.
    pub fn deep_copy(&self) -> (r: Value)
        ensures
            r@ == self@,
        decreases self,
    {
        match self {
            Value::Null => Value::Null,
            Value::Bool(b) => Value::Bool(*b),
            Value::Number(n) => Value::Number(n.clone()),
            Value::String(s) => Value::String(s.clone()),
            Value::Array(items) => {
                let mut out: Vec<Value> = Vec::new();
                let mut i: usize = 0;
                while i < items.len()
                    invariant
                        *self == Value::Array(*items),
                        i <= items.len(),
                        out@.len() == i,
                        forall|j: int| 0 <= j < i ==> (#[trigger] out@[j])@ == items@[j]@,
                    decreases items.len() - i,
                {
                    proof {
                        assert(decreases_to!(*self => self->Array_0));
                        assert(decreases_to!(*items => items@));
                        assert(decreases_to!(items@ => items@[i as int]));
                    }
                    out.push(items[i].deep_copy());
                    i += 1;
                }
                let r = Value::Array(out);
                assert(r@->List_0 =~= self@->List_0);
                r
            },
            Value::Object(entries) => {
                let mut out: Vec<(String, Value)> = Vec::new();
                let mut i: usize = 0;
                while i < entries.len()
                    invariant
                        *self == Value::Object(*entries),
                        i <= entries.len(),
                        out@.len() == i,
                        forall|j: int|
                            0 <= j < i ==> (#[trigger] out@[j]).0@ == entries@[j].0@
                                && out@[j].1@ == entries@[j].1@,
                    decreases entries.len() - i,
                {
                    let k = entries[i].0.clone();
                    proof {
                        assert(decreases_to!(*self => self->Object_0));
                        assert(decreases_to!(*entries => entries@));
                        assert(decreases_to!(entries@[i as int] => entries@[i as int].1));
                        assert(decreases_to!(entries@ => entries@[i as int]));
                    }
                    let v = entries[i].1.deep_copy();
                    out.push((k, v));
                    i += 1;
                }
                let r = Value::Object(out);
                assert forall|j: int| 0 <= j < out@.len() implies
                    #[trigger] r@->Record_0[j] == self@->Record_0[j] by {
                    assert(out@[j].0@ == entries@[j].0@);
                }
                assert(r@->Record_0 =~= self@->Record_0);
                assert(r@->Record_1 =~= self@->Record_1);
                r
            },
        }
    }
}

} // verus!
