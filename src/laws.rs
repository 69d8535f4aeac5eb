use vstd::prelude::*;
use vstd::view::View as _;

use crate::lens::{get_spec, narrow, over, set_spec, size, Path};
use crate::value::{first_key_at, key_pos, Doc, Value};
use crate::view::Proj;

verus! {

broadcast use {
    vstd::std_specs::vec::group_vec_axioms,
    vstd::seq::axiom_seq_index_decreases,
};

/// A document whose objects pair every key with a value, all the way down.
pub open spec fn wf(d: Doc) -> bool
    decreases d,
{
    match d {
        Doc::List(s) => forall|i: int| #![trigger s[i]] 0 <= i < s.len() ==> wf(s[i]),
        Doc::Record(keys, vals) => keys.len() == vals.len() && forall|i: int|
            #![trigger vals[i]] 0 <= i < vals.len() ==> wf(vals[i]),
        _ => true,
    }
}

/// Every document's content is well formed.
pub proof fn lemma_view_wf(v: &Value)
    ensures
        wf(v@),
    decreases v,
{
    match v {
        Value::Array(items) => {
            assert forall|i: int| 0 <= i < v@->List_0.len() implies #[trigger] wf(v@->List_0[i]) by {
                assert(decreases_to!(*v => v->Array_0));
                assert(decreases_to!(*items => items@));
                assert(decreases_to!(items@ => items@[i]));
                lemma_view_wf(&items@[i]);
                assert(v@->List_0[i] == items@[i]@);
            }
            let d = v@;
            assert(forall|i: int| 0 <= i < d->List_0.len() ==> wf(d->List_0[i]));
        },
        Value::Object(entries) => {
            assert forall|i: int| 0 <= i < v@->Record_1.len() implies #[trigger] wf(v@->Record_1[i]) by {
                assert(decreases_to!(*v => v->Object_0));
                assert(decreases_to!(*entries => entries@));
                assert(decreases_to!(entries@ => entries@[i]));
                assert(decreases_to!(entries@[i] => entries@[i].1));
                lemma_view_wf(&entries@[i].1);
                assert(v@->Record_1[i] == entries@[i].1@);
            }
            let d = v@;
            assert(forall|i: int| 0 <= i < d->Record_1.len() ==> wf(d->Record_1[i]));
        },
        _ => {},
    }
}

/// A path with no broadcast step: it addresses at most one location.
pub open spec fn single(p: Path) -> bool
    decreases p,
{
    match p {
        Path::ForEach => false,
        Path::Compose(a, b) => single(*a) && single(*b),
        _ => true,
    }
}

/// A path with no broadcast step whose last step names a field or a
/// position, so that writing along it replaces the value it reads.
pub open spec fn writes_through(p: Path) -> bool
    decreases p,
{
    match p {
        Path::Field(_) | Path::Index(_) => true,
        Path::Compose(a, b) => single(*a) && writes_through(*b),
        _ => false,
    }
}

/// A read along a path with no broadcast step yields one document or
/// nothing, never a broadcast projection.
pub proof fn law_single_path_reads_one(p: Path, d: Value)
    requires
        single(p),
    ensures
        get_spec(p, d@) matches Some(q) ==> q is One,
{
    lemma_single_reads_one(p, d@);
}

proof fn lemma_single_reads_one(p: Path, d: Doc)
    requires
        single(p),
    ensures
        get_spec(p, d) matches Some(q) ==> q is One,
    decreases p,
{
    if let Path::Compose(a, b) = p {
        lemma_single_reads_one(*a, d);
        if let Some(q) = get_spec(*a, d) {
            lemma_single_reads_one(*b, q->One_0);
        }
    }
}

/// Writing along `t` at the one location a broadcast-free path `a` reaches
/// leaves `a` reaching the written value.
proof fn lemma_over_single(a: Path, d: Doc, t: Path, x: Doc)
    requires
        single(a),
        wf(d),
        get_spec(a, d) is Some,
    ensures
        get_spec(a, d)->Some_0 is One,
        get_spec(a, over(a, d, t, x)) == Some(Proj::One(set_spec(t, get_spec(a, d)->Some_0->One_0, x))),
        wf(get_spec(a, d)->Some_0->One_0),
    decreases size(a) + size(t), size(a),
{
    match a {
        Path::Field(k) => {
            let i = key_pos(d->Record_0, k)->Some_0;
            assert(0 <= i < d->Record_1.len());
            assert(wf(d->Record_1[i]));
        },
        Path::Index(i) => {
            assert(wf(d->List_0[i as int]));
        },
        Path::Compose(a1, a2) => {
            let rest = Path::Compose(a2, Box::new(t));
            lemma_over_single(*a1, d, rest, x);
            let v = get_spec(*a1, d)->Some_0->One_0;
            lemma_over_single(*a2, v, t, x);
            assert(narrow(*a1, Proj::One(d)) == Some(Proj::One(v)));
            assert(over(a, d, t, x) == over(*a1, d, rest, x));
        },
        Path::Empty => {},
        Path::ForEach => {},
    }
}

/// Round trip: writing `x` along a path that ends in a field or position
/// and has no broadcast step, where reading along it succeeds, and then
/// reading along it again yields exactly `x`.
pub proof fn law_set_then_get(p: Path, d: Value, x: Value)
    requires
        writes_through(p),
        get_spec(p, d@) is Some,
    ensures
        get_spec(p, set_spec(p, d@, x@)) == Some(Proj::One(x@)),
{
    lemma_view_wf(&d);
    lemma_set_then_get(p, d@, x@);
}

proof fn lemma_set_then_get(p: Path, d: Doc, x: Doc)
    requires
        writes_through(p),
        wf(d),
        get_spec(p, d) is Some,
    ensures
        get_spec(p, set_spec(p, d, x)) == Some(Proj::One(x)),
    decreases p,
{
    match p {
        Path::Field(k) => {
            let i = key_pos(d->Record_0, k)->Some_0;
            assert(0 <= i < d->Record_1.len());
        },
        Path::Compose(a, b) => {
            lemma_over_single(*a, d, *b, x);
            let v = get_spec(*a, d)->Some_0->One_0;
            assert(get_spec(*b, v) is Some);
            lemma_set_then_get(*b, v, x);
        },
        _ => {},
    }
}

/// Broadcast write: writing `x` along the broadcast lens into an array of
/// `n` elements yields an array of `n` copies of `x`.
pub proof fn law_broadcast_write(items: Seq<Doc>, x: Value)
    ensures
        set_spec(Path::ForEach, Doc::List(items), x@) =~= Doc::List(Seq::new(items.len(), |i: int| x@)),
{
}

/// Writing a field into anything but an object changes nothing.
pub proof fn law_field_on_non_object(k: Seq<char>, d: Value, x: Value)
    requires
        !(d@ is Record),
    ensures
        set_spec(Path::Field(k), d@, x@) == d@,
{
}

/// Where some key equals `k`, a first one does.
proof fn lemma_first_key_exists(keys: Seq<Seq<char>>, k: Seq<char>, j: int)
    requires
        0 <= j < keys.len(),
        keys[j] == k,
    ensures
        key_pos(keys, k) is Some,
    decreases j,
{
    if forall|m: int| 0 <= m < j ==> keys[m] != k {
        assert(first_key_at(keys, k, j));
    } else {
        let m = choose|m: int| 0 <= m < j && keys[m] == k;
        lemma_first_key_exists(keys, k, m);
    }
}

/// A key appended to keys that lacked it is found at the end.
proof fn lemma_key_pos_push(keys: Seq<Seq<char>>, k: Seq<char>)
    requires
        key_pos(keys, k) is None,
    ensures
        key_pos(keys.push(k), k) == Some(keys.len() as int),
{
    let ks = keys.push(k);
    assert forall|j: int| 0 <= j < keys.len() implies ks[j] != k by {
        if ks[j] == k {
            lemma_first_key_exists(keys, k, j);
        }
    }
    assert(first_key_at(ks, k, keys.len() as int));
}

/// Writing the same value along the same path twice leaves the document as
/// writing it once does.
pub proof fn law_set_idempotent(p: Path, d: Value, x: Value)
    ensures
        set_spec(p, set_spec(p, d@, x@), x@) == set_spec(p, d@, x@),
{
    lemma_view_wf(&d);
    lemma_set_idem(p, d@, x@);
}

proof fn lemma_set_idem(p: Path, d: Doc, x: Doc)
    requires
        wf(d),
    ensures
        set_spec(p, set_spec(p, d, x), x) == set_spec(p, d, x),
    decreases size(p), 0nat,
{
    match p {
        Path::Field(k) => {
            if d is Record {
                let keys = d->Record_0;
                let vals = d->Record_1;
                match key_pos(keys, k) {
                    Some(i) => {
                        assert(vals.update(i, x).update(i, x) =~= vals.update(i, x));
                    },
                    None => {
                        lemma_key_pos_push(keys, k);
                        assert(vals.push(x).update(vals.len() as int, x) =~= vals.push(x));
                    },
                }
            }
        },
        Path::Index(i) => {
            if d is List {
                let s = d->List_0;
                if i < s.len() {
                    assert(s.update(i as int, x).update(i as int, x) =~= s.update(i as int, x));
                }
            }
        },
        Path::ForEach => {
            if d is List {
                let s = d->List_0;
                let s1 = Seq::new(s.len(), |j: int| x);
                assert(Seq::new(s1.len(), |j: int| x) =~= s1);
            }
        },
        Path::Compose(a, b) => {
            lemma_over_idem(*a, d, *b, x);
        },
        Path::Empty => {},
    }
}

proof fn lemma_over_idem(a: Path, d: Doc, t: Path, x: Doc)
    requires
        wf(d),
    ensures
        over(a, over(a, d, t, x), t, x) == over(a, d, t, x),
    decreases size(a) + size(t), size(a),
{
    match a {
        Path::Field(k) => {
            if d is Record {
                let keys = d->Record_0;
                let vals = d->Record_1;
                match key_pos(keys, k) {
                    Some(i) => {
                        assert(wf(vals[i]));
                        lemma_set_idem(t, vals[i], x);
                        let v1 = vals.update(i, set_spec(t, vals[i], x));
                        assert(v1.update(i, set_spec(t, v1[i], x)) =~= v1);
                        assert(over(a, d, t, x) == Doc::Record(keys, v1));
                    },
                    None => {},
                }
            }
        },
        Path::Index(i) => {
            if d is List {
                let s = d->List_0;
                if i < s.len() {
                    assert(wf(s[i as int]));
                    lemma_set_idem(t, s[i as int], x);
                    let s1 = s.update(i as int, set_spec(t, s[i as int], x));
                    assert(s1.update(i as int, set_spec(t, s1[i as int], x)) =~= s1);
                }
            }
        },
        Path::ForEach => {
            if d is List {
                let s = d->List_0;
                let s1 = Seq::new(s.len(), |j: int| set_spec(t, s[j], x));
                assert forall|j: int| 0 <= j < s.len() implies set_spec(t, s1[j], x) == s1[j] by {
                    assert(wf(s[j]));
                    lemma_set_idem(t, s[j], x);
                }
                assert(over(a, d, t, x)->List_0 =~= s1);
                assert(over(a, over(a, d, t, x), t, x)->List_0 =~= s1);
            }
        },
        Path::Compose(a1, a2) => {
            lemma_over_idem(*a1, d, Path::Compose(a2, Box::new(t)), x);
        },
        Path::Empty => {
            lemma_set_idem(t, d, x);
        },
    }
}

} // verus!
