use json_lens::lens::Lens;
use json_lens::value::Value;
use json_lens::view::View;

fn num(n: u64) -> Value {
    Value::Number(serde_json::Number::from(n))
}

fn obj(entries: Vec<(&str, Value)>) -> Value {
    Value::Object(entries.into_iter().map(|(k, v)| (k.to_string(), v)).collect())
}

fn arr(items: Vec<Value>) -> Value {
    Value::Array(items)
}

fn nested(last: Value) -> Value {
    obj(vec![("a", obj(vec![("b", obj(vec![("c", arr(vec![num(1), num(2), last]))]))]))])
}

#[test]
fn lens_test_field() {
    let mut value = obj(vec![("a", num(1))]);
    let lens = Lens::new("a");
    let view = lens.get(&value).unwrap();
    assert_eq!(view, View::Borrow(&num(1)));

    lens.set(&mut value, num(2));
    assert_eq!(value, obj(vec![("a", num(2))]));
}

#[test]
fn lens_test_index() {
    let mut value = arr(vec![num(1), num(2), num(3)]);
    let lens = Lens::new(1);
    let view = lens.get(&value).unwrap();
    assert_eq!(view, View::Borrow(&num(2)));

    lens.set(&mut value, num(4));
    assert_eq!(value, arr(vec![num(1), num(4), num(3)]));
}

#[test]
fn lens_test_compose() {
    let mut value = obj(vec![("a", arr(vec![num(1), num(2), num(3)]))]);
    let lens = Lens::new("a").select(1);
    let view = lens.get(&value).unwrap();
    assert_eq!(view, View::Borrow(&num(2)));

    lens.set(&mut value, num(4));
    assert_eq!(value, obj(vec![("a", arr(vec![num(1), num(4), num(3)]))]));
}

#[test]
fn lens_test_for_each() {
    let mut value = arr(vec![
        obj(vec![("a", num(1))]),
        obj(vec![("a", num(2))]),
        obj(vec![("a", num(3))]),
    ]);

    let lens = Lens::foreach().select("a");
    let view = lens.get(&value).unwrap();
    assert_eq!(
        view,
        View::BorrowVec(vec![
            View::Borrow(&num(1)),
            View::Borrow(&num(2)),
            View::Borrow(&num(3))
        ])
    );

    lens.set(&mut value, num(4));
    assert_eq!(
        value,
        arr(vec![
            obj(vec![("a", num(4))]),
            obj(vec![("a", num(4))]),
            obj(vec![("a", num(4))]),
        ])
    );
}

#[test]
fn test_deeply_nested() {
    let mut value = nested(obj(vec![("d", num(3))]));

    let lens = Lens::default()
        .select("a")
        .select("b")
        .select("c")
        .select(2)
        .select("d");
    let view = lens.get(&value).unwrap();
    assert_eq!(view, View::Borrow(&num(3)));

    lens.set(&mut value, num(4));
    assert_eq!(value, nested(obj(vec![("d", num(4))])));
}

#[test]
fn test_flatten_structure() {
    let mut value = nested(obj(vec![("d", num(3))]));

    let lens = Lens::default().select("a").select("b").select("c").each();
    let view = lens.get(&value).unwrap();
    assert_eq!(
        view,
        View::BorrowVec(vec![
            View::Borrow(&num(1)),
            View::Borrow(&num(2)),
            View::Borrow(&obj(vec![("d", num(3))]))
        ])
    );

    lens.set(&mut value, num(4));
    assert_eq!(
        value,
        obj(vec![("a", obj(vec![("b", obj(vec![("c", arr(vec![num(4), num(4), num(4)]))]))]))])
    );
}

#[test]
fn lib_test_field() {
    let mut value = obj(vec![("a", num(1))]);
    let lens = Lens::new("a");
    let view = lens.get(&value).unwrap();
    assert_eq!(view, View::Borrow(&num(1)));

    lens.set(&mut value, num(2));
    assert_eq!(value, obj(vec![("a", num(2))]));
}

#[test]
fn lib_test_index() {
    let mut value = arr(vec![num(1), num(2), num(3)]);
    let lens = Lens::new(1);
    let view = lens.get(&value).unwrap();
    assert_eq!(view, View::Borrow(&num(2)));

    lens.set(&mut value, num(4));
    assert_eq!(value, arr(vec![num(1), num(4), num(3)]));
}

#[test]
fn lib_test_compose() {
    let mut value = obj(vec![("a", arr(vec![num(1), num(2), num(3)]))]);
    let lens = Lens::default().select("a").select(1);
    let view = lens.get(&value).unwrap();
    assert_eq!(view, View::Borrow(&num(2)));

    lens.set(&mut value, num(4));
    assert_eq!(value, obj(vec![("a", arr(vec![num(1), num(4), num(3)]))]));
}

// A broadcast write under a composed lens reaches every element: the write
// recurses with the remaining suffix of the path at each element.
#[test]
fn lib_test_for_each() {
    let mut value = arr(vec![
        obj(vec![("a", num(1))]),
        obj(vec![("a", num(2))]),
        obj(vec![("a", num(3))]),
    ]);

    let lens = Lens::foreach().select("a");
    let view = lens.get(&value).unwrap();
    assert_eq!(
        view,
        View::BorrowVec(vec![
            View::Borrow(&num(1)),
            View::Borrow(&num(2)),
            View::Borrow(&num(3))
        ])
    );

    lens.set(&mut value, num(4));
    assert_eq!(
        value,
        arr(vec![
            obj(vec![("a", num(4))]),
            obj(vec![("a", num(4))]),
            obj(vec![("a", num(4))]),
        ])
    );
}
