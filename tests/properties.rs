use json_lens::lens::Lens;
use json_lens::value::{find_key, Value};
use json_lens::view::View;

fn num(n: u64) -> Value {
    Value::Number(serde_json::Number::from(n))
}

fn text(s: &str) -> Value {
    Value::String(s.to_string())
}

fn obj(entries: Vec<(&str, Value)>) -> Value {
    Value::Object(entries.into_iter().map(|(k, v)| (k.to_string(), v)).collect())
}

fn arr(items: Vec<Value>) -> Value {
    Value::Array(items)
}

#[test]
fn missing_key_reads_nothing() {
    let value = obj(vec![("a", num(1))]);
    assert!(Lens::new("b").get(&value).is_none());
    assert!(Lens::new("a").get(&arr(vec![])).is_none());
}

#[test]
fn out_of_range_index_reads_nothing() {
    let value = arr(vec![num(1)]);
    assert!(Lens::new(1).get(&value).is_none());
    assert!(Lens::new(0).get(&obj(vec![])).is_none());
}

#[test]
fn foreach_over_empty_array_is_present_but_empty() {
    let value = arr(vec![]);
    assert_eq!(Lens::foreach().get(&value), Some(View::BorrowVec(vec![])));
    assert!(Lens::foreach().get(&num(1)).is_none());
}

#[test]
fn broadcast_narrowing_drops_failures_and_collapses() {
    let value = arr(vec![obj(vec![("a", num(1))]), num(2), obj(vec![("b", num(3))])]);
    let some = Lens::foreach().select("a");
    assert_eq!(some.get(&value), Some(View::BorrowVec(vec![View::Borrow(&num(1))])));
    let none = Lens::foreach().select("z");
    assert!(none.get(&value).is_none());
}

#[test]
fn empty_lens_reads_the_document() {
    let value = obj(vec![("a", num(1))]);
    assert_eq!(Lens::default().get(&value), Some(View::Borrow(&value)));
}

#[test]
fn view_narrowing_continues_a_read() {
    let value = arr(vec![obj(vec![("a", num(1))]), obj(vec![("a", num(2))])]);
    let each = Lens::foreach();
    let field = Lens::new("a");
    let view = each.get(&value).unwrap();
    assert_eq!(
        view.get(&field),
        Some(View::BorrowVec(vec![View::Borrow(&num(1)), View::Borrow(&num(2))]))
    );
}

#[test]
fn round_trip_set_then_get() {
    let mut value = obj(vec![("a", arr(vec![num(1), obj(vec![("b", num(2))])]))]);
    let lens = Lens::new("a").select(1).select("b");
    lens.set(&mut value, text("x"));
    assert_eq!(lens.get(&value), Some(View::Borrow(&text("x"))));
}

#[test]
fn broadcast_write_fills_every_element() {
    let mut value = arr(vec![num(1), text("two"), arr(vec![])]);
    Lens::foreach().set(&mut value, num(7));
    assert_eq!(value, arr(vec![num(7), num(7), num(7)]));

    let mut empty = arr(vec![]);
    Lens::foreach().set(&mut empty, num(7));
    assert_eq!(empty, arr(vec![]));
}

#[test]
fn field_write_on_array_is_a_no_op() {
    let mut value = arr(vec![num(1), num(2)]);
    Lens::Field("x".to_string()).set(&mut value, num(3));
    assert_eq!(value, arr(vec![num(1), num(2)]));
}

#[test]
fn field_write_inserts_missing_key_at_the_end() {
    let mut value = obj(vec![("a", num(1))]);
    Lens::new("b").set(&mut value, num(2));
    assert_eq!(value, obj(vec![("a", num(1)), ("b", num(2))]));
}

#[test]
fn index_write_out_of_range_is_a_no_op() {
    let mut value = arr(vec![num(1)]);
    Lens::new(3).set(&mut value, num(2));
    assert_eq!(value, arr(vec![num(1)]));
}

#[test]
fn empty_lens_write_is_a_no_op() {
    let mut value = obj(vec![("a", num(1))]);
    Lens::default().set(&mut value, num(2));
    assert_eq!(value, obj(vec![("a", num(1))]));
}

#[test]
fn composed_write_through_missing_key_is_a_no_op() {
    let mut value = obj(vec![("a", num(1))]);
    Lens::new("z").select("y").set(&mut value, num(2));
    assert_eq!(value, obj(vec![("a", num(1))]));
}

#[test]
fn write_twice_equals_write_once() {
    let lens = Lens::new("a").select("b");
    let mut once = obj(vec![("a", obj(vec![]))]);
    lens.set(&mut once, num(5));
    let mut twice = obj(vec![("a", obj(vec![]))]);
    lens.set(&mut twice, num(5));
    lens.set(&mut twice, num(5));
    assert_eq!(once, twice);
    assert_eq!(once, obj(vec![("a", obj(vec![("b", num(5))]))]));
}

#[test]
fn modify_writes_through_narrowed_projection() {
    let mut value = arr(vec![obj(vec![("a", arr(vec![num(1), num(2)]))]), obj(vec![("a", num(3))])]);
    let each = Lens::foreach();
    let field = Lens::new("a");
    let index = Lens::new(0);
    {
        let m = each.get_mut(&mut value).unwrap();
        let m = m.get_mut(&field).unwrap();
        m.set(&index, num(9));
    }
    assert_eq!(
        value,
        arr(vec![obj(vec![("a", arr(vec![num(9), num(2)]))]), obj(vec![("a", num(3))])])
    );
}

#[test]
fn modify_absent_when_path_fails() {
    let mut value = num(1);
    assert!(Lens::foreach().get_mut(&mut value).is_none());
    let mut list = arr(vec![num(1)]);
    let each = Lens::foreach();
    let m = each.get_mut(&mut list).unwrap();
    assert!(m.get_mut(&Lens::new("a")).is_none());
}

#[test]
fn deep_copy_is_equal() {
    let value = obj(vec![("a", arr(vec![num(1), text("t"), Value::Null, Value::Bool(true)]))]);
    assert_eq!(value.deep_copy(), value);
}

#[test]
fn find_key_finds_first_position() {
    let entries = vec![("a".to_string(), num(1)), ("b".to_string(), num(2))];
    assert_eq!(find_key(&entries, &"b".to_string()), Some(1));
    assert_eq!(find_key(&entries, &"c".to_string()), None);
}

#[test]
fn select_accepts_every_key_kind() {
    let value = obj(vec![("k", arr(vec![obj(vec![("m", num(4))])]))]);
    let tail = Lens::new(0).select(String::from("m"));
    let lens = Lens::new("k").select(tail);
    assert_eq!(lens.get(&value), Some(View::Borrow(&num(4))));
}
