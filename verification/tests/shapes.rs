use jsx::descend::enter;
use jsx::json::{Kind, Shape};
use jsx::output::{count_children, format_value, list_children, pick_mode, Flags, Mode};
use jsx::segment::Segment;
use serde_json::{Number, Value};

fn doc(text: &str) -> Value {
    serde_json::from_str(text).unwrap()
}

fn flags(count: bool, print_keys: bool, keep_invalid: bool, remove_quotes: bool) -> Flags {
    Flags { count, print_keys, keep_invalid, remove_quotes }
}

fn array() -> Shape {
    Shape::Array(vec![doc("10"), doc("\"b\""), doc("[3]")])
}

fn object() -> Shape {
    Shape::Object(vec![("x".to_string(), doc("1")), ("2".to_string(), doc("{}"))])
}

#[test]
fn enter_array() {
    assert_eq!(enter(array(), &Segment::Index("0".to_string(), 0)), Some(doc("10")));
    assert_eq!(enter(array(), &Segment::Index("2".to_string(), 2)), Some(doc("[3]")));
    assert_eq!(enter(array(), &Segment::Index("3".to_string(), 3)), None);
    assert_eq!(enter(array(), &Segment::Index("9".to_string(), usize::MAX)), None);
    assert_eq!(enter(array(), &Segment::Key("0".to_string())), None);
    assert_eq!(enter(Shape::Array(Vec::new()), &Segment::Index("0".to_string(), 0)), None);
}

#[test]
fn enter_object() {
    assert_eq!(enter(object(), &Segment::Key("x".to_string())), Some(doc("1")));
    assert_eq!(enter(object(), &Segment::Index("2".to_string(), 2)), Some(doc("{}")));
    assert_eq!(enter(object(), &Segment::Key("2".to_string())), Some(doc("{}")));
    assert_eq!(enter(object(), &Segment::Index("0".to_string(), 0)), None);
    assert_eq!(enter(object(), &Segment::Key("X".to_string())), None);
    assert_eq!(enter(Shape::Object(Vec::new()), &Segment::Key("".to_string())), None);
}

#[test]
fn enter_scalar() {
    let index = Segment::Index("0".to_string(), 0);
    let key = Segment::Key("a".to_string());
    assert_eq!(enter(Shape::Null, &index), None);
    assert_eq!(enter(Shape::Bool(true), &key), None);
    assert_eq!(enter(Shape::Number(Number::from(7u64)), &index), None);
    assert_eq!(enter(Shape::String("abc".to_string()), &index), None);
    assert_eq!(enter(Shape::String("abc".to_string()), &key), None);
}

#[test]
fn mode_table() {
    for keep in [false, true] {
        for quotes in [false, true] {
            for kind in [Kind::Array, Kind::Object] {
                assert_eq!(pick_mode(kind, &flags(true, false, keep, quotes)), Mode::Count);
                assert_eq!(pick_mode(kind, &flags(true, true, keep, quotes)), Mode::Count);
                assert_eq!(pick_mode(kind, &flags(false, true, keep, quotes)), Mode::Keys);
                assert_eq!(pick_mode(kind, &flags(false, false, keep, quotes)), Mode::Rendered);
            }
        }
        for count in [false, true] {
            for keys in [false, true] {
                assert_eq!(pick_mode(Kind::String, &flags(count, keys, keep, true)), Mode::Unquoted);
                assert_eq!(pick_mode(Kind::String, &flags(count, keys, keep, false)), Mode::Rendered);
                for quotes in [false, true] {
                    for kind in [Kind::Null, Kind::Bool, Kind::Number] {
                        assert_eq!(pick_mode(kind, &flags(count, keys, keep, quotes)), Mode::Rendered);
                    }
                }
            }
        }
    }
}

#[test]
fn children_counted() {
    assert_eq!(count_children(&array()), 3);
    assert_eq!(count_children(&object()), 2);
    assert_eq!(count_children(&Shape::Array(Vec::new())), 0);
    assert_eq!(count_children(&Shape::Object(Vec::new())), 0);
    assert_eq!(count_children(&Shape::Null), 0);
    assert_eq!(count_children(&Shape::String("abc".to_string())), 0);
}

#[test]
fn children_listed() {
    assert_eq!(list_children(&array()), "0, 1, 2");
    assert_eq!(list_children(&object()), "x, 2");
    assert_eq!(list_children(&Shape::Array(Vec::new())), "");
    assert_eq!(list_children(&Shape::Object(Vec::new())), "");
    assert_eq!(list_children(&Shape::Bool(false)), "");
}

#[test]
fn value_lines() {
    let plain = flags(false, false, false, false);
    assert_eq!(format_value(doc("[1, [2, 3]]"), &plain), Some("[1,[2,3]]".to_string()));
    assert_eq!(format_value(doc("[1, [2, 3]]"), &flags(true, false, false, false)), Some("2".to_string()));
    assert_eq!(format_value(doc("[1, [2, 3]]"), &flags(false, true, false, false)), Some("0, 1".to_string()));
    assert_eq!(format_value(doc("{}"), &flags(false, true, true, false)), None);
    assert_eq!(format_value(doc("{}"), &flags(true, true, true, false)), Some("0".to_string()));
    assert_eq!(format_value(doc("\"x y\""), &flags(false, false, false, true)), Some("x y".to_string()));
    assert_eq!(format_value(doc("\"x y\""), &plain), Some("\"x y\"".to_string()));
    assert_eq!(format_value(doc("1e3"), &plain), Some("1000.0".to_string()));
    assert_eq!(format_value(doc("null"), &flags(true, true, true, true)), Some("null".to_string()));
}

#[test]
fn rendering_escapes_inside_strings() {
    let quotes = flags(false, false, false, true);
    assert_eq!(format_value(Value::String("a\"b".to_string()), &quotes), Some("a\\\"b".to_string()));
    assert_eq!(format_value(Value::String("\"".to_string()), &quotes), Some("\\\"".to_string()));
    assert_eq!(format_value(Value::String("tab\t".to_string()), &quotes), Some("tab\\t".to_string()));
    assert_eq!(format_value(Value::String("é".to_string()), &quotes), Some("é".to_string()));
}
