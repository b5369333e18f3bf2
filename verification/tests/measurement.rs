use influent::entries::put_entry;
use influent::measurement::{Measurement, Value};
use influent::serializer::line::LineSerializer;
use influent::serializer::Serializer;
use influent::text::{join, order_of, push_decimal, push_digits, TextOrder};

fn tags<'a>(m: &'a Measurement) -> Vec<(&'a str, &'a str)> {
    m.tags().iter().map(|(k, v)| (k.as_str(), v.as_str())).collect()
}

fn field_keys<'a>(m: &'a Measurement) -> Vec<&'a str> {
    m.fields().iter().map(|(k, _)| k.as_str()).collect()
}

#[test]
fn new_measurement_is_empty() {
    let m = Measurement::new("key");
    assert_eq!("key", m.key());
    assert_eq!(None, m.timestamp());
    assert!(m.tags().is_empty());
    assert!(m.fields().is_empty());
}

#[test]
fn tags_are_kept_in_ascending_order() {
    let mut m = Measurement::new("key");
    m.add_tag("b", "2");
    m.add_tag("c", "3");
    m.add_tag("a", "1");
    m.add_tag("ab", "4");
    m.add_tag("", "0");
    m.add_tag("B", "5");
    assert_eq!(
        vec![("", "0"), ("B", "5"), ("a", "1"), ("ab", "4"), ("b", "2"), ("c", "3")],
        tags(&m)
    );
}

#[test]
fn a_tag_with_the_same_key_is_replaced() {
    let mut m = Measurement::new("key");
    m.add_tag("a", "1");
    m.add_tag("b", "2");
    m.add_tag("a", "3");
    assert_eq!(vec![("a", "3"), ("b", "2")], tags(&m));
    m.add_tag("b", "4");
    m.add_tag("c", "5");
    m.add_tag("c", "6");
    assert_eq!(vec![("a", "3"), ("b", "4"), ("c", "6")], tags(&m));
}

#[test]
fn fields_are_kept_in_ascending_order() {
    let mut m = Measurement::new("key");
    m.add_field("s", Value::String("string"));
    m.add_field("i", Value::Integer(10));
    m.add_field("f", Value::Float("10".to_string()));
    m.add_field("b", Value::Boolean(false));
    m.add_field("i", Value::Integer(11));
    assert_eq!(vec!["b", "f", "i", "s"], field_keys(&m));
    match m.fields()[2].1 {
        Value::Integer(i) => assert_eq!(11, i),
        _ => panic!("not an integer"),
    }
}

#[test]
fn order_of_insertion_does_not_show() {
    let entries = [("tag", "value"), ("one ,two", "three, four"), ("a", "b"), ("z", "y")];
    let orders: [[usize; 4]; 4] = [[0, 1, 2, 3], [3, 2, 1, 0], [1, 3, 0, 2], [2, 0, 3, 1]];
    let serializer = LineSerializer::new();
    let mut lines = Vec::new();
    for order in orders {
        let mut m = Measurement::new("key");
        for i in order {
            m.add_tag(entries[i].0, entries[i].1);
            m.add_field(entries[i].0, Value::String(entries[i].1));
        }
        lines.push(serializer.serialize(&m));
    }
    assert_eq!(
        "key,a=b,one\\ \\,two=three\\,\\ four,tag=value,z=y a=\"b\",one\\ \\,two=\"three, four\",tag=\"value\",z=\"y\"",
        lines[0]
    );
    for line in &lines {
        assert_eq!(&lines[0], line);
    }
}

#[test]
fn keys_are_ordered_by_code_point() {
    let mut m = Measurement::new("key");
    m.add_tag("\u{e9}", "e acute");
    m.add_tag("z", "z");
    m.add_tag("\u{1f600}", "face");
    m.add_tag("\u{ffff}", "last of the plane");
    m.add_tag("Z", "Z");
    let keys: Vec<&str> = m.tags().iter().map(|(k, _)| k.as_str()).collect();
    let mut sorted = keys.clone();
    sorted.sort();
    assert_eq!(sorted, keys);
    assert_eq!(vec!["Z", "z", "\u{e9}", "\u{ffff}", "\u{1f600}"], keys);
}

#[test]
fn timestamp_is_set_and_replaced() {
    let mut m = Measurement::new("key");
    m.set_timestamp(1434055562000000000);
    assert_eq!(Some(1434055562000000000), m.timestamp());
    m.set_timestamp(-1);
    assert_eq!(Some(-1), m.timestamp());
}

#[test]
fn order_of_texts() {
    assert_eq!(TextOrder::Same, order_of("", ""));
    assert_eq!(TextOrder::Before, order_of("", "a"));
    assert_eq!(TextOrder::After, order_of("a", ""));
    assert_eq!(TextOrder::Same, order_of("abc", "abc"));
    assert_eq!(TextOrder::Before, order_of("abc", "abd"));
    assert_eq!(TextOrder::Before, order_of("ab", "abc"));
    assert_eq!(TextOrder::After, order_of("b", "abc"));
    assert_eq!(TextOrder::After, order_of("\u{1f600}", "\u{ffff}"));
}

#[test]
fn decimal_rendering() {
    for i in [0i64, 1, 9, 10, 11, 99, 100, 345, 2015, -1, -10, i64::MAX, i64::MIN, i64::MIN + 1] {
        let mut out = String::from("x");
        push_decimal(&mut out, i);
        assert_eq!(format!("x{}", i), out);
    }
    for n in [0u64, 7, 10, 18446744073709551615] {
        let mut out = String::new();
        push_digits(&mut out, n);
        assert_eq!(n.to_string(), out);
    }
}

#[test]
fn joining() {
    let none: Vec<String> = vec![];
    assert_eq!("", join(&none, "\n"));
    assert_eq!("a", join(&vec!["a".to_string()], "\n"));
    assert_eq!("a\nb", join(&vec!["a".to_string(), "b".to_string()], "\n"));
    assert_eq!(", ", join(&vec!["".to_string(), "".to_string()], ", "));
    assert_eq!("abc", join(&vec!["a".to_string(), "b".to_string(), "c".to_string()], ""));
}

#[test]
fn entries_are_put_in_their_place() {
    let mut entries: Vec<(String, u8)> = Vec::new();
    for (key, value) in [("m", 1), ("a", 2), ("z", 3), ("m", 4), ("b", 5), ("a", 6), ("zz", 7)] {
        put_entry(&mut entries, key.to_string(), value);
    }
    let expected: Vec<(String, u8)> = [("a", 6), ("b", 5), ("m", 4), ("z", 3), ("zz", 7)]
        .iter()
        .map(|(k, v)| (k.to_string(), *v))
        .collect();
    assert_eq!(expected, entries);
}
