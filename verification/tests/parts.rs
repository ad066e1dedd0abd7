use jtd::entries::contains_string;
use jtd::entries::find;
use jtd::entries::insert_entry;
use jtd::entries::insert_sorted_string;
use jtd::form::TypeValue;
use jtd::json::Json;
use jtd::number::binary64_is_integer_within;
use jtd::number::Number;
use jtd::text::decimal_string;
use jtd::text::str_eq;
use jtd::text::str_order;
use jtd::text::Order;

#[test]
fn decimal_strings() {
    assert_eq!("0", decimal_string(0));
    assert_eq!("7", decimal_string(7));
    assert_eq!("10", decimal_string(10));
    assert_eq!("1234567890", decimal_string(1234567890));
    assert_eq!(usize::MAX.to_string(), decimal_string(usize::MAX));
}

#[test]
fn order_of_strings() {
    assert_eq!(Order::Equal, str_order("", ""));
    assert_eq!(Order::Less, str_order("", "a"));
    assert_eq!(Order::Greater, str_order("a", ""));
    assert_eq!(Order::Less, str_order("a", "ab"));
    assert_eq!(Order::Less, str_order("ab", "b"));
    assert_eq!(Order::Greater, str_order("b", "ab"));
    assert_eq!(Order::Less, str_order("Z", "a"));
    assert_eq!(Order::Less, str_order("z", "é"));
    assert_eq!(Order::Equal, str_order("é", "é"));
    for (a, b) in [("", "x"), ("abc", "abd"), ("é", "z"), ("10", "9"), ("\u{10000}", "\u{ffff}")] {
        let expected = match a.cmp(b) {
            std::cmp::Ordering::Less => Order::Less,
            std::cmp::Ordering::Equal => Order::Equal,
            std::cmp::Ordering::Greater => Order::Greater,
        };
        assert_eq!(expected, str_order(a, b));
    }
    assert!(str_eq("type", "type"));
    assert!(!str_eq("type", "typ"));
    assert!(!str_eq("type", "Type"));
}

#[test]
fn entries_are_found_and_kept_sorted() {
    let mut entries: Vec<(String, Json)> = Vec::new();
    for (key, value) in [("m", 1), ("c", 2), ("x", 3), ("c", 4), ("a", 5)] {
        insert_entry(
            &mut entries,
            key.to_owned(),
            Json::Number(Number::PosInt(value)),
        );
    }
    assert_eq!(
        vec![
            ("a".to_owned(), Json::Number(Number::PosInt(5))),
            ("c".to_owned(), Json::Number(Number::PosInt(4))),
            ("m".to_owned(), Json::Number(Number::PosInt(1))),
            ("x".to_owned(), Json::Number(Number::PosInt(3))),
        ],
        entries
    );
    assert_eq!(Some(2), find(&entries, "m"));
    assert_eq!(None, find(&entries, "b"));
    let twice = vec![("k".to_owned(), 1), ("j".to_owned(), 2), ("k".to_owned(), 3)];
    assert_eq!(Some(0), find(&twice, "k"));

    let mut strings: Vec<String> = Vec::new();
    for s in ["b", "a", "c", "a"] {
        insert_sorted_string(&mut strings, s.to_owned());
    }
    assert_eq!(vec!["a".to_owned(), "b".to_owned(), "c".to_owned()], strings);
    assert!(contains_string(&strings, "b"));
    assert!(!contains_string(&strings, "d"));
}

#[test]
fn which_numbers_are_integers() {
    let within = |x: f64, min: i64, max: i64| binary64_is_integer_within(x.to_bits(), min, max);
    assert!(within(0.0, 0, 0));
    assert!(within(-0.0, 0, 0));
    assert!(within(255.0, 0, 255));
    assert!(!within(256.0, 0, 255));
    assert!(within(256.0, 0, 256));
    assert!(!within(0.5, 0, 255));
    assert!(!within(254.99999999999997, 0, 255));
    assert!(within(-128.0, -128, 127));
    assert!(!within(-128.00000000000003, -129, 127));
    assert!(!within(5e-324, -1, 1));
    assert!(!within(f64::NAN, i64::MIN, i64::MAX));
    assert!(!within(f64::INFINITY, i64::MIN, i64::MAX));
    assert!(!within(f64::NEG_INFINITY, i64::MIN, i64::MAX));
    assert!(within(4294967295.0, 0, 4294967295));
    assert!(within(9007199254740992.0, 0, i64::MAX));
    assert!(within(4611686018427387904.0, 0, i64::MAX));
    assert!(!within(9223372036854775808.0, 0, i64::MAX));
    assert!(within(-9223372036854775808.0, i64::MIN, 0));
    assert!(!within(-9223372036854777856.0, i64::MIN, 0));
    assert!(!within(1e300, i64::MIN, i64::MAX));

    assert!(Number::PosInt(255).is_integer_within(0, 255));
    assert!(!Number::PosInt(256).is_integer_within(0, 255));
    assert!(!Number::PosInt(u64::MAX).is_integer_within(i64::MIN, i64::MAX));
    assert!(Number::PosInt(9223372036854775807).is_integer_within(0, i64::MAX));
    assert!(!Number::PosInt(0).is_integer_within(-5, -1));
    assert!(Number::NegInt(-1).is_integer_within(-1, 0));
    assert!(!Number::NegInt(-2).is_integer_within(-1, 0));
    assert!(Number::Float(1.0f64.to_bits()).is_integer_within(1, 1));
}

#[test]
fn types_by_their_keywords() {
    for (keyword, type_value) in [
        ("boolean", TypeValue::Boolean),
        ("float32", TypeValue::Float32),
        ("float64", TypeValue::Float64),
        ("int8", TypeValue::Int8),
        ("uint8", TypeValue::Uint8),
        ("int16", TypeValue::Int16),
        ("uint16", TypeValue::Uint16),
        ("int32", TypeValue::Int32),
        ("uint32", TypeValue::Uint32),
        ("string", TypeValue::String),
        ("timestamp", TypeValue::Timestamp),
    ] {
        assert_eq!(Some(type_value), TypeValue::from_keyword(keyword));
        assert_eq!(keyword, type_value.keyword());
    }
    assert_eq!(None, TypeValue::from_keyword(""));
    assert_eq!(None, TypeValue::from_keyword("int64"));
    assert_eq!(None, TypeValue::from_keyword("Int8"));
}

#[test]
fn types_accept_given_what_the_timestamp_reads_as() {
    let string = Json::String("x".to_owned());
    assert!(TypeValue::Timestamp.accepts_given(&string, true));
    assert!(!TypeValue::Timestamp.accepts_given(&string, false));
    assert!(!TypeValue::Timestamp.accepts_given(&Json::Null, true));
    assert!(TypeValue::String.accepts_given(&string, false));
    assert!(!TypeValue::Boolean.accepts_given(&string, true));
    assert!(TypeValue::Timestamp.accepts(&Json::String("2020-01-01T00:00:00Z".to_owned())));
    assert!(!TypeValue::Timestamp.accepts(&string));
}

#[test]
fn copies_of_values_are_equal() {
    let value = Json::Object(vec![
        ("a".to_owned(), Json::Array(vec![Json::Null, Json::Bool(true)])),
        ("b".to_owned(), Json::Number(Number::Float(1.5f64.to_bits()))),
        ("c".to_owned(), Json::String("s".to_owned())),
    ]);
    assert_eq!(value, value.clone());
}
