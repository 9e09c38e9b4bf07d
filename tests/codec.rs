use json_codec::decode::{resolve_identifier, DecodeError, RecordBuilder};
use json_codec::encoder::{Composite, Frame, Serializer};
use json_codec::ordered_map::{MyMap, MyMapVisitor};
use json_codec::records::{Color, Duration, Efficient2, Inches, Instance, Point2D, E};
use json_codec::text::push_decimal;

fn entries(pairs: &[(&str, u64)]) -> Vec<(String, u64)> {
    pairs.iter().map(|(k, v)| (k.to_string(), *v)).collect()
}

fn encoded<F: FnOnce(&mut Serializer)>(f: F) -> String {
    let mut ser = Serializer::new();
    f(&mut ser);
    assert_eq!(ser.innermost(), None);
    ser.into_string()
}

#[test]
fn test_struct() {
    let text = encoded(|ser| {
        ser.serialize_struct("Test", 2);
        ser.begin_field("int");
        ser.serialize_u64(1);
        ser.begin_field("seq");
        ser.serialize_seq(Some(2));
        ser.begin_element();
        ser.serialize_str("a");
        ser.begin_element();
        ser.serialize_str("b");
        ser.end();
        ser.end();
    });
    let expected = r#"{"int":1,"seq":["a","b"]}"#;
    assert_eq!(text, expected);
}

#[test]
fn ch04() {
    assert_eq!(encoded(|ser| ser.serialize_i64(1)), "1");
    assert_eq!(encoded(|ser| Color { r: 1, g: 2, b: 3 }.encode(ser)), r#"{"r":1,"g":2,"b":3}"#);
    assert_eq!(encoded(|ser| Point2D(1, 2).encode(ser)), "[1,2]");
    assert_eq!(encoded(|ser| Inches(1).encode(ser)), "1");
    assert_eq!(encoded(|ser| Instance.encode(ser)), "null");
    assert_eq!(
        encoded(|ser| E::Color { r: 1, g: 2, b: 3 }.encode(ser)),
        r#"{"Color":{"r":1,"g":2,"b":3}}"#
    );
    assert_eq!(encoded(|ser| E::Point2D(1, 2).encode(ser)), r#"{"Point2D":[1,2]}"#);
    assert_eq!(encoded(|ser| E::Inches(1).encode(ser)), r#"{"Inches":1}"#);
    assert_eq!(encoded(|ser| E::Instance.encode(ser)), r#""Instance""#);

    let visitor: MyMapVisitor<String, String> = MyMapVisitor::new();
    let mut r1 = visitor.start(Some(2));
    r1.insert("k1".to_string(), "v1".to_string());
    r1.insert("k2".to_string(), "v2".to_string());
    assert_eq!(r1.len(), 2);

    let r2 = Duration::from_map(&entries(&[("secs", 1), ("nanos", 2)])).unwrap();
    assert_eq!(r2, Duration::new(1, 2));
}

#[test]
fn duration_round_trip() {
    for d in [Duration::new(0, 0), Duration::new(1, 2), Duration::new(u64::MAX, u32::MAX)] {
        let text = encoded(|ser| d.encode(ser));
        assert_eq!(text, format!(r#"{{"secs":{},"nanos":{}}}"#, d.secs, d.nanos));
        let named = entries(&[("secs", d.secs), ("nanos", d.nanos as u64)]);
        assert_eq!(Duration::from_map(&named), Ok(d));
        assert_eq!(Duration::from_seq(&vec![d.secs, d.nanos as u64]), Ok(d));
    }
}

#[test]
fn color_round_trip() {
    let c = Color { r: 0, g: 128, b: 255 };
    assert_eq!(encoded(|ser| c.encode(ser)), r#"{"r":0,"g":128,"b":255}"#);
    assert_eq!(Color::from_map(&entries(&[("r", 0), ("g", 128), ("b", 255)])), Ok(c));
    assert_eq!(Color::from_map(&entries(&[("b", 255), ("r", 0), ("g", 128)])), Ok(c));
    assert_eq!(Color::from_seq(&vec![0, 128, 255]), Ok(c));
}

#[test]
fn separators_in_sequences() {
    assert_eq!(encoded(|ser| ser.serialize_bytes(&[])), "[]");
    assert_eq!(encoded(|ser| ser.serialize_bytes(&[7])), "[7]");
    let three = encoded(|ser| ser.serialize_bytes(&[1, 20, 255]));
    assert_eq!(three, "[1,20,255]");
    assert_eq!(three.matches(',').count(), 2);
    assert_eq!(three.matches('[').count(), 1);
    assert_eq!(three.matches(']').count(), 1);
}

#[test]
fn separators_in_maps() {
    assert_eq!(
        encoded(|ser| {
            ser.serialize_map(None);
            ser.end();
        }),
        "{}"
    );
    let one = encoded(|ser| {
        ser.serialize_map(Some(1));
        ser.begin_key();
        ser.serialize_str("k");
        ser.begin_value();
        ser.serialize_bool(true);
        ser.end();
    });
    assert_eq!(one, r#"{"k":true}"#);
    let two = encoded(|ser| {
        ser.serialize_map(Some(2));
        ser.begin_key();
        ser.serialize_str("a");
        ser.begin_value();
        ser.serialize_unit();
        ser.begin_key();
        ser.serialize_str("b");
        ser.begin_value();
        ser.serialize_bool(false);
        ser.end();
    });
    assert_eq!(two, r#"{"a":null,"b":false}"#);
}

#[test]
fn separators_in_nested_arrays() {
    let text = encoded(|ser| {
        ser.serialize_seq(None);
        ser.begin_element();
        ser.serialize_seq(None);
        ser.end();
        ser.begin_element();
        ser.serialize_seq(None);
        ser.begin_element();
        ser.serialize_i64(-1);
        ser.end();
        ser.end();
    });
    assert_eq!(text, "[[],[-1]]");
}

#[test]
fn string_ending_in_bracket_keeps_separator() {
    let text = encoded(|ser| {
        ser.serialize_seq(None);
        ser.begin_element();
        ser.serialize_str("a[");
        ser.begin_element();
        ser.serialize_str("b");
        ser.end();
    });
    assert_eq!(text, r#"["a[","b"]"#);
}

#[test]
fn duplicate_field_fails() {
    assert_eq!(
        Duration::from_map(&entries(&[("secs", 1), ("secs", 2)])),
        Err(DecodeError::DuplicateField("secs".to_string()))
    );
    assert_eq!(
        Duration::from_map(&entries(&[("secs", 1), ("nanos", 2), ("nanos", 3)])),
        Err(DecodeError::DuplicateField("nanos".to_string()))
    );
}

#[test]
fn missing_field_fails() {
    assert_eq!(
        Color::from_map(&entries(&[("r", 1), ("g", 2)])),
        Err(DecodeError::MissingField("b".to_string()))
    );
    assert_eq!(
        Duration::from_map(&entries(&[("nanos", 2)])),
        Err(DecodeError::MissingField("secs".to_string()))
    );
    assert_eq!(
        Duration::from_map(&entries(&[])),
        Err(DecodeError::MissingField("secs".to_string()))
    );
}

#[test]
fn unknown_field_fails() {
    assert_eq!(
        Duration::from_map(&entries(&[("secs", 1), ("minutes", 2)])),
        Err(DecodeError::UnknownIdentifier("minutes".to_string(), vec!["secs", "nanos"]))
    );
    assert_eq!(
        Color::from_map(&entries(&[("alpha", 1)])),
        Err(DecodeError::UnknownIdentifier("alpha".to_string(), vec!["r", "g", "b"]))
    );
}

#[test]
fn positional_short_input_fails() {
    assert_eq!(Duration::from_seq(&vec![1]), Err(DecodeError::InvalidLength(1)));
    assert_eq!(Duration::from_seq(&vec![]), Err(DecodeError::InvalidLength(0)));
    assert_eq!(Color::from_seq(&vec![1, 2]), Err(DecodeError::InvalidLength(2)));
}

#[test]
fn out_of_range_value_fails() {
    let too_big = u32::MAX as u64 + 1;
    assert_eq!(
        Duration::from_map(&entries(&[("secs", 1), ("nanos", too_big)])),
        Err(DecodeError::TypeMismatch)
    );
    assert_eq!(Duration::from_seq(&vec![1, too_big]), Err(DecodeError::TypeMismatch));
    assert_eq!(Color::from_seq(&vec![256, 0, 0]), Err(DecodeError::TypeMismatch));
}

#[test]
fn duration_named_and_positional_agree() {
    let d = Duration::new(1, 2);
    assert_eq!(encoded(|ser| d.encode(ser)), r#"{"secs":1,"nanos":2}"#);
    let from_seq = Duration::from_seq(&vec![1, 2]);
    let from_map = Duration::from_map(&entries(&[("secs", 1), ("nanos", 2)]));
    assert_eq!(from_seq, Ok(d));
    assert_eq!(from_map, Ok(d));
}

#[test]
fn union_arm_shapes() {
    assert_eq!(
        encoded(|ser| E::Color { r: 10, g: 0, b: 200 }.encode(ser)),
        r#"{"Color":{"r":10,"g":0,"b":200}}"#
    );
    assert_eq!(encoded(|ser| E::Point2D(-3, 40).encode(ser)), r#"{"Point2D":[-3,40]}"#);
    assert_eq!(encoded(|ser| E::Inches(12345).encode(ser)), r#"{"Inches":12345}"#);
    assert_eq!(encoded(|ser| E::Instance.encode(ser)), r#""Instance""#);
}

#[test]
fn scalars() {
    assert_eq!(encoded(|ser| ser.serialize_bool(true)), "true");
    assert_eq!(encoded(|ser| ser.serialize_bool(false)), "false");
    assert_eq!(encoded(|ser| ser.serialize_i64(i64::MIN)), "-9223372036854775808");
    assert_eq!(encoded(|ser| ser.serialize_i64(0)), "0");
    assert_eq!(encoded(|ser| ser.serialize_u64(u64::MAX)), "18446744073709551615");
    assert_eq!(encoded(|ser| ser.serialize_char('x')), r#""x""#);
    assert_eq!(encoded(|ser| ser.serialize_str("")), r#""""#);
    assert_eq!(encoded(|ser| ser.serialize_none()), "null");
    assert_eq!(encoded(|ser| ser.serialize_unit_struct("Instance")), "null");
    assert_eq!(encoded(|ser| ser.serialize_unit_variant("E", 3, "Instance")), r#""Instance""#);
    assert_eq!(encoded(|ser| ser.serialize_float_text("1.5")), "1.5");
}

#[test]
fn decimal_digits() {
    let mut s = String::from("n=");
    push_decimal(&mut s, 907);
    assert_eq!(s, "n=907");
}

#[test]
fn tuple_variant_and_struct_variant_close_both() {
    let text = encoded(|ser| {
        ser.serialize_tuple_variant("E", 1, "T", 0);
        ser.end();
        ser.serialize_struct_variant("E", 0, "S", 1);
        ser.begin_field("x");
        ser.serialize_u64(1);
        ser.end();
    });
    assert_eq!(text, r#"{"T":[]}{"S":{"x":1}}"#);
}

#[test]
fn innermost_frame_tracks_nesting() {
    let mut ser = Serializer::new();
    assert_eq!(ser.innermost(), None);
    ser.serialize_tuple(2);
    assert_eq!(ser.innermost(), Some(Frame { kind: Composite::Array, started: false }));
    ser.begin_element();
    assert_eq!(ser.innermost(), Some(Frame { kind: Composite::Array, started: true }));
    ser.serialize_newtype_variant("E", 2, "Inches");
    assert_eq!(ser.innermost(), Some(Frame { kind: Composite::NewtypeVariant, started: false }));
    ser.serialize_u64(3);
    ser.end();
    ser.end();
    assert_eq!(ser.into_string(), r#"[{"Inches":3}]"#);
}

#[test]
fn efficient_bytes_paths_agree() {
    let bytes = [1u8, 2, 3];
    let value = Efficient2 { bytes: &bytes, byte_buf: vec![1, 2, 3] };
    assert_eq!(encoded(|ser| value.encode(ser)), r#"{"bytes":[1,2,3],"byte_buf":[1,2,3]}"#);
    let empty = Efficient2 { bytes: &[], byte_buf: vec![] };
    assert_eq!(encoded(|ser| empty.encode(ser)), r#"{"bytes":[],"byte_buf":[]}"#);
}

#[test]
fn resolver_picks_declared_name() {
    let allowed = vec!["secs", "nanos"];
    assert_eq!(resolve_identifier("nanos", &allowed), Ok(1));
    assert_eq!(resolve_identifier("secs", &allowed), Ok(0));
    assert_eq!(
        resolve_identifier("sec", &allowed),
        Err(DecodeError::UnknownIdentifier("sec".to_string(), vec!["secs", "nanos"]))
    );
}

#[test]
fn record_builder_steps() {
    let mut b = RecordBuilder::new(vec!["a", "b"], vec![10, 20]);
    let slot = b.accept_key("b").unwrap();
    assert_eq!(slot, 1);
    assert_eq!(b.accept_value(slot, 21), Err(DecodeError::TypeMismatch));
    assert_eq!(b.accept_value(slot, 20), Ok(()));
    assert_eq!(b.accept_key("b"), Err(DecodeError::DuplicateField("b".to_string())));
    assert_eq!(b.finish(), Err(DecodeError::MissingField("a".to_string())));
    let slot = b.accept_key("a").unwrap();
    assert_eq!(b.accept_value(slot, 0), Ok(()));
    assert_eq!(b.finish(), Ok(vec![0, 20]));
}

#[test]
fn positional_ignores_extra_elements() {
    assert_eq!(Duration::from_seq(&vec![5, 6, 7]), Ok(Duration::new(5, 6)));
}

#[test]
fn ordered_map_keeps_insertion_order() {
    let visitor: MyMapVisitor<u64, String> = MyMapVisitor::new();
    assert_eq!(visitor.expecting(), "a very special map");
    let mut map: MyMap<u64, String> = visitor.start(None);
    map.insert(2, "b".to_string());
    map.insert(1, "a".to_string());
    map.insert(2, "c".to_string());
    assert_eq!(
        map.into_entries(),
        vec![(2, "b".to_string()), (1, "a".to_string()), (2, "c".to_string())]
    );
    let empty: MyMap<u64, u64> = MyMap::with_capacity(8);
    assert_eq!(empty.len(), 0);
}
