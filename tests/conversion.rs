use relay_general::convert::{FromValue, ToValue};
use relay_general::processor::{
    process_value, CapSize, FieldAttrs, PathItem, PiiKind, ProcessingState,
};
use relay_general::timestamp::Timestamp;
use relay_general::types::{Annotated, Float, Meta, MetaFlag, MetaTree, Object, Value};

fn with_error(value: Value, message: &str) -> Annotated<Value> {
    let mut meta = Meta::new();
    meta.add_error(message.to_owned());
    Annotated(Some(value), meta)
}

#[test]
fn cap_sizes_add_grace_to_input_length() {
    assert_eq!(CapSize::EnumLike.max_input_length(), 128);
    assert_eq!(CapSize::EnumLike.grace_size(), 10);
    assert_eq!(CapSize::EnumLike.max_field_length(), 138);
    assert_eq!(CapSize::Summary.max_field_length(), 1124);
    assert_eq!(CapSize::Message.max_field_length(), 8396);
    assert_eq!(CapSize::Payload.max_field_length(), 21_000);
    assert_eq!(CapSize::Symbol.max_field_length(), 276);
    assert_eq!(CapSize::Path.max_field_length(), 296);
    assert_eq!(CapSize::ShortPath.max_field_length(), 148);
}

#[test]
fn processing_state_tracks_path() {
    let root = ProcessingState::root();
    assert_eq!(root.path().key(), None);
    assert_eq!(root.path().index(), None);
    assert!(root.path().iter().is_empty());
    let attrs = FieldAttrs {
        name: Some("spans"),
        required: true,
        cap_size: Some(CapSize::Summary),
        pii_kind: Some(PiiKind::Databag),
    };
    let spans = root.enter_static("spans", Some(attrs));
    let first = spans.enter_index(3, None);
    let key = String::from("op");
    let op = first.enter_borrowed(key.as_str(), None);
    assert_eq!(spans.path().key(), Some("spans"));
    assert_eq!(first.path().index(), Some(3));
    assert_eq!(first.path().key(), None);
    assert_eq!(op.path().key(), Some("op"));
    let items: Vec<String> = op
        .path()
        .iter()
        .into_iter()
        .map(|item| match item {
            PathItem::StaticKey(s) => s.to_string(),
            PathItem::DynamicKey(s) => s.clone(),
            PathItem::Index(i) => i.to_string(),
        })
        .collect();
    assert_eq!(items, vec!["spans", "3", "op"]);
    assert_eq!(spans.attrs().name, Some("spans"));
    assert!(spans.attrs().required);
    assert_eq!(spans.attrs().cap_size, Some(CapSize::Summary));
    let defaults = op.attrs();
    assert_eq!(defaults.name, None);
    assert!(!defaults.required);
    assert_eq!(defaults.cap_size, None);
    assert_eq!(defaults.pii_kind, None);
}

#[test]
fn meta_records_errors_and_flags() {
    let mut meta = Meta::new();
    assert!(meta.is_empty());
    meta.add_error("first".to_owned());
    meta.add_error("second".to_owned());
    assert_eq!(meta.error_count(), 2);
    assert_eq!(meta.error_at(1), "second");
    assert!(!meta.has_flag(MetaFlag::Truncated));
    meta.set_flag(MetaFlag::Truncated);
    meta.set_flag(MetaFlag::Truncated);
    assert!(meta.has_flag(MetaFlag::Truncated));
    assert!(!meta.has_flag(MetaFlag::Redacted));
    assert_eq!(meta.duplicate(), meta);
}

#[test]
fn object_insert_replaces_same_key() {
    let mut o: Object<u64> = Object::new();
    assert!(o.insert("a".to_owned(), Annotated::new(1)).is_none());
    assert!(o.insert("b".to_owned(), Annotated::new(2)).is_none());
    assert!(o.insert("a".to_owned(), Annotated::new(3)).is_some());
    assert_eq!(o.len(), 2);
    assert_eq!(o.get("a").unwrap().value(), Some(&3));
    assert_eq!(o.get("b").unwrap().value(), Some(&2));
    assert!(o.get("c").is_none());
    assert_eq!(o.position("b"), Some(1));
}

#[test]
fn null_parses_to_absent_without_error() {
    let r = String::from_value(Annotated::new(Value::Null));
    assert!(r.0.is_none() && r.1.is_empty());
    let r = bool::from_value(Annotated::new(Value::Null));
    assert!(r.0.is_none() && r.1.is_empty());
    let r = u64::from_value(Annotated::new(Value::Null));
    assert!(r.0.is_none() && r.1.is_empty());
    let r = i64::from_value(Annotated::new(Value::Null));
    assert!(r.0.is_none() && r.1.is_empty());
    let r = Float::from_value(Annotated::new(Value::Null));
    assert!(r.0.is_none() && r.1.is_empty());
    let r = Timestamp::from_value(Annotated::new(Value::Null));
    assert!(r.0.is_none() && r.1.is_empty());
    let r = Vec::<Annotated<u64>>::from_value(Annotated::new(Value::Null));
    assert!(r.0.is_none() && r.1.is_empty());
    let r = u64::from_value(Annotated::empty());
    assert!(r.0.is_none() && r.1.is_empty());
}

#[test]
fn mismatched_kind_adds_exactly_one_error() {
    let r = String::from_value(Annotated::new(Value::U64(1)));
    assert!(r.0.is_none());
    assert_eq!(r.1.error_count(), 1);
    assert_eq!(r.1.error_at(0), "expected a string");
    let r = bool::from_value(Annotated::new(Value::String("x".to_owned())));
    assert_eq!(r.1.error_at(0), "expected a boolean");
    let r = u64::from_value(with_error(Value::I64(-1), "earlier"));
    assert!(r.0.is_none());
    assert_eq!(r.1.error_count(), 2);
    assert_eq!(r.1.error_at(0), "earlier");
    assert_eq!(r.1.error_at(1), "expected an unsigned integer");
    let r = i64::from_value(Annotated::new(Value::Bool(true)));
    assert_eq!(r.1.error_at(0), "expected a signed integer");
    let r = Float::from_value(Annotated::new(Value::Bool(true)));
    assert_eq!(r.1.error_at(0), "expected a floating point value");
    let r = Timestamp::from_value(Annotated::new(Value::Bool(true)));
    assert_eq!(r.1.error_count(), 1);
    assert_eq!(r.1.error_at(0), "expected timestamp");
    let r = Vec::<Annotated<u64>>::from_value(Annotated::new(Value::U64(1)));
    assert_eq!(r.1.error_at(0), "expected array");
    let r = Object::<u64>::from_value(Annotated::new(Value::U64(1)));
    assert!(r.0.is_none());
    assert_eq!(r.1.error_at(0), "expected object");
}

#[test]
fn primitives_round_trip() {
    let v = Annotated::new(Value::U64(7));
    assert_eq!(u64::to_value(u64::from_value(v)), Annotated::new(Value::U64(7)));
    let v = Annotated::new(Value::I64(-7));
    assert_eq!(i64::to_value(i64::from_value(v)), Annotated::new(Value::I64(-7)));
    let v = Annotated::new(Value::String("hi".to_owned()));
    assert_eq!(
        String::to_value(String::from_value(v)),
        Annotated::new(Value::String("hi".to_owned()))
    );
    let f = Float { significand: 15, exponent: -1 };
    assert_eq!(Float::to_value(Float::from_value(Annotated::new(Value::F64(f)))), Annotated::new(Value::F64(f)));
}

#[test]
fn timestamps_round_trip_to_microseconds() {
    let t = Timestamp::from_value(Annotated::new(Value::I64(946684800)));
    assert_eq!(t.0.unwrap().timestamp(), 946684800);
    assert_eq!(
        Timestamp::to_value(t).0,
        Some(Value::F64(Float { significand: 946_684_800_000_000, exponent: -6 }))
    );
    let t = Timestamp::from_value(Annotated::new(Value::U64(946684810)));
    assert_eq!(t.0.unwrap().timestamp(), 946684810);
    let f = Float { significand: 9466848001234567, exponent: -7 };
    let t = Timestamp::from_value(Annotated::new(Value::F64(f)));
    let ts = t.0.unwrap();
    assert_eq!(ts.timestamp(), 946684800);
    assert_eq!(ts.timestamp_subsec_nanos(), 123_456_000);
    assert_eq!(
        Timestamp::to_value(t).0,
        Some(Value::F64(Float { significand: 946_684_800_123_456, exponent: -6 }))
    );
}

#[test]
fn negative_float_seconds_keep_the_fraction() {
    let t = Timestamp::from_value(Annotated::new(Value::F64(Float { significand: -15, exponent: -1 })));
    let ts = t.0.unwrap();
    assert_eq!(ts.nanos_since_epoch(), -1_500_000_000);
    assert_eq!(ts.timestamp(), -2);
    assert_eq!(ts.timestamp_subsec_nanos(), 500_000_000);
    assert_eq!(
        Timestamp::to_value(Annotated::new(ts)).0,
        Some(Value::F64(Float { significand: -1_500_000, exponent: -6 }))
    );
    let t = Timestamp::from_value(Annotated::new(Value::F64(Float { significand: -12345678, exponent: -7 })));
    assert_eq!(t.0.unwrap().nanos_since_epoch(), -1_234_567_000);
}

#[test]
fn float_seconds_with_large_exponents() {
    let t = Timestamp::from_value(Annotated::new(Value::F64(Float { significand: 5, exponent: 2 })));
    assert_eq!(t.0.unwrap().timestamp(), 500);
    let t = Timestamp::from_value(Annotated::new(Value::F64(Float { significand: 5, exponent: -40 })));
    assert_eq!(t.0.unwrap().timestamp(), 0);
    let t = Timestamp::from_value(Annotated::new(Value::F64(Float { significand: 1, exponent: 20 })));
    assert!(t.0.is_none());
    assert_eq!(t.1.error_at(0), "timestamp out of range");
}

#[test]
fn timestamps_from_text() {
    let t = Timestamp::from_value(Annotated::new(Value::String("2000-01-01T00:00:10".to_owned())));
    assert_eq!(t.0.unwrap().timestamp(), 946684810);
    let t = Timestamp::from_value(Annotated::new(Value::String("2000-01-01T01:00:10+01:00".to_owned())));
    assert_eq!(t.0.unwrap().timestamp(), 946684810);
    let t = Timestamp::from_value(Annotated::new(Value::String("2000-01-01T00:00:00.5Z".to_owned())));
    assert_eq!(t.0.unwrap().timestamp_subsec_nanos(), 500_000_000);
    let t = Timestamp::from_value(Annotated::new(Value::String("yesterday".to_owned())));
    assert!(t.0.is_none());
    assert_eq!(t.1.error_count(), 1);
    assert!(!t.1.error_at(0).is_empty());
}

#[test]
fn timestamps_out_of_range() {
    let t = Timestamp::from_value(Annotated::new(Value::U64(u64::MAX)));
    assert!(t.0.is_none());
    assert_eq!(t.1.error_at(0), "timestamp out of range");
    let t = Timestamp::from_value(Annotated::new(Value::I64(i64::MIN)));
    assert_eq!(t.1.error_at(0), "timestamp out of range");
    assert!(Timestamp::from_unix(8_210_266_876_799, 999_999_999).is_some());
    assert!(Timestamp::from_unix(8_210_266_876_800, 0).is_none());
    assert!(Timestamp::from_unix(-8_334_601_228_800, 0).is_some());
    assert!(Timestamp::from_unix(-8_334_601_228_801, 999_999_999).is_none());
    let t = Timestamp::from_unix(10, 1_500_000_000).unwrap();
    assert_eq!(t.timestamp(), 11);
    assert_eq!(t.timestamp_subsec_nanos(), 500_000_000);
}

#[test]
fn timestamp_shift_stays_in_range() {
    let t = Timestamp::from_unix(100, 0).unwrap();
    assert_eq!(t.checked_sub_nanos(1_500_000_000).unwrap().timestamp(), 98);
    assert_eq!(t.checked_sub_nanos(1_500_000_000).unwrap().timestamp_subsec_nanos(), 500_000_000);
    let max = Timestamp::from_unix(8_210_266_876_799, 0).unwrap();
    assert!(max.checked_sub_nanos(-1_000_000_000).is_none());
    assert_eq!(t.signed_nanos_since(&max), (100 - 8_210_266_876_799) * 1_000_000_000);
}

#[test]
fn malformed_element_stays_in_its_slot() {
    let items = vec![
        Annotated::new(Value::U64(1)),
        Annotated::new(Value::String("two".to_owned())),
        Annotated::new(Value::U64(3)),
    ];
    let r = Vec::<Annotated<u64>>::from_value(Annotated::new(Value::Array(items)));
    let out = r.0.unwrap();
    assert_eq!(out.len(), 3);
    assert_eq!(out[0], Annotated::new(1));
    assert!(out[1].0.is_none());
    assert_eq!(out[1].1.error_count(), 1);
    assert_eq!(out[2], Annotated::new(3));
    assert!(r.1.is_empty());
}

#[test]
fn object_parses_key_by_key() {
    let mut o = Object::new();
    o.insert("a".to_owned(), Annotated::new(Value::Bool(true)));
    o.insert("b".to_owned(), Annotated::new(Value::U64(2)));
    let r = Object::<bool>::from_value(Annotated::new(Value::Object(o)));
    let p = r.0.unwrap();
    assert_eq!(p.get("a").unwrap().value(), Some(&true));
    assert_eq!(p.get("b").unwrap().1.error_at(0), "expected a boolean");
    let back = Object::<bool>::to_value(Annotated::new(p));
    match back.0 {
        Some(Value::Object(o)) => {
            assert_eq!(o.get("a").unwrap().value(), Some(&Value::Bool(true)));
            assert!(o.get("b").unwrap().0.is_none());
        }
        _ => panic!("object expected"),
    }
}

#[test]
fn meta_tree_is_sparse() {
    let items = vec![
        Annotated::new(Value::U64(1)),
        with_error(Value::U64(2), "bad"),
        Annotated::new(Value::U64(3)),
    ];
    let mut o = Object::new();
    o.insert("clean".to_owned(), Annotated::new(Value::Bool(true)));
    o.insert("list".to_owned(), Annotated::new(Value::Array(items)));
    let tree: MetaTree = Value::extract_meta_tree(&Annotated::new(Value::Object(o)));
    assert!(tree.meta.is_empty());
    assert_eq!(tree.children.len(), 1);
    assert_eq!(tree.children[0].0, "list");
    let list = &tree.children[0].1;
    assert!(list.meta.is_empty());
    assert_eq!(list.children.len(), 1);
    assert_eq!(list.children[0].0, "1");
    assert_eq!(list.children[0].1.meta.error_at(0), "bad");
    assert!(list.children[0].1.children.is_empty());
    assert!(!tree.is_empty());
}

#[test]
fn meta_tree_of_clean_value_is_empty() {
    let items = vec![Annotated::new(Value::U64(1)), Annotated::new(Value::U64(2))];
    let tree = Value::extract_meta_tree(&Annotated::new(Value::Array(items)));
    assert!(tree.is_empty());
    let parsed = Vec::<Annotated<u64>>::from_value(Annotated::new(Value::Array(vec![
        Annotated::new(Value::U64(1)),
        Annotated::new(Value::Null),
        Annotated::new(Value::Bool(false)),
    ])));
    let tree = Vec::<Annotated<u64>>::extract_meta_tree(&parsed);
    assert_eq!(tree.children.len(), 1);
    assert_eq!(tree.children[0].0, "2");
}

#[test]
fn meta_tree_keys_are_decimal_indices() {
    let mut items = Vec::new();
    for i in 0..12u64 {
        items.push(Annotated::new(Value::U64(i)));
    }
    items[11] = with_error(Value::U64(11), "late");
    let tree = Value::extract_meta_tree(&Annotated::new(Value::Array(items)));
    assert_eq!(tree.children.len(), 1);
    assert_eq!(tree.children[0].0, "11");
}

#[test]
fn value_walk_leaves_tree_unchanged() {
    struct Nothing;
    impl relay_general::processor::Processor for Nothing {}
    let mut v = Annotated::new(Value::Array(vec![with_error(Value::U64(2), "bad")]));
    let before = format!("{:?}", v);
    process_value(&mut v, &mut Nothing, &ProcessingState::root()).unwrap();
    assert_eq!(format!("{:?}", v), before);
}

#[test]
fn skip_serialization_needs_both_empty() {
    let a: Annotated<u64> = Annotated::empty();
    assert!(a.skip_serialization());
    assert!(!Annotated::new(1u64).skip_serialization());
    let mut meta = Meta::new();
    meta.add_error("x".to_owned());
    let b: Annotated<u64> = Annotated(None, meta);
    assert!(!b.skip_serialization());
}
