use serde_scan::{
    from_closure, from_str, from_str_skipping, scan, Deserializer, Field, KeyStep, NextValue,
    ScanError, Sequence, Shape, Value, Variant, VariantKind,
};

fn text(s: &str) -> String {
    s.to_string()
}

#[test]
fn padded_unsigned_ignores_whitespace() {
    assert_eq!(from_str(&Shape::U64, " 64 "), Ok(Value::Unsigned(64)));
    assert_eq!(from_str(&Shape::U64, "\t\n 18446744073709551615\r "), Ok(Value::Unsigned(u64::MAX)));
    assert_eq!(from_str(&Shape::U64, "+7"), Ok(Value::Unsigned(7)));
}

#[test]
fn integer_ranges_are_checked() {
    assert_eq!(from_str(&Shape::U8, "255"), Ok(Value::Unsigned(255)));
    assert_eq!(from_str(&Shape::U8, "256"), Err(ScanError::De));
    assert_eq!(from_str(&Shape::I8, "-128"), Ok(Value::Signed(-128)));
    assert_eq!(from_str(&Shape::I8, "128"), Err(ScanError::De));
    assert_eq!(from_str(&Shape::I64, "-9223372036854775808"), Ok(Value::Signed(i64::MIN)));
    assert_eq!(from_str(&Shape::U64, "18446744073709551616"), Err(ScanError::De));
    assert_eq!(from_str(&Shape::U32, "-1"), Err(ScanError::De));
    assert_eq!(from_str(&Shape::I32, "-"), Err(ScanError::De));
    assert_eq!(from_str(&Shape::I32, "1x"), Err(ScanError::De));
}

#[test]
fn scalars() {
    assert_eq!(from_str(&Shape::Bool, "true"), Ok(Value::Bool(true)));
    assert_eq!(from_str(&Shape::Bool, "false"), Ok(Value::Bool(false)));
    assert_eq!(from_str(&Shape::Bool, "True"), Err(ScanError::De));
    assert_eq!(from_str(&Shape::Char, "x"), Ok(Value::Char('x')));
    assert_eq!(from_str(&Shape::Char, "xy"), Err(ScanError::De));
    assert_eq!(from_str(&Shape::F64, "1e5"), Ok(Value::Float(text("1e5"))));
    assert_eq!(from_str(&Shape::F64, "-.5E-3"), Ok(Value::Float(text("-.5E-3"))));
    assert_eq!(from_str(&Shape::F64, "inf"), Ok(Value::Float(text("inf"))));
    assert_eq!(from_str(&Shape::F64, "1.2.3"), Err(ScanError::De));
    assert_eq!(from_str(&Shape::F64, "e5"), Err(ScanError::De));
    assert_eq!(from_str(&Shape::Str, "  word  "), Ok(Value::Str(text("word"))));
}

#[test]
fn short_tuple_fails_with_end_of_input() {
    let shape = Shape::Tuple(vec![Shape::U8, Shape::Str, Shape::U8]);
    assert_eq!(from_str(&shape, "1 two"), Err(ScanError::EOF));
    assert_eq!(from_str(&shape, ""), Err(ScanError::EOF));
}

#[test]
fn extra_tokens_after_a_tuple_are_ignored() {
    let shape = Shape::Tuple(vec![Shape::U8, Shape::U8]);
    assert_eq!(from_str(&shape, "1 2"), from_str(&shape, "1 2 3 four"));
    assert_eq!(from_str(&shape, "1 2 x"), Ok(Value::List(vec![Value::Unsigned(1), Value::Unsigned(2)])));
}

#[test]
fn empty_tuple_reads_nothing() {
    assert_eq!(from_str(&Shape::Tuple(vec![]), ""), Ok(Value::List(vec![])));
}

#[test]
fn blank_option_is_absent() {
    let shape = Shape::Maybe(Box::new(Shape::U32));
    assert_eq!(from_str(&shape, ""), Ok(Value::Absent));
    assert_eq!(from_str(&shape, " \t\n"), Ok(Value::Absent));
    assert_eq!(from_str(&shape, " 7 "), Ok(Value::Present(Box::new(Value::Unsigned(7)))));
}

#[test]
fn bounded_shapes_agree() {
    let three = || Shape::Tuple(vec![Shape::U32, Shape::U32, Shape::U32]);
    let rec = Shape::Record(vec![
        Field { name: text("a"), shape: Shape::U32 },
        Field { name: text("b"), shape: Shape::U32 },
        Field { name: text("c"), shape: Shape::U32 },
    ]);
    let t = from_str(&three(), "1 2 3").unwrap();
    let r = from_str(&rec, "1 2 3").unwrap();
    let values: Vec<Value> = match r {
        Value::Pairs(ps) => ps.into_iter().map(|(_, v)| v).collect(),
        other => panic!("not a record: {:?}", other),
    };
    assert_eq!(t, Value::List(values));
}

#[test]
fn inference_priority() {
    assert_eq!(NextValue::new("5"), NextValue::Unsigned);
    assert_eq!(NextValue::new("-5"), NextValue::Integer);
    assert_eq!(NextValue::new("5.0"), NextValue::Float);
    assert_eq!(NextValue::new("a"), NextValue::Char);
    assert_eq!(NextValue::new("abc"), NextValue::String);
    assert_eq!(NextValue::new("NaN"), NextValue::Float);
    assert_eq!(from_str(&Shape::Any, "-5"), Ok(Value::Signed(-5)));
    assert_eq!(from_str(&Shape::Any, "5.0"), Ok(Value::Float(text("5.0"))));
    assert_eq!(from_str(&Shape::Any, "hello"), Ok(Value::Str(text("hello"))));
    assert_eq!(from_str(&Shape::Any, " "), Err(ScanError::EOF));
}

#[test]
fn struct_variants_are_unsupported() {
    let shape = Shape::Enum(vec![Variant {
        name: text("s"),
        kind: VariantKind::Struct(vec![text("a")]),
    }]);
    assert_eq!(from_str(&shape, "s 1 2"), Err(ScanError::NS("struct enum variants")));
    assert_eq!(from_str(&shape, "s"), Err(ScanError::NS("struct enum variants")));
    assert_eq!(Sequence::new().struct_variant(), Err(ScanError::NS("struct enum variants")));
}

#[test]
fn unknown_variant_is_a_conversion_failure() {
    let shape = Shape::Enum(vec![Variant { name: text("on"), kind: VariantKind::Unit }]);
    assert_eq!(from_str(&shape, "off"), Err(ScanError::De));
    assert_eq!(from_str(&shape, ""), Err(ScanError::EOF));
}

#[test]
fn decoding_twice_gives_the_same_result() {
    let shape = Shape::List(Box::new(Shape::Any));
    let input = "1 -2 3.5 x word";
    assert_eq!(from_str(&shape, input), from_str(&shape, input));
}

#[test]
fn unsupported_shapes() {
    assert_eq!(from_str(&Shape::IgnoredAny, "1"), Err(ScanError::NS("self describing formats")));
    assert_eq!(from_str(&Shape::Bytes, "1"), Err(ScanError::NS("borrowed byte slices")));
    assert!(matches!(from_str(&Shape::List(Box::new(Shape::Unit)), "1"), Err(ScanError::NS(_))));
}

#[test]
fn lists_and_maps_run_to_the_end() {
    let list = Shape::List(Box::new(Shape::U8));
    assert_eq!(from_str(&list, ""), Ok(Value::List(vec![])));
    assert_eq!(
        from_str(&list, "4 5"),
        Ok(Value::List(vec![Value::Unsigned(4), Value::Unsigned(5)]))
    );
    let map = Shape::Pairs(Box::new(Shape::Str), Box::new(Shape::I32));
    assert_eq!(
        from_str(&map, "a -1 b 2"),
        Ok(Value::Pairs(vec![
            (Value::Str(text("a")), Value::Signed(-1)),
            (Value::Str(text("b")), Value::Signed(2)),
        ]))
    );
    assert_eq!(from_str(&map, "a -1 b"), Err(ScanError::EOF));
}

#[test]
fn newtype_and_unit() {
    assert_eq!(from_str(&Shape::Newtype(Box::new(Shape::U8)), "9"), Ok(Value::Unsigned(9)));
    assert_eq!(from_str(&Shape::Unit, ""), Ok(Value::Unit));
}

#[test]
fn skipping_set() {
    let shape = Shape::Tuple(vec![Shape::U32, Shape::U32, Shape::Str]);
    assert_eq!(
        from_str_skipping(&shape, ",:", "3,4: x"),
        Ok(Value::List(vec![Value::Unsigned(3), Value::Unsigned(4), Value::Str(text("x"))]))
    );
}

#[test]
fn closure_delimiters() {
    let shape = Shape::Tuple(vec![Shape::U32, Shape::U32]);
    assert_eq!(
        from_closure(&shape, |c: char| c == '-', "12-34"),
        Ok(Value::List(vec![Value::Unsigned(12), Value::Unsigned(34)]))
    );
}

#[test]
fn template_must_match() {
    let shape = Shape::U32;
    assert_eq!(scan("Guard #{} is active.", &shape, "Guard #64 is happy."), Err(ScanError::De));
    let claim = Shape::Tuple((0..5).map(|_| Shape::U32).collect());
    assert_eq!(
        scan("#{} @ {},{}: {}x{}", &claim, "#1 @ 555,891: 18x12"),
        Ok(Value::List(vec![
            Value::Unsigned(1),
            Value::Unsigned(555),
            Value::Unsigned(891),
            Value::Unsigned(18),
            Value::Unsigned(12)
        ]))
    );
}

#[test]
fn cursor_peek_and_next() {
    let mut de = Deserializer::from_str("  a bc ");
    assert_eq!(de.remaining(), 2);
    assert_eq!(de.peek(), Some("a"));
    assert_eq!(de.next(), Ok("a"));
    assert_eq!(de.peek(), Some("bc"));
    assert_eq!(de.parse_next(&Shape::Str), Ok(Value::Str(text("bc"))));
    assert!(!de.has_next());
    assert_eq!(de.next(), Err(ScanError::EOF));
    assert_eq!(de.infer(), None);
}

#[test]
fn sequence_protocol() {
    let de = Deserializer::from_str("1 2 3");
    let mut seq = Sequence::new().with_limit(2);
    assert!(seq.next_element(&de));
    assert!(seq.next_element(&de));
    assert!(!seq.next_element(&de));
    assert!(!seq.short());

    let one = Deserializer::from_str("1");
    let mut pair = Sequence::new().with_limit(2);
    assert!(pair.next_element(&one));
    assert!(pair.short());

    let names = ["a", "b"];
    let mut rec = Sequence::new().with_names(&names);
    assert_eq!(rec.next_key(&de), KeyStep::Named(0));
    assert_eq!(rec.next_key(&de), KeyStep::Named(1));
    assert_eq!(rec.next_key(&de), KeyStep::Done);

    let mut map = Sequence::new();
    assert_eq!(map.next_key(&de), KeyStep::FromInput);
    let empty = Deserializer::from_str("");
    assert_eq!(map.next_key(&empty), KeyStep::Done);
    assert!(!Sequence::new().next_element(&empty));
}

#[test]
fn error_messages() {
    assert_eq!(ScanError::De.message(), "deserialization error");
    assert_eq!(ScanError::EOF.message(), "unexpected end of input");
    assert_eq!(
        ScanError::NS("struct enum variants").message(),
        "deserializing `struct enum variants` is not supported at this time."
    );
    assert_eq!(ScanError::Io(text("closed")).message(), "io: closed");
}
