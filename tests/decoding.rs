use serde_scan::{from_str, scan, Field, Shape, Value, Variant, VariantKind};

fn text(s: &str) -> String {
    s.to_string()
}

fn record(names: &[&str], shape: fn() -> Shape) -> Shape {
    Shape::Record(
        names
            .iter()
            .map(|n| Field { name: text(n), shape: shape() })
            .collect(),
    )
}

fn unit_variant(name: &str) -> Variant {
    Variant { name: text(name), kind: VariantKind::Unit }
}

#[test]
fn numbers() {
    let a = from_str(&Shape::U64, "64").unwrap();
    let b = from_str(&Shape::I64, "-64").unwrap();

    assert_eq!(a, Value::Unsigned(64));
    assert_eq!(b, Value::Signed(-64));
}

#[test]
fn tuples() {
    let a = from_str(&Shape::Tuple(vec![Shape::F32]), "  45.34 ").unwrap();
    let b = from_str(&Shape::Tuple(vec![Shape::U8, Shape::U8]), "   3 4   ").unwrap();
    let c = from_str(
        &Shape::Tuple(vec![Shape::U32, Shape::Str, Shape::U32]),
        " 413 plus 612 ",
    )
    .unwrap();

    match a {
        Value::List(items) => match &items[0] {
            Value::Float(t) => assert_eq!(t.parse::<f32>().unwrap(), 45.34),
            other => panic!("not a float: {:?}", other),
        },
        other => panic!("not a tuple: {:?}", other),
    }
    assert_eq!(b, Value::List(vec![Value::Unsigned(3), Value::Unsigned(4)]));
    assert_eq!(
        c,
        Value::List(vec![Value::Unsigned(413), Value::Str(text("plus")), Value::Unsigned(612)])
    );
}

#[test]
fn options() {
    let a = from_str(&Shape::U32, "    ");
    let b = from_str(&Shape::Maybe(Box::new(Shape::U32)), "   ").unwrap();
    let c = from_str(&Shape::Maybe(Box::new(Shape::U32)), " 7 ").unwrap();

    assert!(a.is_err());
    assert_eq!(b, Value::Absent);
    assert_eq!(c, Value::Present(Box::new(Value::Unsigned(7))));
}

#[test]
fn three_ways() {
    let s = " 1 \n                2 \n        3 ";
    let expected = Value::List(vec![Value::Unsigned(1), Value::Unsigned(2), Value::Unsigned(3)]);

    let a = from_str(&Shape::Tuple(vec![Shape::U32, Shape::U32, Shape::U32]), s).unwrap();
    assert_eq!(a, expected);

    let b = from_str(&Shape::Tuple(vec![Shape::U32, Shape::U32, Shape::U32]), s).unwrap();
    assert_eq!(b, expected);

    let c = from_str(&record(&["a", "b", "c"], || Shape::U32), s).unwrap();
    assert_eq!(
        c,
        Value::Pairs(vec![
            (Value::Str(text("a")), Value::Unsigned(1)),
            (Value::Str(text("b")), Value::Unsigned(2)),
            (Value::Str(text("c")), Value::Unsigned(3)),
        ])
    );
}

fn color() -> Shape {
    Shape::Enum(vec![unit_variant("red"), unit_variant("blue"), unit_variant("green")])
}

#[test]
fn enums() {
    let color_list = "
            red
            blue
            green
            green
            red
            blue
        ";

    let colors = from_str(&Shape::List(Box::new(color())), color_list).unwrap();
    match colors {
        Value::List(items) => {
            assert_eq!(items.len(), 6);
            assert_eq!(items[3], Value::Variant(text("green"), Box::new(Value::Unit)));
        },
        other => panic!("not a list: {:?}", other),
    }
}

fn enum_tuple_shape() -> Shape {
    Shape::Enum(vec![
        Variant { name: text("variant"), kind: VariantKind::Newtype(Box::new(Shape::I32)) },
        Variant {
            name: text("tuple"),
            kind: VariantKind::Tuple(vec![Shape::Str, Shape::Str, Shape::U64]),
        },
    ])
}

#[test]
fn enum_tuple() {
    let a = from_str(&enum_tuple_shape(), "variant 1").unwrap();
    let b = from_str(&enum_tuple_shape(), "tuple two three 4").unwrap();

    assert_eq!(a, Value::Variant(text("variant"), Box::new(Value::Signed(1))));
    assert_eq!(
        b,
        Value::Variant(
            text("tuple"),
            Box::new(Value::List(vec![
                Value::Str(text("two")),
                Value::Str(text("three")),
                Value::Unsigned(4)
            ]))
        )
    );
}

#[test]
fn byte_bufs() {
    let bytes = from_str(&Shape::ByteBuf, "0 1 2 255").unwrap();
    match bytes {
        Value::List(items) => {
            assert_eq!(items[0], Value::Unsigned(0x00));
            assert_eq!(items.len(), 4);
        },
        other => panic!("not a list: {:?}", other),
    }

    let borrowed = from_str(&Shape::Bytes, "0 1 2 255");
    assert!(borrowed.is_err());
}

#[test]
fn unsupported() {
    let bad = Shape::Enum(vec![Variant {
        name: text("struct_variant"),
        kind: VariantKind::Struct(vec![text("a"), text("b")]),
    }]);
    let c = from_str(&bad, "struct_variant 0.4 0.5");
    assert!(c.is_err());

    let vec_with_stuff = Shape::Record(vec![
        Field { name: text("vec"), shape: Shape::List(Box::new(Shape::U32)) },
        Field { name: text("stuff"), shape: Shape::Str },
    ]);
    let d = from_str(&vec_with_stuff, "1 2 3 4 6 Stuff");
    assert!(d.is_err())
}

#[test]
fn scan_macro() {
    let test = "Guard #64 is active.";

    let id = match scan("Guard #{} is active.", &Shape::U32, test) {
        Ok(Value::Unsigned(n)) => n,
        _ => 0,
    };

    assert_eq!(id, 64);
}

fn damage() -> Shape {
    Shape::Enum(vec![unit_variant("fire"), unit_variant("cold")])
}

#[test]
fn scan_macro_enum() {
    let tests = [("1 fire damage", 1, "fire"), ("2\tcold\tdamage", 2, "cold")];

    for &(test, test_n, test_damage) in &tests {
        let got = scan("{} {} damage", &Shape::Tuple(vec![Shape::U32, damage()]), test).expect(test);
        assert_eq!(
            got,
            Value::List(vec![
                Value::Unsigned(test_n),
                Value::Variant(text(test_damage), Box::new(Value::Unit))
            ])
        );
    }
}

fn operands() -> VariantKind {
    VariantKind::Tuple(vec![Shape::Any, Shape::Any])
}

#[test]
fn parse_asm() {
    let instr = Shape::Enum(vec![
        Variant { name: text("add"), kind: operands() },
        Variant { name: text("sub"), kind: operands() },
        Variant { name: text("load"), kind: operands() },
    ]);

    let input = "
            load a 80
            load b 60
            add a b
            sub a 10
        ";

    let op = |name: &str, a: Value, b: Value| {
        Value::Variant(text(name), Box::new(Value::List(vec![a, b])))
    };
    let expected = vec![
        op("load", Value::Char('a'), Value::Unsigned(80)),
        op("load", Value::Char('b'), Value::Unsigned(60)),
        op("add", Value::Char('a'), Value::Char('b')),
        op("sub", Value::Char('a'), Value::Unsigned(10)),
    ];

    let program: Vec<Value> =
        input.trim().lines().filter_map(|l| from_str(&instr, l).ok()).collect();

    assert_eq!(program, expected)
}
