use tsbin::tupletype::{PrimitiveType, TupleType, TupleTypeBuilder, Type};

#[test]
fn parse_tuple_and_render() {
    let (t, rest) = TupleType::parse(b"(f32,[u32;16])");
    let t = t.unwrap();
    assert!(rest.is_empty());
    assert_eq!(t.to_string(), "(f32,[u32;16])");
    let expected = TupleTypeBuilder::new()
        .push(Type::Primitive(PrimitiveType::F32))
        .push(Type::Array(PrimitiveType::U32, 16))
        .build();
    assert_eq!(t, expected);
}

#[test]
fn render_then_parse() {
    let t = TupleTypeBuilder::new()
        .push(Type::Vector(PrimitiveType::I64))
        .push_str("u8")
        .push_str("[f64;0]")
        .push(Type::Primitive(PrimitiveType::I16))
        .build();
    let s = t.to_string();
    assert_eq!(s, "(Vec<i64>,u8,[f64;0],i16)");
    let (p, rest) = TupleType::parse(s.as_bytes());
    assert_eq!(p.unwrap(), t);
    assert!(rest.is_empty());
}

#[test]
fn every_primitive_round_trips() {
    let all = [
        (PrimitiveType::U8, "u8"),
        (PrimitiveType::U16, "u16"),
        (PrimitiveType::U32, "u32"),
        (PrimitiveType::U64, "u64"),
        (PrimitiveType::I8, "i8"),
        (PrimitiveType::I16, "i16"),
        (PrimitiveType::I32, "i32"),
        (PrimitiveType::I64, "i64"),
        (PrimitiveType::F32, "f32"),
        (PrimitiveType::F64, "f64"),
    ];
    for (p, s) in all.iter() {
        assert_eq!(p.to_string(), *s);
        let (r, rest) = PrimitiveType::parse(s.as_bytes());
        assert_eq!(r, Some(*p));
        assert!(rest.is_empty());
    }
}

#[test]
fn rejected_width_leaves_input() {
    let (r, rest) = PrimitiveType::parse(b"u11");
    assert_eq!(r, None);
    assert_eq!(rest, b"u11");
    let (r, rest) = PrimitiveType::parse(b"f8");
    assert_eq!(r, None);
    assert_eq!(rest, b"f8");
    let (r, rest) = PrimitiveType::parse(b"");
    assert_eq!(r, None);
    assert!(rest.is_empty());
}

#[test]
fn permissive_and_exact_entry_points() {
    let (r, rest) = PrimitiveType::parse(b"u8xxx");
    assert_eq!(r, Some(PrimitiveType::U8));
    assert_eq!(rest, b"xxx");
    let (r, rest) = Type::parse(b"u8xxx");
    assert_eq!(r, Some(Type::Primitive(PrimitiveType::U8)));
    assert_eq!(rest, b"xxx");
    assert_eq!(Type::parse_exact(b"u8xxx"), None);
    assert_eq!(Type::parse_exact(b"u8"), Some(Type::Primitive(PrimitiveType::U8)));
}

#[test]
fn prefix_and_size() {
    let (c, rest) = PrimitiveType::parse_prefix(b"i32");
    assert_eq!(c, Some('i'));
    assert_eq!(rest, b"32");
    let (c, rest) = PrimitiveType::parse_prefix(b"x32");
    assert_eq!(c, None);
    assert_eq!(rest, b"x32");
    let (n, rest) = PrimitiveType::parse_size(b"1234;");
    assert_eq!(n, Some(1234));
    assert_eq!(rest, b";");
    let (n, rest) = PrimitiveType::parse_size(b";1");
    assert_eq!(n, None);
    assert_eq!(rest, b";1");
    let (n, _) = PrimitiveType::parse_size(b"18446744073709551616");
    assert_eq!(n, Some(0));
}

#[test]
fn arrays_and_vectors() {
    let (r, rest) = Type::parse_array(b"[i16;300]z");
    assert_eq!(r, Some(Type::Array(PrimitiveType::I16, 300)));
    assert_eq!(rest, b"z");
    assert_eq!(Type::Array(PrimitiveType::I16, 300).to_string(), "[i16;300]");
    let (r, rest) = Type::parse_array(b"[i16;300");
    assert_eq!(r, None);
    assert_eq!(rest, b"[i16;300");
    let (r, rest) = Type::parse_vector(b"Vec<f64>,");
    assert_eq!(r, Some(Type::Vector(PrimitiveType::F64)));
    assert_eq!(rest, b",");
    let (r, rest) = Type::parse_vector(b"Vec<f65>");
    assert_eq!(r, None);
    assert_eq!(rest, b"Vec<f65>");
    assert_eq!(Type::Vector(PrimitiveType::U16).to_string(), "Vec<u16>");
}

#[test]
fn malformed_tuples_are_rejected_whole() {
    for s in [&b"("[..], b"()", b"(u8", b"(u8,", b"(u8;u16)", b"u8", b"(u8,,u16)"] {
        let (r, rest) = TupleType::parse(s);
        assert!(r.is_none());
        assert_eq!(rest, s);
    }
    let (r, rest) = TupleType::parse(b"(u8)(u16)");
    assert!(r.is_some());
    assert_eq!(rest, b"(u16)");
}

#[test]
fn numbers_not_written_plainly_are_normalised() {
    let (t, rest) = TupleType::parse(b"([u8;007])");
    let t = t.unwrap();
    assert!(rest.is_empty());
    assert_eq!(t.to_string(), "([u8;7])");
    let (t, _) = TupleType::parse(b"([u8;18446744073709551617])");
    assert_eq!(t.unwrap().to_string(), "([u8;1])");
}
