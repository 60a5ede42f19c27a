use substrate_metadata::substrate_value::{
    CompositeValue, PrimitiveKind, PrimitiveValue, SequenceValue, SubstrateValue, ValueKind,
    VariantValue,
};
use substrate_metadata::value_codec::{Shape, VariantShape};
use substrate_metadata::codec::{get_compact, put_compact};

fn prim_shape(k: PrimitiveKind) -> Shape {
    Shape::Primitive(k)
}

fn roundtrip(shape: &Shape, v: SubstrateValue) {
    let bytes = v.encode(shape).expect("value should conform to its shape");
    let (back, used) = SubstrateValue::decode(shape, &bytes).expect("decode should succeed");
    assert_eq!(used, bytes.len());
    assert_eq!(back, v);
}

#[test]
fn roundtrip_every_primitive_kind() {
    roundtrip(&prim_shape(PrimitiveKind::Bool), SubstrateValue::Primitive(PrimitiveValue::Bool(true)));
    roundtrip(&prim_shape(PrimitiveKind::Char), SubstrateValue::Primitive(PrimitiveValue::Char('é')));
    roundtrip(
        &prim_shape(PrimitiveKind::Str),
        SubstrateValue::Primitive(PrimitiveValue::Str(String::from("hello, κόσμος"))),
    );
    roundtrip(&prim_shape(PrimitiveKind::U8), SubstrateValue::Primitive(PrimitiveValue::U8(200)));
    roundtrip(&prim_shape(PrimitiveKind::U16), SubstrateValue::Primitive(PrimitiveValue::U16(60000)));
    roundtrip(&prim_shape(PrimitiveKind::U32), SubstrateValue::Primitive(PrimitiveValue::U32(7)));
    roundtrip(&prim_shape(PrimitiveKind::U64), SubstrateValue::Primitive(PrimitiveValue::U64(u64::MAX)));
    roundtrip(&prim_shape(PrimitiveKind::U128), SubstrateValue::Primitive(PrimitiveValue::U128(u128::MAX)));
    roundtrip(&prim_shape(PrimitiveKind::I8), SubstrateValue::Primitive(PrimitiveValue::I8(-128)));
    roundtrip(&prim_shape(PrimitiveKind::I16), SubstrateValue::Primitive(PrimitiveValue::I16(-1)));
    roundtrip(&prim_shape(PrimitiveKind::I32), SubstrateValue::Primitive(PrimitiveValue::I32(i32::MIN)));
    roundtrip(&prim_shape(PrimitiveKind::I64), SubstrateValue::Primitive(PrimitiveValue::I64(i64::MIN)));
    roundtrip(&prim_shape(PrimitiveKind::I128), SubstrateValue::Primitive(PrimitiveValue::I128(i128::MIN)));
    roundtrip(&prim_shape(PrimitiveKind::U256), SubstrateValue::Primitive(PrimitiveValue::U256([0xAB; 32])));
    roundtrip(&prim_shape(PrimitiveKind::I256), SubstrateValue::Primitive(PrimitiveValue::I256([0x7F; 32])));
}

#[test]
fn roundtrip_256_bit_extremes_preserve_exact_bytes() {
    // Maximum and minimum representable unsigned and signed 256-bit values.
    let mut signed_min = [0u8; 32];
    signed_min[31] = 0x80; // little-endian two's complement: top bit of last byte
    let mut signed_max = [0xFFu8; 32];
    signed_max[31] = 0x7F;
    for (kind, pattern) in [
        (PrimitiveKind::U256, [0xFFu8; 32]),
        (PrimitiveKind::U256, [0x00u8; 32]),
        (PrimitiveKind::I256, signed_min),
        (PrimitiveKind::I256, signed_max),
    ] {
        let v = match kind {
            PrimitiveKind::U256 => SubstrateValue::Primitive(PrimitiveValue::U256(pattern)),
            _ => SubstrateValue::Primitive(PrimitiveValue::I256(pattern)),
        };
        let shape = prim_shape(kind);
        let bytes = v.encode(&shape).unwrap();
        assert_eq!(bytes.len(), 32);
        assert_eq!(&bytes[..], &pattern[..]);
        let (back, _) = SubstrateValue::decode(&shape, &bytes).unwrap();
        match back {
            SubstrateValue::Primitive(PrimitiveValue::U256(b)) => assert_eq!(b, pattern),
            SubstrateValue::Primitive(PrimitiveValue::I256(b)) => assert_eq!(b, pattern),
            other => panic!("unexpected alternative: {:?}", other),
        }
    }
}

#[test]
fn roundtrip_nested_structure() {
    // struct { id: u32, tags: Vec<str>, status: enum { Ok, Err(str) } }
    let shape = Shape::Named(vec![
        (String::from("id"), Shape::Primitive(PrimitiveKind::U32)),
        (
            String::from("tags"),
            Shape::Sequence(Box::new(Shape::Primitive(PrimitiveKind::Str))),
        ),
        (
            String::from("status"),
            Shape::Enumeration(vec![
                VariantShape { name: String::from("Good"), fields: Shape::Unnamed(vec![]) },
                VariantShape {
                    name: String::from("Bad"),
                    fields: Shape::Unnamed(vec![Shape::Primitive(PrimitiveKind::Str)]),
                },
            ]),
        ),
    ]);
    let v = SubstrateValue::Composite(CompositeValue::Named(vec![
        (String::from("id"), SubstrateValue::Primitive(PrimitiveValue::U32(42))),
        (
            String::from("tags"),
            SubstrateValue::Sequence(SequenceValue {
                values: vec![
                    SubstrateValue::Primitive(PrimitiveValue::Str(String::from("a"))),
                    SubstrateValue::Primitive(PrimitiveValue::Str(String::from("b"))),
                ],
            }),
        ),
        (
            String::from("status"),
            SubstrateValue::Variant(VariantValue {
                name: String::from("Bad"),
                fields: CompositeValue::Unnamed(vec![SubstrateValue::Primitive(
                    PrimitiveValue::Str(String::from("why")),
                )]),
            }),
        ),
    ]));
    roundtrip(&shape, v);
}

#[test]
fn roundtrip_empty_sequence_and_unit_variant() {
    let seq_shape = Shape::Sequence(Box::new(Shape::Primitive(PrimitiveKind::U8)));
    roundtrip(&seq_shape, SubstrateValue::Sequence(SequenceValue { values: vec![] }));

    let enum_shape = Shape::Enumeration(vec![VariantShape {
        name: String::from("None"),
        fields: Shape::Unnamed(vec![]),
    }]);
    roundtrip(
        &enum_shape,
        SubstrateValue::Variant(VariantValue {
            name: String::from("None"),
            fields: CompositeValue::Unnamed(vec![]),
        }),
    );
}

#[test]
fn encode_rejects_nonconforming_value() {
    // A bool value does not conform to a u32 shape.
    let v = SubstrateValue::Primitive(PrimitiveValue::Bool(true));
    assert!(v.encode(&prim_shape(PrimitiveKind::U32)).is_none());
    // A variant with an unknown tag does not conform.
    let shape = Shape::Enumeration(vec![VariantShape {
        name: String::from("Known"),
        fields: Shape::Unnamed(vec![]),
    }]);
    let v = SubstrateValue::Variant(VariantValue {
        name: String::from("Unknown"),
        fields: CompositeValue::Unnamed(vec![]),
    });
    assert!(v.encode(&shape).is_none());
}

#[test]
fn decode_rejects_truncated_and_malformed_input() {
    // Too few bytes for a u32.
    assert!(SubstrateValue::decode(&prim_shape(PrimitiveKind::U32), &[1, 2, 3]).is_err());
    // A bool byte that is neither 0 nor 1.
    assert!(SubstrateValue::decode(&prim_shape(PrimitiveKind::Bool), &[2]).is_err());
    // A variant index beyond the arm list.
    let shape = Shape::Enumeration(vec![VariantShape {
        name: String::from("Only"),
        fields: Shape::Unnamed(vec![]),
    }]);
    assert!(SubstrateValue::decode(&shape, &[1]).is_err());
    // Invalid UTF-8 in a string body (length 2, bytes 0xC3 0x28).
    assert!(SubstrateValue::decode(&prim_shape(PrimitiveKind::Str), &[8, 0xC3, 0x28]).is_err());
}

#[test]
fn classify_reports_alternative_and_scalar_kind() {
    let v = SubstrateValue::Primitive(PrimitiveValue::U32(7));
    assert_eq!(v.kind(), ValueKind::Primitive);
    assert_eq!(PrimitiveValue::U32(7).kind(), PrimitiveKind::U32);
    assert_eq!(PrimitiveValue::U256([0; 32]).kind(), PrimitiveKind::U256);
    let c = SubstrateValue::Composite(CompositeValue::Unnamed(vec![]));
    assert_eq!(c.kind(), ValueKind::Composite);
    let s = SubstrateValue::from(SequenceValue { values: vec![] });
    assert_eq!(s.kind(), ValueKind::Sequence);
}

#[test]
fn named_composite_equality_is_label_order_sensitive() {
    let a = SubstrateValue::Composite(CompositeValue::Named(vec![
        (String::from("x"), SubstrateValue::Primitive(PrimitiveValue::U8(1))),
        (String::from("y"), SubstrateValue::Primitive(PrimitiveValue::U8(2))),
    ]));
    let b = SubstrateValue::Composite(CompositeValue::Named(vec![
        (String::from("y"), SubstrateValue::Primitive(PrimitiveValue::U8(2))),
        (String::from("x"), SubstrateValue::Primitive(PrimitiveValue::U8(1))),
    ]));
    assert_ne!(a, b);
    // And a one-element sequence is never equal to its element.
    let elem = SubstrateValue::Primitive(PrimitiveValue::U8(1));
    let seq = SubstrateValue::Sequence(SequenceValue {
        values: vec![SubstrateValue::Primitive(PrimitiveValue::U8(1))],
    });
    assert_ne!(seq, elem);
}

#[test]
fn compact_length_edges_roundtrip() {
    for v in [0u32, 1, 63, 64, 16383, 16384, 0x3FFF_FFFF, 0x4000_0000, u32::MAX] {
        let mut out: Vec<u8> = Vec::new();
        put_compact(&mut out, v);
        let (back, used) = get_compact(&out, 0).expect("compact roundtrip");
        assert_eq!(back, v);
        assert_eq!(used, out.len());
    }
}
