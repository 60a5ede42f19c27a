use substrate_metadata::substrate_value::{
    CompositeValue, PrimitiveValue, SequenceValue, SubstrateValue, VariantValue,
};

#[test]
fn variant_with_one_unnamed_field_renders_as_tag_with_parenthesized_value() {
    let some = SubstrateValue::Variant(VariantValue {
        name: String::from("Some"),
        fields: CompositeValue::Unnamed(vec![SubstrateValue::Primitive(PrimitiveValue::U32(7))]),
    });
    assert_eq!(some.render(), "Some(7)");
    // A unit variant renders as its tag with an empty field list marker.
    let none = SubstrateValue::Variant(VariantValue {
        name: String::from("None"),
        fields: CompositeValue::Unnamed(vec![]),
    });
    assert_eq!(none.render(), "None()");
}

#[test]
fn named_composite_and_sequence_render_with_their_syntax() {
    let v = SubstrateValue::Composite(CompositeValue::Named(vec![
        (String::from("foo"), SubstrateValue::Primitive(PrimitiveValue::U8(2))),
        (String::from("bar"), SubstrateValue::Primitive(PrimitiveValue::Bool(false))),
    ]));
    assert_eq!(v.render(), "{ foo: 2, bar: false }");
    let s = SubstrateValue::Sequence(SequenceValue {
        values: vec![
            SubstrateValue::Primitive(PrimitiveValue::I8(-3)),
            SubstrateValue::Primitive(PrimitiveValue::Str(String::from("hi"))),
            SubstrateValue::Primitive(PrimitiveValue::Char('x')),
        ],
    });
    assert_eq!(s.render(), "[-3, \"hi\", 'x']");
    let empty = SubstrateValue::Composite(CompositeValue::Named(vec![]));
    assert_eq!(empty.render(), "{}");
}

#[test]
fn big_numbers_render_under_the_distinguishing_form() {
    let mut bytes = [0u8; 32];
    bytes[0] = 1;
    bytes[31] = 255;
    let rendered = PrimitiveValue::U256(bytes).render();
    assert!(rendered.starts_with("BigNum([1, 0, "));
    assert!(rendered.ends_with(", 255])"));
    // The signed kind uses the same distinguishing form.
    assert_eq!(
        PrimitiveValue::I256([0; 32]).render(),
        format!("BigNum([{}])", ["0"; 32].join(", ")),
    );
}

#[test]
fn extreme_integers_render_in_decimal() {
    assert_eq!(PrimitiveValue::U128(u128::MAX).render(), u128::MAX.to_string());
    assert_eq!(PrimitiveValue::I128(i128::MIN).render(), i128::MIN.to_string());
    assert_eq!(PrimitiveValue::I64(-1).render(), "-1");
    assert_eq!(PrimitiveValue::U8(0).render(), "0");
}
