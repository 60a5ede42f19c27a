use substrate_metadata::codec::DecodeError;
use substrate_metadata::decode_different::{
    byte_cell_eq, str_cell_eq, ByteGetter, DecodeDifferent, DecodeDifferentStr, DefaultByteGetter,
    FnEncode,
};
use substrate_metadata::metadata::{
    FunctionArgumentMetadata, FunctionMetadata, ModuleConstantMetadata, ModuleMetadata,
    RuntimeMetadata, RuntimeMetadataPrefixed, RuntimeMetadataV8, META_RESERVED,
};

fn dstr(s: &str) -> DecodeDifferentStr {
    DecodeDifferent::Decoded(String::from(s))
}

fn estr(s: &str) -> DecodeDifferentStr {
    DecodeDifferent::Encode(FnEncode { value: String::from(s) })
}

/// The scenario module: name "Balances", no storage, one call
/// `transfer(dest: AccountId, value: Balance)`, zero events, one constant
/// `ExistentialDeposit: Balance = 0`, zero errors. `descriptor` selects
/// whether the schema fields are built as descriptors or as decoded values.
fn balances_module(descriptor: bool) -> ModuleMetadata {
    let name = |s: &str| if descriptor { estr(s) } else { dstr(s) };
    let transfer = FunctionMetadata {
        name: name("transfer"),
        arguments: DecodeDifferent::Decoded(vec![
            FunctionArgumentMetadata { name: name("dest"), ty: name("AccountId") },
            FunctionArgumentMetadata { name: name("value"), ty: name("Balance") },
        ]),
        documentation: DecodeDifferent::Decoded(vec![]),
    };
    let deposit = ModuleConstantMetadata {
        name: name("ExistentialDeposit"),
        ty: name("Balance"),
        value: if descriptor {
            DecodeDifferent::Encode(DefaultByteGetter { value: vec![0u8] })
        } else {
            DecodeDifferent::Decoded(vec![0u8])
        },
        documentation: DecodeDifferent::Decoded(vec![]),
    };
    ModuleMetadata {
        name: name("Balances"),
        storage: None,
        calls: Some(DecodeDifferent::Decoded(vec![transfer])),
        event: Some(DecodeDifferent::Decoded(vec![])),
        constants: DecodeDifferent::Decoded(vec![deposit]),
        errors: DecodeDifferent::Decoded(vec![]),
    }
}

fn balances_envelope(descriptor: bool) -> RuntimeMetadataPrefixed {
    let v8 = RuntimeMetadataV8 {
        modules: DecodeDifferent::Decoded(vec![balances_module(descriptor)]),
    };
    v8.into_prefixed()
}

#[test]
fn balances_scenario_decodes_and_reencodes_byte_identically() {
    let original = balances_envelope(true).encode().expect("well-formed schema encodes");
    let (decoded, used) = RuntimeMetadataPrefixed::decode(&original).expect("decode succeeds");
    assert_eq!(used, original.len());
    let RuntimeMetadataPrefixed(magic, meta) = &decoded;
    assert_eq!(*magic, META_RESERVED);
    let v8 = match meta {
        RuntimeMetadata::V8(v8) => v8,
        _ => panic!("expected the current generation"),
    };
    let modules = v8.modules.get();
    assert_eq!(modules.len(), 1);
    let m = &modules[0];
    assert_eq!(m.name.get(), "Balances");
    assert!(m.storage.is_none());
    let calls = m.calls.as_ref().expect("calls present").get();
    assert_eq!(calls.len(), 1);
    assert_eq!(calls[0].name.get(), "transfer");
    let args = calls[0].arguments.get();
    assert_eq!(args.len(), 2);
    assert_eq!(args[0].name.get(), "dest");
    assert_eq!(args[0].ty.get(), "AccountId");
    assert_eq!(args[1].name.get(), "value");
    assert_eq!(args[1].ty.get(), "Balance");
    assert_eq!(m.event.as_ref().expect("event list present").get().len(), 0);
    let constants = m.constants.get();
    assert_eq!(constants.len(), 1);
    assert_eq!(constants[0].name.get(), "ExistentialDeposit");
    assert_eq!(constants[0].value.get(), &vec![0u8]);
    assert_eq!(m.errors.get().len(), 0);
    // The decoded form encodes back to the exact original buffer.
    let reencoded = decoded.encode().expect("decoded form encodes");
    assert_eq!(reencoded, original);
}

#[test]
fn dual_representation_encodes_identically_and_compares_equal() {
    // The same schema built once from descriptors, once from decoded values.
    let a = balances_envelope(true).encode().unwrap();
    let b = balances_envelope(false).encode().unwrap();
    assert_eq!(a, b);
    // Cell-level equality sees only the effective content.
    assert!(str_cell_eq(&estr("transfer"), &dstr("transfer")));
    assert!(!str_cell_eq(&estr("transfer"), &dstr("transfers")));
    let bg_a: ByteGetter = DecodeDifferent::Encode(DefaultByteGetter { value: vec![1, 2, 3] });
    let bg_b: ByteGetter = DecodeDifferent::Decoded(vec![1, 2, 3]);
    let bg_c: ByteGetter = DecodeDifferent::Decoded(vec![1, 2]);
    assert!(byte_cell_eq(&bg_a, &bg_b));
    assert!(!byte_cell_eq(&bg_a, &bg_c));
}

#[test]
fn materialize_is_effective_content() {
    let cell = estr("alpha");
    let owned: String = cell.materialize();
    assert_eq!(owned, "alpha");
    let cell = dstr("beta");
    assert_eq!(cell.materialize(), "beta");
}

#[test]
fn version_gating_rejects_generations_zero_to_seven() {
    // Correct magic, version 0..=7: always the unsupported-generation error,
    // never a truncation error, regardless of trailing bytes.
    let magic = META_RESERVED.to_le_bytes();
    for ver in 0u8..=7 {
        for trailer in [&[][..], &[0xAA][..], &[1, 2, 3, 4, 5, 6, 7, 8][..]] {
            let mut buf = magic.to_vec();
            buf.push(ver);
            buf.extend_from_slice(trailer);
            let err = RuntimeMetadataPrefixed::decode(&buf).unwrap_err();
            assert_eq!(err, DecodeError::UnsupportedGeneration(ver));
        }
    }
}

#[test]
fn magic_gating_rejects_wrong_prefix_before_version() {
    // A valid generation-8 buffer...
    let good = balances_envelope(false).encode().unwrap();
    assert!(RuntimeMetadataPrefixed::decode(&good).is_ok());
    // ...with a corrupted magic fails with a framing error.
    let mut bad = good.clone();
    bad[0] ^= 0xFF;
    assert_eq!(RuntimeMetadataPrefixed::decode(&bad).unwrap_err(), DecodeError::Framing);
    // Even a valid buffer shifted by one byte fails on framing first.
    let mut shifted = vec![0u8];
    shifted.extend_from_slice(&good);
    assert_eq!(
        RuntimeMetadataPrefixed::decode(&shifted).unwrap_err(),
        DecodeError::Framing,
    );
    // Fewer than four bytes cannot even hold the magic.
    assert_eq!(
        RuntimeMetadataPrefixed::decode(&good[..3]).unwrap_err(),
        DecodeError::Truncated,
    );
}

#[test]
fn envelope_rejects_unknown_future_generation_and_truncation() {
    let magic = META_RESERVED.to_le_bytes();
    let mut buf = magic.to_vec();
    buf.push(9);
    assert_eq!(RuntimeMetadataPrefixed::decode(&buf).unwrap_err(), DecodeError::Malformed);
    // Magic alone, no version byte.
    assert_eq!(
        RuntimeMetadataPrefixed::decode(&magic).unwrap_err(),
        DecodeError::Truncated,
    );
    // Generation 8 with a truncated payload.
    let good = balances_envelope(false).encode().unwrap();
    assert!(RuntimeMetadataPrefixed::decode(&good[..good.len() - 1]).is_err());
}
