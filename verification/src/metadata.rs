//! The versioned schema model: module, storage, call, event, constant and
//! error records, every field wrapped in a dual-representation cell, plus the
//! magic-prefixed version envelope. Every record has a ghost view, an exact
//! wire encoding (`enc_*`), and an exact parse (`dec_*`); the envelope
//! decoder validates the magic before the version, and rejects the
//! permanently unsupported generations with the offending version number.

use vstd::prelude::*;
use vstd::utf8::encode_utf8;
use crate::codec::{enc_str, dec_str, enc_bool, dec_bool, compact_bytes, dec_compact,
    le_bytes_of, le_val, DecodeError, put_le, get_le, put_compact, get_compact, put_bytes,
    put_str, get_str, put_bool, get_bool, lemma_pow256_16, lemma_le_val_bound};
use crate::decode_different::{DecodeDifferent, DecodeDifferentStr, DFnA, ODFnA, ByteGetter,
    FnEncode, DefaultByteGetter, Produce};

verus! {

broadcast use vstd::std_specs::vec::group_vec_axioms, vstd::seq::group_seq_axioms;

/// The fixed magic prefix of the envelope: the four bytes of this word,
/// little-endian, stand before any version discriminant.
pub const META_RESERVED: u32 = 0x6174656d;

/// All the metadata about a function (a dispatchable call).
#[derive(Debug)]
pub struct FunctionMetadata {
    pub name: DecodeDifferentStr,
    pub arguments: DFnA<FunctionArgumentMetadata>,
    pub documentation: DFnA<String>,
}

/// All the metadata about a function argument.
#[derive(Debug)]
pub struct FunctionArgumentMetadata {
    pub name: DecodeDifferentStr,
    pub ty: DecodeDifferentStr,
}

/// All the metadata about an event.
#[derive(Debug)]
pub struct EventMetadata {
    pub name: DecodeDifferentStr,
    pub arguments: DFnA<String>,
    pub documentation: DFnA<String>,
}

/// Hasher used by storage maps; pure metadata, recorded for the external
/// key-derivation logic.
#[derive(Clone, Copy, PartialEq, Eq, Debug)]
pub enum StorageHasher {
    Blake2_128,
    Blake2_256,
    Twox128,
    Twox256,
    Twox64Concat,
}

/// A storage entry's shape: plain, map (with one hasher and a legacy
/// linked-list flag), or double map (with one hasher per key component).
#[derive(Debug)]
pub enum StorageEntryType {
    Plain(DecodeDifferentStr),
    SingleMap {
        hasher: StorageHasher,
        key: DecodeDifferentStr,
        value: DecodeDifferentStr,
        is_linked: bool,
    },
    DoubleMap {
        hasher: StorageHasher,
        key1: DecodeDifferentStr,
        key2: DecodeDifferentStr,
        value: DecodeDifferentStr,
        key2_hasher: StorageHasher,
    },
}

/// A storage entry modifier.
#[derive(Clone, Copy, PartialEq, Eq, Debug)]
pub enum StorageEntryModifier {
    Optional,
    Default,
}

/// All the metadata about one storage entry.
#[derive(Debug)]
pub struct StorageEntryMetadata {
    pub name: DecodeDifferentStr,
    pub modifier: StorageEntryModifier,
    pub ty: StorageEntryType,
    pub default: ByteGetter,
    pub documentation: DFnA<String>,
}

/// All the metadata about one module constant.
#[derive(Debug)]
pub struct ModuleConstantMetadata {
    pub name: DecodeDifferentStr,
    pub ty: DecodeDifferentStr,
    pub value: ByteGetter,
    pub documentation: DFnA<String>,
}

/// All the metadata about a module error.
#[derive(Debug)]
pub struct ErrorMetadata {
    pub name: DecodeDifferentStr,
    pub documentation: DFnA<String>,
}

/// All metadata of the storage.
#[derive(Debug)]
pub struct StorageMetadata {
    pub prefix: DecodeDifferentStr,
    pub entries: DecodeDifferent<FnEncode<Vec<StorageEntryMetadata>>, Vec<StorageEntryMetadata>>,
}

/// All metadata about a runtime module.
#[derive(Debug)]
pub struct ModuleMetadata {
    pub name: DecodeDifferentStr,
    pub storage: Option<DecodeDifferent<FnEncode<StorageMetadata>, StorageMetadata>>,
    pub calls: ODFnA<FunctionMetadata>,
    pub event: ODFnA<EventMetadata>,
    pub constants: DFnA<ModuleConstantMetadata>,
    pub errors: DFnA<ErrorMetadata>,
}

/// The current generation of the metadata.
#[derive(Debug)]
pub struct RuntimeMetadataV8 {
    pub modules: DFnA<ModuleMetadata>,
}

/// The latest version of the metadata.
pub type RuntimeMetadataLastVersion = RuntimeMetadataV8;

/// The placeholder payload of the permanently unsupported generations. It
/// has a private field and no constructor, so no outside code can build one;
/// decoding a deprecated generation always fails, and encoding one writes an
/// empty payload.
#[derive(Debug)]
pub struct RuntimeMetadataDeprecated {
    marker: (),
}

/// The tagged union over all generations; the version discriminant on the
/// wire selects the variant.
#[derive(Debug)]
pub enum RuntimeMetadata {
    V0(RuntimeMetadataDeprecated),
    V1(RuntimeMetadataDeprecated),
    V2(RuntimeMetadataDeprecated),
    V3(RuntimeMetadataDeprecated),
    V4(RuntimeMetadataDeprecated),
    V5(RuntimeMetadataDeprecated),
    V6(RuntimeMetadataDeprecated),
    V7(RuntimeMetadataDeprecated),
    V8(RuntimeMetadataV8),
}

/// Metadata prefixed by the fixed magic word.
#[derive(Debug)]
pub struct RuntimeMetadataPrefixed(pub u32, pub RuntimeMetadata);

// ---------------------------------------------------------------------------
// Ghost views.
// ---------------------------------------------------------------------------

pub struct FunctionArgumentMetadataView {
    pub name: Seq<char>,
    pub ty: Seq<char>,
}

pub struct FunctionMetadataView {
    pub name: Seq<char>,
    pub arguments: Seq<FunctionArgumentMetadataView>,
    pub documentation: Seq<Seq<char>>,
}

pub struct EventMetadataView {
    pub name: Seq<char>,
    pub arguments: Seq<Seq<char>>,
    pub documentation: Seq<Seq<char>>,
}

pub enum StorageEntryTypeView {
    Plain(Seq<char>),
    SingleMap { hasher: StorageHasher, key: Seq<char>, value: Seq<char>, is_linked: bool },
    DoubleMap {
        hasher: StorageHasher,
        key1: Seq<char>,
        key2: Seq<char>,
        value: Seq<char>,
        key2_hasher: StorageHasher,
    },
}

pub struct StorageEntryMetadataView {
    pub name: Seq<char>,
    pub modifier: StorageEntryModifier,
    pub ty: StorageEntryTypeView,
    pub default: Seq<u8>,
    pub documentation: Seq<Seq<char>>,
}

pub struct ModuleConstantMetadataView {
    pub name: Seq<char>,
    pub ty: Seq<char>,
    pub value: Seq<u8>,
    pub documentation: Seq<Seq<char>>,
}

pub struct ErrorMetadataView {
    pub name: Seq<char>,
    pub documentation: Seq<Seq<char>>,
}

pub struct StorageMetadataView {
    pub prefix: Seq<char>,
    pub entries: Seq<StorageEntryMetadataView>,
}

pub struct ModuleMetadataView {
    pub name: Seq<char>,
    pub storage: Option<StorageMetadataView>,
    pub calls: Option<Seq<FunctionMetadataView>>,
    pub event: Option<Seq<EventMetadataView>>,
    pub constants: Seq<ModuleConstantMetadataView>,
    pub errors: Seq<ErrorMetadataView>,
}

pub struct RuntimeMetadataV8View {
    pub modules: Seq<ModuleMetadataView>,
}

pub enum RuntimeMetadataView {
    V0,
    V1,
    V2,
    V3,
    V4,
    V5,
    V6,
    V7,
    V8(RuntimeMetadataV8View),
}

pub struct RuntimeMetadataPrefixedView {
    pub magic: u32,
    pub meta: RuntimeMetadataView,
}

pub open spec fn str_cell_view(c: DecodeDifferentStr) -> Seq<char> {
    c.effective()@
}

pub open spec fn strs_view(v: Seq<String>) -> Seq<Seq<char>> {
    Seq::new(v.len(), |i: int| v[i]@)
}

pub open spec fn arg_view(a: FunctionArgumentMetadata) -> FunctionArgumentMetadataView {
    FunctionArgumentMetadataView { name: str_cell_view(a.name), ty: str_cell_view(a.ty) }
}

pub open spec fn args_view(v: Seq<FunctionArgumentMetadata>) -> Seq<FunctionArgumentMetadataView> {
    Seq::new(v.len(), |i: int| arg_view(v[i]))
}

pub open spec fn function_view(f: FunctionMetadata) -> FunctionMetadataView {
    FunctionMetadataView {
        name: str_cell_view(f.name),
        arguments: args_view(f.arguments.effective()@),
        documentation: strs_view(f.documentation.effective()@),
    }
}

pub open spec fn functions_view(v: Seq<FunctionMetadata>) -> Seq<FunctionMetadataView> {
    Seq::new(v.len(), |i: int| function_view(v[i]))
}

pub open spec fn event_view(e: EventMetadata) -> EventMetadataView {
    EventMetadataView {
        name: str_cell_view(e.name),
        arguments: strs_view(e.arguments.effective()@),
        documentation: strs_view(e.documentation.effective()@),
    }
}

pub open spec fn events_view(v: Seq<EventMetadata>) -> Seq<EventMetadataView> {
    Seq::new(v.len(), |i: int| event_view(v[i]))
}

pub open spec fn storage_type_view(t: StorageEntryType) -> StorageEntryTypeView {
    match t {
        StorageEntryType::Plain(ty) => StorageEntryTypeView::Plain(str_cell_view(ty)),
        StorageEntryType::SingleMap { hasher, key, value, is_linked } => StorageEntryTypeView::SingleMap {
            hasher,
            key: str_cell_view(key),
            value: str_cell_view(value),
            is_linked,
        },
        StorageEntryType::DoubleMap {
            hasher,
            key1,
            key2,
            value,
            key2_hasher,
        } => StorageEntryTypeView::DoubleMap {
            hasher,
            key1: str_cell_view(key1),
            key2: str_cell_view(key2),
            value: str_cell_view(value),
            key2_hasher,
        },
    }
}

pub open spec fn entry_view(e: StorageEntryMetadata) -> StorageEntryMetadataView {
    StorageEntryMetadataView {
        name: str_cell_view(e.name),
        modifier: e.modifier,
        ty: storage_type_view(e.ty),
        default: e.default.effective()@,
        documentation: strs_view(e.documentation.effective()@),
    }
}

pub open spec fn entries_view(v: Seq<StorageEntryMetadata>) -> Seq<StorageEntryMetadataView> {
    Seq::new(v.len(), |i: int| entry_view(v[i]))
}

pub open spec fn constant_view(c: ModuleConstantMetadata) -> ModuleConstantMetadataView {
    ModuleConstantMetadataView {
        name: str_cell_view(c.name),
        ty: str_cell_view(c.ty),
        value: c.value.effective()@,
        documentation: strs_view(c.documentation.effective()@),
    }
}

pub open spec fn constants_view(v: Seq<ModuleConstantMetadata>) -> Seq<ModuleConstantMetadataView> {
    Seq::new(v.len(), |i: int| constant_view(v[i]))
}

pub open spec fn error_view(e: ErrorMetadata) -> ErrorMetadataView {
    ErrorMetadataView {
        name: str_cell_view(e.name),
        documentation: strs_view(e.documentation.effective()@),
    }
}

pub open spec fn errors_view(v: Seq<ErrorMetadata>) -> Seq<ErrorMetadataView> {
    Seq::new(v.len(), |i: int| error_view(v[i]))
}

pub open spec fn storage_view(s: StorageMetadata) -> StorageMetadataView {
    StorageMetadataView {
        prefix: str_cell_view(s.prefix),
        entries: entries_view(s.entries.effective()@),
    }
}

pub open spec fn module_view(m: ModuleMetadata) -> ModuleMetadataView {
    ModuleMetadataView {
        name: str_cell_view(m.name),
        storage: match m.storage {
            None => None,
            Some(c) => Some(storage_view(c.effective())),
        },
        calls: match m.calls {
            None => None,
            Some(c) => Some(functions_view(c.effective()@)),
        },
        event: match m.event {
            None => None,
            Some(c) => Some(events_view(c.effective()@)),
        },
        constants: constants_view(m.constants.effective()@),
        errors: errors_view(m.errors.effective()@),
    }
}

pub open spec fn modules_view(v: Seq<ModuleMetadata>) -> Seq<ModuleMetadataView> {
    Seq::new(v.len(), |i: int| module_view(v[i]))
}

pub open spec fn v8_view(v: RuntimeMetadataV8) -> RuntimeMetadataV8View {
    RuntimeMetadataV8View { modules: modules_view(v.modules.effective()@) }
}

pub open spec fn runtime_view(r: RuntimeMetadata) -> RuntimeMetadataView {
    match r {
        RuntimeMetadata::V0(_) => RuntimeMetadataView::V0,
        RuntimeMetadata::V1(_) => RuntimeMetadataView::V1,
        RuntimeMetadata::V2(_) => RuntimeMetadataView::V2,
        RuntimeMetadata::V3(_) => RuntimeMetadataView::V3,
        RuntimeMetadata::V4(_) => RuntimeMetadataView::V4,
        RuntimeMetadata::V5(_) => RuntimeMetadataView::V5,
        RuntimeMetadata::V6(_) => RuntimeMetadataView::V6,
        RuntimeMetadata::V7(_) => RuntimeMetadataView::V7,
        RuntimeMetadata::V8(v) => RuntimeMetadataView::V8(v8_view(v)),
    }
}

pub open spec fn prefixed_view(p: RuntimeMetadataPrefixed) -> RuntimeMetadataPrefixedView {
    RuntimeMetadataPrefixedView { magic: p.0, meta: runtime_view(p.1) }
}

// ---------------------------------------------------------------------------
// Well-formedness: the machine limits under which a record can be encoded.
// ---------------------------------------------------------------------------

pub open spec fn wf_str(s: Seq<char>) -> bool {
    encode_utf8(s).len() < 0x1_0000_0000
}

#[verifier::opaque]
pub open spec fn wf_strs(ss: Seq<Seq<char>>) -> bool {
    ss.len() < 0x1_0000_0000 && forall|i: int| 0 <= i < ss.len() ==> wf_str(#[trigger] ss[i])
}

pub open spec fn wf_bytes(b: Seq<u8>) -> bool {
    b.len() < 0x1_0000_0000
}

#[verifier::opaque]
pub open spec fn wf_arg(a: FunctionArgumentMetadataView) -> bool {
    wf_str(a.name) && wf_str(a.ty)
}

#[verifier::opaque]
pub open spec fn wf_function(f: FunctionMetadataView) -> bool {
    &&& wf_str(f.name)
    &&& f.arguments.len() < 0x1_0000_0000
    &&& forall|i: int| 0 <= i < f.arguments.len() ==> wf_arg(#[trigger] f.arguments[i])
    &&& wf_strs(f.documentation)
}

#[verifier::opaque]
pub open spec fn wf_event(e: EventMetadataView) -> bool {
    wf_str(e.name) && wf_strs(e.arguments) && wf_strs(e.documentation)
}

#[verifier::opaque]
pub open spec fn wf_storage_type(t: StorageEntryTypeView) -> bool {
    match t {
        StorageEntryTypeView::Plain(ty) => wf_str(ty),
        StorageEntryTypeView::SingleMap { hasher, key, value, is_linked } => wf_str(key) && wf_str(
            value,
        ),
        StorageEntryTypeView::DoubleMap { hasher, key1, key2, value, key2_hasher } => wf_str(key1)
            && wf_str(key2) && wf_str(value),
    }
}

#[verifier::opaque]
pub open spec fn wf_entry(e: StorageEntryMetadataView) -> bool {
    &&& wf_str(e.name)
    &&& wf_storage_type(e.ty)
    &&& wf_bytes(e.default)
    &&& wf_strs(e.documentation)
}

#[verifier::opaque]
pub open spec fn wf_constant(c: ModuleConstantMetadataView) -> bool {
    wf_str(c.name) && wf_str(c.ty) && wf_bytes(c.value) && wf_strs(c.documentation)
}

#[verifier::opaque]
pub open spec fn wf_error(e: ErrorMetadataView) -> bool {
    wf_str(e.name) && wf_strs(e.documentation)
}

#[verifier::opaque]
pub open spec fn wf_storage(s: StorageMetadataView) -> bool {
    &&& wf_str(s.prefix)
    &&& s.entries.len() < 0x1_0000_0000
    &&& forall|i: int| 0 <= i < s.entries.len() ==> wf_entry(#[trigger] s.entries[i])
}

#[verifier::opaque]
pub open spec fn wf_module(m: ModuleMetadataView) -> bool {
    &&& wf_str(m.name)
    &&& match m.storage {
        None => true,
        Some(s) => wf_storage(s),
    }
    &&& match m.calls {
        None => true,
        Some(fs) => fs.len() < 0x1_0000_0000 && forall|i: int|
            0 <= i < fs.len() ==> wf_function(#[trigger] fs[i]),
    }
    &&& match m.event {
        None => true,
        Some(es) => es.len() < 0x1_0000_0000 && forall|i: int|
            0 <= i < es.len() ==> wf_event(#[trigger] es[i]),
    }
    &&& m.constants.len() < 0x1_0000_0000
    &&& forall|i: int| 0 <= i < m.constants.len() ==> wf_constant(#[trigger] m.constants[i])
    &&& m.errors.len() < 0x1_0000_0000
    &&& forall|i: int| 0 <= i < m.errors.len() ==> wf_error(#[trigger] m.errors[i])
}

#[verifier::opaque]
pub open spec fn wf_v8(v: RuntimeMetadataV8View) -> bool {
    v.modules.len() < 0x1_0000_0000 && forall|i: int|
        0 <= i < v.modules.len() ==> wf_module(#[trigger] v.modules[i])
}

pub open spec fn wf_runtime(r: RuntimeMetadataView) -> bool {
    match r {
        RuntimeMetadataView::V8(v) => wf_v8(v),
        _ => true,
    }
}

// ---------------------------------------------------------------------------
// Encoding: the exact bytes of a well-formed record.
// ---------------------------------------------------------------------------

#[verifier::opaque]
pub open spec fn enc_bytes(b: Seq<u8>) -> Seq<u8> {
    compact_bytes(b.len()) + b
}

pub open spec fn enc_strs_seq(ss: Seq<Seq<char>>) -> Seq<u8>
    decreases ss.len(),
{
    if ss.len() == 0 {
        Seq::empty()
    } else {
        enc_str(ss[0]) + enc_strs_seq(ss.drop_first())
    }
}

#[verifier::opaque]
pub open spec fn enc_strs(ss: Seq<Seq<char>>) -> Seq<u8> {
    compact_bytes(ss.len()) + enc_strs_seq(ss)
}

#[verifier::opaque]
pub open spec fn enc_arg(a: FunctionArgumentMetadataView) -> Seq<u8> {
    enc_str(a.name) + enc_str(a.ty)
}

pub open spec fn enc_args_seq(v: Seq<FunctionArgumentMetadataView>) -> Seq<u8>
    decreases v.len(),
{
    if v.len() == 0 {
        Seq::empty()
    } else {
        enc_arg(v[0]) + enc_args_seq(v.drop_first())
    }
}

#[verifier::opaque]
pub open spec fn enc_function(f: FunctionMetadataView) -> Seq<u8> {
    enc_str(f.name) + compact_bytes(f.arguments.len()) + enc_args_seq(f.arguments) + enc_strs(
        f.documentation,
    )
}

pub open spec fn enc_functions_seq(v: Seq<FunctionMetadataView>) -> Seq<u8>
    decreases v.len(),
{
    if v.len() == 0 {
        Seq::empty()
    } else {
        enc_function(v[0]) + enc_functions_seq(v.drop_first())
    }
}

#[verifier::opaque]
pub open spec fn enc_event(e: EventMetadataView) -> Seq<u8> {
    enc_str(e.name) + enc_strs(e.arguments) + enc_strs(e.documentation)
}

pub open spec fn enc_events_seq(v: Seq<EventMetadataView>) -> Seq<u8>
    decreases v.len(),
{
    if v.len() == 0 {
        Seq::empty()
    } else {
        enc_event(v[0]) + enc_events_seq(v.drop_first())
    }
}

pub open spec fn enc_hasher(h: StorageHasher) -> Seq<u8> {
    match h {
        StorageHasher::Blake2_128 => seq![0u8],
        StorageHasher::Blake2_256 => seq![1u8],
        StorageHasher::Twox128 => seq![2u8],
        StorageHasher::Twox256 => seq![3u8],
        StorageHasher::Twox64Concat => seq![4u8],
    }
}

pub open spec fn enc_modifier(m: StorageEntryModifier) -> Seq<u8> {
    match m {
        StorageEntryModifier::Optional => seq![0u8],
        StorageEntryModifier::Default => seq![1u8],
    }
}

#[verifier::opaque]
pub open spec fn enc_storage_type(t: StorageEntryTypeView) -> Seq<u8> {
    match t {
        StorageEntryTypeView::Plain(ty) => seq![0u8] + enc_str(ty),
        StorageEntryTypeView::SingleMap { hasher, key, value, is_linked } => seq![1u8] + enc_hasher(
            hasher,
        ) + enc_str(key) + enc_str(value) + enc_bool(is_linked),
        StorageEntryTypeView::DoubleMap { hasher, key1, key2, value, key2_hasher } => seq![2u8]
            + enc_hasher(hasher) + enc_str(key1) + enc_str(key2) + enc_str(value) + enc_hasher(
            key2_hasher,
        ),
    }
}

#[verifier::opaque]
pub open spec fn enc_entry(e: StorageEntryMetadataView) -> Seq<u8> {
    enc_str(e.name) + enc_modifier(e.modifier) + enc_storage_type(e.ty) + enc_bytes(e.default)
        + enc_strs(e.documentation)
}

pub open spec fn enc_entries_seq(v: Seq<StorageEntryMetadataView>) -> Seq<u8>
    decreases v.len(),
{
    if v.len() == 0 {
        Seq::empty()
    } else {
        enc_entry(v[0]) + enc_entries_seq(v.drop_first())
    }
}

#[verifier::opaque]
pub open spec fn enc_constant(c: ModuleConstantMetadataView) -> Seq<u8> {
    enc_str(c.name) + enc_str(c.ty) + enc_bytes(c.value) + enc_strs(c.documentation)
}

pub open spec fn enc_constants_seq(v: Seq<ModuleConstantMetadataView>) -> Seq<u8>
    decreases v.len(),
{
    if v.len() == 0 {
        Seq::empty()
    } else {
        enc_constant(v[0]) + enc_constants_seq(v.drop_first())
    }
}

#[verifier::opaque]
pub open spec fn enc_error(e: ErrorMetadataView) -> Seq<u8> {
    enc_str(e.name) + enc_strs(e.documentation)
}

pub open spec fn enc_errors_seq(v: Seq<ErrorMetadataView>) -> Seq<u8>
    decreases v.len(),
{
    if v.len() == 0 {
        Seq::empty()
    } else {
        enc_error(v[0]) + enc_errors_seq(v.drop_first())
    }
}

#[verifier::opaque]
pub open spec fn enc_storage(s: StorageMetadataView) -> Seq<u8> {
    enc_str(s.prefix) + compact_bytes(s.entries.len()) + enc_entries_seq(s.entries)
}


#[verifier::opaque]
pub open spec fn enc_module_tail(
    constants: Seq<ModuleConstantMetadataView>,
    errors: Seq<ErrorMetadataView>,
) -> Seq<u8> {
    compact_bytes(constants.len()) + enc_constants_seq(constants) + compact_bytes(errors.len())
        + enc_errors_seq(errors)
}

#[verifier::opaque]
pub open spec fn dec_module_tail(b: Seq<u8>) -> Option<
    ((Seq<ModuleConstantMetadataView>, Seq<ErrorMetadataView>), int),
> {
    match dec_compact(b) {
        Some((nc, p5)) => match dec_constants_seq(b.skip(p5), nc) {
            Some((constants, p6)) => match dec_compact(b.skip(p5 + p6)) {
                Some((ne, p7)) => match dec_errors_seq(b.skip(p5 + p6 + p7), ne) {
                    Some((errors, p8)) => Some(((constants, errors), p5 + p6 + p7 + p8)),
                    None => None,
                },
                None => None,
            },
            None => None,
        },
        None => None,
    }
}

#[verifier::opaque]
pub open spec fn enc_module(m: ModuleMetadataView) -> Seq<u8> {
    enc_str(m.name) + (match m.storage {
        None => seq![0u8],
        Some(s) => seq![1u8] + enc_storage(s),
    }) + (match m.calls {
        None => seq![0u8],
        Some(fs) => seq![1u8] + compact_bytes(fs.len()) + enc_functions_seq(fs),
    }) + (match m.event {
        None => seq![0u8],
        Some(es) => seq![1u8] + compact_bytes(es.len()) + enc_events_seq(es),
    }) + enc_module_tail(m.constants, m.errors)
}

pub open spec fn enc_modules_seq(v: Seq<ModuleMetadataView>) -> Seq<u8>
    decreases v.len(),
{
    if v.len() == 0 {
        Seq::empty()
    } else {
        enc_module(v[0]) + enc_modules_seq(v.drop_first())
    }
}

#[verifier::opaque]
pub open spec fn enc_v8(v: RuntimeMetadataV8View) -> Seq<u8> {
    compact_bytes(v.modules.len()) + enc_modules_seq(v.modules)
}

/// The unsupported generations encode to their discriminant byte and an
/// empty payload; only generation 8 carries content.
pub open spec fn enc_runtime(r: RuntimeMetadataView) -> Seq<u8> {
    match r {
        RuntimeMetadataView::V0 => seq![0u8],
        RuntimeMetadataView::V1 => seq![1u8],
        RuntimeMetadataView::V2 => seq![2u8],
        RuntimeMetadataView::V3 => seq![3u8],
        RuntimeMetadataView::V4 => seq![4u8],
        RuntimeMetadataView::V5 => seq![5u8],
        RuntimeMetadataView::V6 => seq![6u8],
        RuntimeMetadataView::V7 => seq![7u8],
        RuntimeMetadataView::V8(v) => seq![8u8] + enc_v8(v),
    }
}

pub open spec fn enc_prefixed(p: RuntimeMetadataPrefixedView) -> Seq<u8> {
    le_bytes_of(p.magic as nat, 4) + enc_runtime(p.meta)
}

// ---------------------------------------------------------------------------
// Decoding: the exact parse of a byte sequence into decoded-form records.
// ---------------------------------------------------------------------------

#[verifier::opaque]
pub open spec fn dec_bytes(b: Seq<u8>) -> Option<(Seq<u8>, int)> {
    match dec_compact(b) {
        Some((n, p)) => if p + n <= b.len() {
            Some((b.subrange(p, p + n), p + n))
        } else {
            None
        },
        None => None,
    }
}

pub open spec fn dec_strs_seq(b: Seq<u8>, cnt: nat) -> Option<(Seq<Seq<char>>, int)>
    decreases cnt,
{
    if cnt == 0 {
        Some((Seq::empty(), 0))
    } else {
        match dec_str(b) {
            Some((s, n)) => match dec_strs_seq(b.skip(n), (cnt - 1) as nat) {
                Some((ss, q)) => Some((seq![s] + ss, n + q)),
                None => None,
            },
            None => None,
        }
    }
}

#[verifier::opaque]
pub open spec fn dec_strs(b: Seq<u8>) -> Option<(Seq<Seq<char>>, int)> {
    match dec_compact(b) {
        Some((n, p)) => match dec_strs_seq(b.skip(p), n) {
            Some((ss, q)) => Some((ss, p + q)),
            None => None,
        },
        None => None,
    }
}

#[verifier::opaque]
pub open spec fn dec_arg(b: Seq<u8>) -> Option<(FunctionArgumentMetadataView, int)> {
    match dec_str(b) {
        Some((name, p1)) => match dec_str(b.skip(p1)) {
            Some((ty, p2)) => Some((FunctionArgumentMetadataView { name, ty }, p1 + p2)),
            None => None,
        },
        None => None,
    }
}

pub open spec fn dec_args_seq(b: Seq<u8>, cnt: nat) -> Option<
    (Seq<FunctionArgumentMetadataView>, int),
>
    decreases cnt,
{
    if cnt == 0 {
        Some((Seq::empty(), 0))
    } else {
        match dec_arg(b) {
            Some((a, n)) => match dec_args_seq(b.skip(n), (cnt - 1) as nat) {
                Some((xs, q)) => Some((seq![a] + xs, n + q)),
                None => None,
            },
            None => None,
        }
    }
}

#[verifier::opaque]
pub open spec fn dec_function(b: Seq<u8>) -> Option<(FunctionMetadataView, int)> {
    match dec_str(b) {
        Some((name, p1)) => match dec_compact(b.skip(p1)) {
            Some((n, p2)) => match dec_args_seq(b.skip(p1 + p2), n) {
                Some((arguments, p3)) => match dec_strs(b.skip(p1 + p2 + p3)) {
                    Some((documentation, p4)) => Some(
                        (
                            FunctionMetadataView { name, arguments, documentation },
                            p1 + p2 + p3 + p4,
                        ),
                    ),
                    None => None,
                },
                None => None,
            },
            None => None,
        },
        None => None,
    }
}

pub open spec fn dec_functions_seq(b: Seq<u8>, cnt: nat) -> Option<(Seq<FunctionMetadataView>, int)>
    decreases cnt,
{
    if cnt == 0 {
        Some((Seq::empty(), 0))
    } else {
        match dec_function(b) {
            Some((f, n)) => match dec_functions_seq(b.skip(n), (cnt - 1) as nat) {
                Some((xs, q)) => Some((seq![f] + xs, n + q)),
                None => None,
            },
            None => None,
        }
    }
}

#[verifier::opaque]
pub open spec fn dec_event(b: Seq<u8>) -> Option<(EventMetadataView, int)> {
    match dec_str(b) {
        Some((name, p1)) => match dec_strs(b.skip(p1)) {
            Some((arguments, p2)) => match dec_strs(b.skip(p1 + p2)) {
                Some((documentation, p3)) => Some(
                    (EventMetadataView { name, arguments, documentation }, p1 + p2 + p3),
                ),
                None => None,
            },
            None => None,
        },
        None => None,
    }
}

pub open spec fn dec_events_seq(b: Seq<u8>, cnt: nat) -> Option<(Seq<EventMetadataView>, int)>
    decreases cnt,
{
    if cnt == 0 {
        Some((Seq::empty(), 0))
    } else {
        match dec_event(b) {
            Some((e, n)) => match dec_events_seq(b.skip(n), (cnt - 1) as nat) {
                Some((xs, q)) => Some((seq![e] + xs, n + q)),
                None => None,
            },
            None => None,
        }
    }
}

pub open spec fn dec_hasher(b: Seq<u8>) -> Option<(StorageHasher, int)> {
    if b.len() == 0 {
        None
    } else if b[0] == 0 {
        Some((StorageHasher::Blake2_128, 1))
    } else if b[0] == 1 {
        Some((StorageHasher::Blake2_256, 1))
    } else if b[0] == 2 {
        Some((StorageHasher::Twox128, 1))
    } else if b[0] == 3 {
        Some((StorageHasher::Twox256, 1))
    } else if b[0] == 4 {
        Some((StorageHasher::Twox64Concat, 1))
    } else {
        None
    }
}

pub open spec fn dec_modifier(b: Seq<u8>) -> Option<(StorageEntryModifier, int)> {
    if b.len() == 0 {
        None
    } else if b[0] == 0 {
        Some((StorageEntryModifier::Optional, 1))
    } else if b[0] == 1 {
        Some((StorageEntryModifier::Default, 1))
    } else {
        None
    }
}

#[verifier::opaque]
pub open spec fn dec_storage_type(b: Seq<u8>) -> Option<(StorageEntryTypeView, int)> {
    if b.len() == 0 {
        None
    } else if b[0] == 0 {
        match dec_str(b.drop_first()) {
            Some((ty, p)) => Some((StorageEntryTypeView::Plain(ty), 1 + p)),
            None => None,
        }
    } else if b[0] == 1 {
        match dec_hasher(b.drop_first()) {
            Some((hasher, p1)) => match dec_str(b.skip(1 + p1)) {
                Some((key, p2)) => match dec_str(b.skip(1 + p1 + p2)) {
                    Some((value, p3)) => match dec_bool(b.skip(1 + p1 + p2 + p3)) {
                        Some((is_linked, p4)) => Some(
                            (
                                StorageEntryTypeView::SingleMap { hasher, key, value, is_linked },
                                1 + p1 + p2 + p3 + p4,
                            ),
                        ),
                        None => None,
                    },
                    None => None,
                },
                None => None,
            },
            None => None,
        }
    } else if b[0] == 2 {
        match dec_hasher(b.drop_first()) {
            Some((hasher, p1)) => match dec_str(b.skip(1 + p1)) {
                Some((key1, p2)) => match dec_str(b.skip(1 + p1 + p2)) {
                    Some((key2, p3)) => match dec_str(b.skip(1 + p1 + p2 + p3)) {
                        Some((value, p4)) => match dec_hasher(b.skip(1 + p1 + p2 + p3 + p4)) {
                            Some((key2_hasher, p5)) => Some(
                                (
                                    StorageEntryTypeView::DoubleMap {
                                        hasher,
                                        key1,
                                        key2,
                                        value,
                                        key2_hasher,
                                    },
                                    1 + p1 + p2 + p3 + p4 + p5,
                                ),
                            ),
                            None => None,
                        },
                        None => None,
                    },
                    None => None,
                },
                None => None,
            },
            None => None,
        }
    } else {
        None
    }
}

#[verifier::opaque]
pub open spec fn dec_entry(b: Seq<u8>) -> Option<(StorageEntryMetadataView, int)> {
    match dec_str(b) {
        Some((name, p1)) => match dec_modifier(b.skip(p1)) {
            Some((modifier, p2)) => match dec_storage_type(b.skip(p1 + p2)) {
                Some((ty, p3)) => match dec_bytes(b.skip(p1 + p2 + p3)) {
                    Some((default, p4)) => match dec_strs(b.skip(p1 + p2 + p3 + p4)) {
                        Some((documentation, p5)) => Some(
                            (
                                StorageEntryMetadataView {
                                    name,
                                    modifier,
                                    ty,
                                    default,
                                    documentation,
                                },
                                p1 + p2 + p3 + p4 + p5,
                            ),
                        ),
                        None => None,
                    },
                    None => None,
                },
                None => None,
            },
            None => None,
        },
        None => None,
    }
}

pub open spec fn dec_entries_seq(b: Seq<u8>, cnt: nat) -> Option<
    (Seq<StorageEntryMetadataView>, int),
>
    decreases cnt,
{
    if cnt == 0 {
        Some((Seq::empty(), 0))
    } else {
        match dec_entry(b) {
            Some((e, n)) => match dec_entries_seq(b.skip(n), (cnt - 1) as nat) {
                Some((xs, q)) => Some((seq![e] + xs, n + q)),
                None => None,
            },
            None => None,
        }
    }
}

#[verifier::opaque]
pub open spec fn dec_constant(b: Seq<u8>) -> Option<(ModuleConstantMetadataView, int)> {
    match dec_str(b) {
        Some((name, p1)) => match dec_str(b.skip(p1)) {
            Some((ty, p2)) => match dec_bytes(b.skip(p1 + p2)) {
                Some((value, p3)) => match dec_strs(b.skip(p1 + p2 + p3)) {
                    Some((documentation, p4)) => Some(
                        (
                            ModuleConstantMetadataView { name, ty, value, documentation },
                            p1 + p2 + p3 + p4,
                        ),
                    ),
                    None => None,
                },
                None => None,
            },
            None => None,
        },
        None => None,
    }
}

pub open spec fn dec_constants_seq(b: Seq<u8>, cnt: nat) -> Option<
    (Seq<ModuleConstantMetadataView>, int),
>
    decreases cnt,
{
    if cnt == 0 {
        Some((Seq::empty(), 0))
    } else {
        match dec_constant(b) {
            Some((c, n)) => match dec_constants_seq(b.skip(n), (cnt - 1) as nat) {
                Some((xs, q)) => Some((seq![c] + xs, n + q)),
                None => None,
            },
            None => None,
        }
    }
}

#[verifier::opaque]
pub open spec fn dec_error(b: Seq<u8>) -> Option<(ErrorMetadataView, int)> {
    match dec_str(b) {
        Some((name, p1)) => match dec_strs(b.skip(p1)) {
            Some((documentation, p2)) => Some(
                (ErrorMetadataView { name, documentation }, p1 + p2),
            ),
            None => None,
        },
        None => None,
    }
}

pub open spec fn dec_errors_seq(b: Seq<u8>, cnt: nat) -> Option<(Seq<ErrorMetadataView>, int)>
    decreases cnt,
{
    if cnt == 0 {
        Some((Seq::empty(), 0))
    } else {
        match dec_error(b) {
            Some((e, n)) => match dec_errors_seq(b.skip(n), (cnt - 1) as nat) {
                Some((xs, q)) => Some((seq![e] + xs, n + q)),
                None => None,
            },
            None => None,
        }
    }
}

#[verifier::opaque]
pub open spec fn dec_storage(b: Seq<u8>) -> Option<(StorageMetadataView, int)> {
    match dec_str(b) {
        Some((prefix, p1)) => match dec_compact(b.skip(p1)) {
            Some((n, p2)) => match dec_entries_seq(b.skip(p1 + p2), n) {
                Some((entries, p3)) => Some(
                    (StorageMetadataView { prefix, entries }, p1 + p2 + p3),
                ),
                None => None,
            },
            None => None,
        },
        None => None,
    }
}

pub open spec fn dec_opt_storage(b: Seq<u8>) -> Option<(Option<StorageMetadataView>, int)> {
    if b.len() == 0 {
        None
    } else if b[0] == 0 {
        Some((None, 1))
    } else if b[0] == 1 {
        match dec_storage(b.drop_first()) {
            Some((s, p)) => Some((Some(s), 1 + p)),
            None => None,
        }
    } else {
        None
    }
}

pub open spec fn dec_opt_functions(b: Seq<u8>) -> Option<(Option<Seq<FunctionMetadataView>>, int)> {
    if b.len() == 0 {
        None
    } else if b[0] == 0 {
        Some((None, 1))
    } else if b[0] == 1 {
        match dec_compact(b.drop_first()) {
            Some((n, p1)) => match dec_functions_seq(b.skip(1 + p1), n) {
                Some((fs, p2)) => Some((Some(fs), 1 + p1 + p2)),
                None => None,
            },
            None => None,
        }
    } else {
        None
    }
}

pub open spec fn dec_opt_events(b: Seq<u8>) -> Option<(Option<Seq<EventMetadataView>>, int)> {
    if b.len() == 0 {
        None
    } else if b[0] == 0 {
        Some((None, 1))
    } else if b[0] == 1 {
        match dec_compact(b.drop_first()) {
            Some((n, p1)) => match dec_events_seq(b.skip(1 + p1), n) {
                Some((es, p2)) => Some((Some(es), 1 + p1 + p2)),
                None => None,
            },
            None => None,
        }
    } else {
        None
    }
}

#[verifier::opaque]
pub open spec fn dec_module(b: Seq<u8>) -> Option<(ModuleMetadataView, int)> {
    match dec_str(b) {
        Some((name, p1)) => match dec_opt_storage(b.skip(p1)) {
            Some((storage, p2)) => match dec_opt_functions(b.skip(p1 + p2)) {
                Some((calls, p3)) => match dec_opt_events(b.skip(p1 + p2 + p3)) {
                    Some((event, p4)) => match dec_module_tail(b.skip(p1 + p2 + p3 + p4)) {
                        Some(((constants, errors), p5)) => Some(
                            (
                                ModuleMetadataView { name, storage, calls, event, constants, errors },
                                p1 + p2 + p3 + p4 + p5,
                            ),
                        ),
                        None => None,
                    },
                    None => None,
                },
                None => None,
            },
            None => None,
        },
        None => None,
    }
}

pub open spec fn dec_modules_seq(b: Seq<u8>, cnt: nat) -> Option<(Seq<ModuleMetadataView>, int)>
    decreases cnt,
{
    if cnt == 0 {
        Some((Seq::empty(), 0))
    } else {
        match dec_module(b) {
            Some((m, n)) => match dec_modules_seq(b.skip(n), (cnt - 1) as nat) {
                Some((xs, q)) => Some((seq![m] + xs, n + q)),
                None => None,
            },
            None => None,
        }
    }
}

#[verifier::opaque]
pub open spec fn dec_v8(b: Seq<u8>) -> Option<(RuntimeMetadataV8View, int)> {
    match dec_compact(b) {
        Some((n, p1)) => match dec_modules_seq(b.skip(p1), n) {
            Some((modules, p2)) => Some((RuntimeMetadataV8View { modules }, p1 + p2)),
            None => None,
        },
        None => None,
    }
}

/// A version discriminant of 0–7 never parses: those generations are
/// permanently unsupported. Only 8 yields a value.
pub open spec fn dec_runtime(b: Seq<u8>) -> Option<(RuntimeMetadataView, int)> {
    if b.len() == 0 {
        None
    } else if b[0] == 8 {
        match dec_v8(b.drop_first()) {
            Some((v, p)) => Some((RuntimeMetadataView::V8(v), 1 + p)),
            None => None,
        }
    } else {
        None
    }
}

/// The magic is validated before the version discriminant is interpreted.
pub open spec fn dec_prefixed(b: Seq<u8>) -> Option<(RuntimeMetadataPrefixedView, int)> {
    if b.len() < 4 {
        None
    } else if le_val(b.subrange(0, 4)) != META_RESERVED {
        None
    } else {
        match dec_runtime(b.skip(4)) {
            Some((meta, p)) => Some(
                (RuntimeMetadataPrefixedView { magic: META_RESERVED, meta }, 4 + p),
            ),
            None => None,
        }
    }
}

// ---------------------------------------------------------------------------
// Dual-representation transparency: encoding sees only effective content.
// ---------------------------------------------------------------------------

/// A schema string field built from a descriptor and one built from the
/// equivalent materialized data encode to identical bytes and compare equal.
pub proof fn lemma_dual_representation_transparency(a: DecodeDifferentStr, b: DecodeDifferentStr)
    requires
        a.effective()@ == b.effective()@,
    ensures
        enc_str(str_cell_view(a)) == enc_str(str_cell_view(b)),
{
}

/// The same transparency for a default-value byte field.
pub proof fn lemma_byte_cell_transparency(a: ByteGetter, b: ByteGetter)
    requires
        a.effective()@ == b.effective()@,
    ensures
        enc_bytes(a.effective()@) == enc_bytes(b.effective()@),
{
}

// ---------------------------------------------------------------------------
// Executable encoding and decoding.
// ---------------------------------------------------------------------------

/// Appends the wire form of one string.
#[verifier::rlimit(80)]
fn encode_str_item(s: &String, out: &mut Vec<u8>) -> (ok: bool)
    ensures
        ok == wf_str(s@),
        ok ==> final(out)@ == old(out)@ + enc_str(s@),
{
    if (s.as_str().as_bytes().len() as u64) < 0x1_0000_0000u64 {
        put_str(out, s);
        true
    } else {
        false
    }
}

/// Reads one string; wrapper aligning `get_str` with the list templates.
#[verifier::rlimit(80)]
fn decode_str_item(data: &[u8], pos: usize) -> (r: Result<(String, usize), DecodeError>)
    requires
        pos <= data@.len(),
    ensures
        match r {
            Ok((s, q)) => {
                &&& pos <= q <= data@.len()
                &&& dec_str(data@.subrange(pos as int, data@.len() as int)) == Some(
                    (s@, (q - pos) as int),
                )
            },
            Err(_) => dec_str(data@.subrange(pos as int, data@.len() as int)) is None,
        },
{
    get_str(data, pos)
}

/// Appends the wire form of a string cell (effective content only).
#[verifier::rlimit(80)]
fn encode_str_cell(c: &DecodeDifferentStr, out: &mut Vec<u8>) -> (ok: bool)
    ensures
        ok == wf_str(str_cell_view(*c)),
        ok ==> final(out)@ == old(out)@ + enc_str(str_cell_view(*c)),
{
    let s = c.get();
    encode_str_item(s, out)
}

/// Appends the wire form of a byte cell (effective content only).
#[verifier::rlimit(80)]
fn encode_bytes_cell(c: &ByteGetter, out: &mut Vec<u8>) -> (ok: bool)
    ensures
        ok == wf_bytes(c.effective()@),
        ok ==> final(out)@ == old(out)@ + enc_bytes(c.effective()@),
{
    proof {
        reveal(enc_bytes);
    }
    let b = c.get();
    if (b.len() as u64) < 0x1_0000_0000u64 {
        put_compact(out, b.len() as u32);
        put_bytes(out, b.as_slice());
        assert(out@ =~= old(out)@ + enc_bytes(c.effective()@));
        true
    } else {
        false
    }
}

/// Reads a compact-prefixed byte run.
#[verifier::rlimit(80)]
fn decode_bytes_at(data: &[u8], pos: usize) -> (r: Result<(Vec<u8>, usize), DecodeError>)
    requires
        pos <= data@.len(),
    ensures
        match r {
            Ok((b, q)) => {
                &&& pos <= q <= data@.len()
                &&& dec_bytes(data@.subrange(pos as int, data@.len() as int)) == Some(
                    (b@, (q - pos) as int),
                )
            },
            Err(_) => dec_bytes(data@.subrange(pos as int, data@.len() as int)) is None,
        },
{
    proof {
        reveal(dec_bytes);
    }
    let ghost tail = data@.subrange(pos as int, data@.len() as int);
    let (n, p) = match get_compact(data, pos) {
        Ok(x) => x,
        Err(e) => {
            return Err(e);
        },
    };
    let n_usize = n as usize;
    if n_usize > data.len() - p {
        return Err(DecodeError::Truncated);
    }
    let sub = vstd::slice::slice_subrange(data, p, p + n_usize);
    let b = vstd::slice::slice_to_vec(sub);
    proof {
        assert(tail.subrange(p - pos, p - pos + n) =~= data@.subrange(p as int, p + n));
    }
    Ok((b, p + n_usize))
}

/// Appends the wire forms of the items from position `i` on.
#[verifier::rlimit(80)]
fn encode_strs_from(v: &Vec<String>, i: usize, out: &mut Vec<u8>) -> (ok: bool)
    requires
        i <= v@.len(),
    ensures
        ok == (forall|j: int| i <= j < v@.len() ==> wf_str(#[trigger] strs_view(v@)[j])),
        ok ==> final(out)@ == old(out)@ + enc_strs_seq(strs_view(v@).skip(i as int)),
    decreases v@.len() - i,
{
    if i == v.len() {
        assert(strs_view(v@).skip(i as int) =~= Seq::<Seq<char>>::empty());
        assert(out@ =~= old(out)@ + enc_strs_seq(strs_view(v@).skip(i as int)));
        true
    } else {
        proof {
            assert(strs_view(v@).skip(i as int)[0] == v@[i as int]@);
            assert(strs_view(v@)[i as int] == v@[i as int]@);
            assert(strs_view(v@).skip(i as int).drop_first() =~= strs_view(v@).skip(i + 1));
        }
        let ok1 = encode_str_item(&v[i], out);
        if !ok1 {
            return false;
        }
        let ok = encode_strs_from(v, i + 1, out);
        proof {
            if ok {
                assert(out@ =~= old(out)@ + enc_strs_seq(strs_view(v@).skip(i as int)));
            }
        }
        ok
    }
}

/// Reads `cnt` items, appending them to `vals`.
#[verifier::rlimit(80)]
fn decode_strs_from(cnt: u32, data: &[u8], pos: usize, vals: &mut Vec<String>) -> (r: Result<
    usize,
    DecodeError,
>)
    requires
        pos <= data@.len(),
    ensures
        match r {
            Ok(q) => {
                &&& pos <= q <= data@.len()
                &&& final(vals)@.len() >= old(vals)@.len()
                &&& final(vals)@.take(old(vals)@.len() as int) == old(vals)@
                &&& dec_strs_seq(
                    data@.subrange(pos as int, data@.len() as int),
                    cnt as nat,
                ) == Some(
                    (
                        strs_view(final(vals)@.skip(old(vals)@.len() as int)),
                        (q - pos) as int,
                    ),
                )
            },
            Err(_) => dec_strs_seq(
                data@.subrange(pos as int, data@.len() as int),
                cnt as nat,
            ) is None,
        },
    decreases cnt,
{
    let ghost tail = data@.subrange(pos as int, data@.len() as int);
    if cnt == 0 {
        proof {
            assert(vals@.take(vals@.len() as int) =~= vals@);
            assert(strs_view(vals@.skip(vals@.len() as int)) =~= Seq::<Seq<char>>::empty());
        }
        Ok(pos)
    } else {
        let (v0, q1) = match decode_str_item(data, pos) {
            Ok(x) => x,
            Err(e) => {
                return Err(e);
            },
        };
        vals.push(v0);
        let ghost mid = vals@;
        proof {
            assert(tail.skip(q1 - pos) =~= data@.subrange(q1 as int, data@.len() as int));
        }
        match decode_strs_from(cnt - 1, data, q1, vals) {
            Ok(q) => {
                proof {
                    let oldlen = old(vals)@.len() as int;
                    assert(vals@.take(mid.len() as int)[oldlen] == vals@[oldlen]);
                    assert(vals@[oldlen] == mid[oldlen]);
                    assert(vals@.take(oldlen) =~= mid.take(oldlen));
                    assert(mid.take(oldlen) =~= old(vals)@);
                    assert(strs_view(vals@.skip(oldlen)) =~= seq![mid[oldlen]@] + strs_view(
                        vals@.skip(oldlen + 1),
                    ));
                }
                Ok(q)
            },
            Err(e) => Err(e),
        }
    }
}

/// Appends the wire forms of the items from position `i` on.
#[verifier::rlimit(80)]
fn encode_args_from(v: &Vec<FunctionArgumentMetadata>, i: usize, out: &mut Vec<u8>) -> (ok: bool)
    requires
        i <= v@.len(),
    ensures
        ok == (forall|j: int| i <= j < v@.len() ==> wf_arg(#[trigger] args_view(v@)[j])),
        ok ==> final(out)@ == old(out)@ + enc_args_seq(args_view(v@).skip(i as int)),
    decreases v@.len() - i,
{
    if i == v.len() {
        assert(args_view(v@).skip(i as int) =~= Seq::<FunctionArgumentMetadataView>::empty());
        assert(out@ =~= old(out)@ + enc_args_seq(args_view(v@).skip(i as int)));
        true
    } else {
        proof {
            assert(args_view(v@).skip(i as int)[0] == arg_view(v@[i as int]));
            assert(args_view(v@)[i as int] == arg_view(v@[i as int]));
            assert(args_view(v@).skip(i as int).drop_first() =~= args_view(v@).skip(i + 1));
        }
        let ok1 = encode_arg(&v[i], out);
        if !ok1 {
            return false;
        }
        let ok = encode_args_from(v, i + 1, out);
        proof {
            if ok {
                assert(out@ =~= old(out)@ + enc_args_seq(args_view(v@).skip(i as int)));
            }
        }
        ok
    }
}

/// Reads `cnt` items, appending them to `vals`.
#[verifier::rlimit(80)]
fn decode_args_from(cnt: u32, data: &[u8], pos: usize, vals: &mut Vec<FunctionArgumentMetadata>) -> (r: Result<
    usize,
    DecodeError,
>)
    requires
        pos <= data@.len(),
    ensures
        match r {
            Ok(q) => {
                &&& pos <= q <= data@.len()
                &&& final(vals)@.len() >= old(vals)@.len()
                &&& final(vals)@.take(old(vals)@.len() as int) == old(vals)@
                &&& dec_args_seq(
                    data@.subrange(pos as int, data@.len() as int),
                    cnt as nat,
                ) == Some(
                    (
                        args_view(final(vals)@.skip(old(vals)@.len() as int)),
                        (q - pos) as int,
                    ),
                )
            },
            Err(_) => dec_args_seq(
                data@.subrange(pos as int, data@.len() as int),
                cnt as nat,
            ) is None,
        },
    decreases cnt,
{
    let ghost tail = data@.subrange(pos as int, data@.len() as int);
    if cnt == 0 {
        proof {
            assert(vals@.take(vals@.len() as int) =~= vals@);
            assert(args_view(vals@.skip(vals@.len() as int)) =~= Seq::<FunctionArgumentMetadataView>::empty());
        }
        Ok(pos)
    } else {
        let (v0, q1) = match decode_arg_at(data, pos) {
            Ok(x) => x,
            Err(e) => {
                return Err(e);
            },
        };
        vals.push(v0);
        let ghost mid = vals@;
        proof {
            assert(tail.skip(q1 - pos) =~= data@.subrange(q1 as int, data@.len() as int));
        }
        match decode_args_from(cnt - 1, data, q1, vals) {
            Ok(q) => {
                proof {
                    let oldlen = old(vals)@.len() as int;
                    assert(vals@.take(mid.len() as int)[oldlen] == vals@[oldlen]);
                    assert(vals@[oldlen] == mid[oldlen]);
                    assert(vals@.take(oldlen) =~= mid.take(oldlen));
                    assert(mid.take(oldlen) =~= old(vals)@);
                    assert(args_view(vals@.skip(oldlen)) =~= seq![arg_view(mid[oldlen])] + args_view(
                        vals@.skip(oldlen + 1),
                    ));
                }
                Ok(q)
            },
            Err(e) => Err(e),
        }
    }
}

/// Appends the wire forms of the items from position `i` on.
#[verifier::rlimit(80)]
fn encode_functions_from(v: &Vec<FunctionMetadata>, i: usize, out: &mut Vec<u8>) -> (ok: bool)
    requires
        i <= v@.len(),
    ensures
        ok == (forall|j: int| i <= j < v@.len() ==> wf_function(#[trigger] functions_view(v@)[j])),
        ok ==> final(out)@ == old(out)@ + enc_functions_seq(functions_view(v@).skip(i as int)),
    decreases v@.len() - i,
{
    if i == v.len() {
        assert(functions_view(v@).skip(i as int) =~= Seq::<FunctionMetadataView>::empty());
        assert(out@ =~= old(out)@ + enc_functions_seq(functions_view(v@).skip(i as int)));
        true
    } else {
        proof {
            assert(functions_view(v@).skip(i as int)[0] == function_view(v@[i as int]));
            assert(functions_view(v@)[i as int] == function_view(v@[i as int]));
            assert(functions_view(v@).skip(i as int).drop_first() =~= functions_view(v@).skip(i + 1));
        }
        let ok1 = encode_function(&v[i], out);
        if !ok1 {
            return false;
        }
        let ok = encode_functions_from(v, i + 1, out);
        proof {
            if ok {
                assert(out@ =~= old(out)@ + enc_functions_seq(functions_view(v@).skip(i as int)));
            }
        }
        ok
    }
}

/// Reads `cnt` items, appending them to `vals`.
#[verifier::rlimit(80)]
fn decode_functions_from(cnt: u32, data: &[u8], pos: usize, vals: &mut Vec<FunctionMetadata>) -> (r: Result<
    usize,
    DecodeError,
>)
    requires
        pos <= data@.len(),
    ensures
        match r {
            Ok(q) => {
                &&& pos <= q <= data@.len()
                &&& final(vals)@.len() >= old(vals)@.len()
                &&& final(vals)@.take(old(vals)@.len() as int) == old(vals)@
                &&& dec_functions_seq(
                    data@.subrange(pos as int, data@.len() as int),
                    cnt as nat,
                ) == Some(
                    (
                        functions_view(final(vals)@.skip(old(vals)@.len() as int)),
                        (q - pos) as int,
                    ),
                )
            },
            Err(_) => dec_functions_seq(
                data@.subrange(pos as int, data@.len() as int),
                cnt as nat,
            ) is None,
        },
    decreases cnt,
{
    let ghost tail = data@.subrange(pos as int, data@.len() as int);
    if cnt == 0 {
        proof {
            assert(vals@.take(vals@.len() as int) =~= vals@);
            assert(functions_view(vals@.skip(vals@.len() as int)) =~= Seq::<FunctionMetadataView>::empty());
        }
        Ok(pos)
    } else {
        let (v0, q1) = match decode_function_at(data, pos) {
            Ok(x) => x,
            Err(e) => {
                return Err(e);
            },
        };
        vals.push(v0);
        let ghost mid = vals@;
        proof {
            assert(tail.skip(q1 - pos) =~= data@.subrange(q1 as int, data@.len() as int));
        }
        match decode_functions_from(cnt - 1, data, q1, vals) {
            Ok(q) => {
                proof {
                    let oldlen = old(vals)@.len() as int;
                    assert(vals@.take(mid.len() as int)[oldlen] == vals@[oldlen]);
                    assert(vals@[oldlen] == mid[oldlen]);
                    assert(vals@.take(oldlen) =~= mid.take(oldlen));
                    assert(mid.take(oldlen) =~= old(vals)@);
                    assert(functions_view(vals@.skip(oldlen)) =~= seq![function_view(mid[oldlen])] + functions_view(
                        vals@.skip(oldlen + 1),
                    ));
                }
                Ok(q)
            },
            Err(e) => Err(e),
        }
    }
}

/// Appends the wire forms of the items from position `i` on.
#[verifier::rlimit(80)]
fn encode_events_from(v: &Vec<EventMetadata>, i: usize, out: &mut Vec<u8>) -> (ok: bool)
    requires
        i <= v@.len(),
    ensures
        ok == (forall|j: int| i <= j < v@.len() ==> wf_event(#[trigger] events_view(v@)[j])),
        ok ==> final(out)@ == old(out)@ + enc_events_seq(events_view(v@).skip(i as int)),
    decreases v@.len() - i,
{
    if i == v.len() {
        assert(events_view(v@).skip(i as int) =~= Seq::<EventMetadataView>::empty());
        assert(out@ =~= old(out)@ + enc_events_seq(events_view(v@).skip(i as int)));
        true
    } else {
        proof {
            assert(events_view(v@).skip(i as int)[0] == event_view(v@[i as int]));
            assert(events_view(v@)[i as int] == event_view(v@[i as int]));
            assert(events_view(v@).skip(i as int).drop_first() =~= events_view(v@).skip(i + 1));
        }
        let ok1 = encode_event(&v[i], out);
        if !ok1 {
            return false;
        }
        let ok = encode_events_from(v, i + 1, out);
        proof {
            if ok {
                assert(out@ =~= old(out)@ + enc_events_seq(events_view(v@).skip(i as int)));
            }
        }
        ok
    }
}

/// Reads `cnt` items, appending them to `vals`.
#[verifier::rlimit(80)]
fn decode_events_from(cnt: u32, data: &[u8], pos: usize, vals: &mut Vec<EventMetadata>) -> (r: Result<
    usize,
    DecodeError,
>)
    requires
        pos <= data@.len(),
    ensures
        match r {
            Ok(q) => {
                &&& pos <= q <= data@.len()
                &&& final(vals)@.len() >= old(vals)@.len()
                &&& final(vals)@.take(old(vals)@.len() as int) == old(vals)@
                &&& dec_events_seq(
                    data@.subrange(pos as int, data@.len() as int),
                    cnt as nat,
                ) == Some(
                    (
                        events_view(final(vals)@.skip(old(vals)@.len() as int)),
                        (q - pos) as int,
                    ),
                )
            },
            Err(_) => dec_events_seq(
                data@.subrange(pos as int, data@.len() as int),
                cnt as nat,
            ) is None,
        },
    decreases cnt,
{
    let ghost tail = data@.subrange(pos as int, data@.len() as int);
    if cnt == 0 {
        proof {
            assert(vals@.take(vals@.len() as int) =~= vals@);
            assert(events_view(vals@.skip(vals@.len() as int)) =~= Seq::<EventMetadataView>::empty());
        }
        Ok(pos)
    } else {
        let (v0, q1) = match decode_event_at(data, pos) {
            Ok(x) => x,
            Err(e) => {
                return Err(e);
            },
        };
        vals.push(v0);
        let ghost mid = vals@;
        proof {
            assert(tail.skip(q1 - pos) =~= data@.subrange(q1 as int, data@.len() as int));
        }
        match decode_events_from(cnt - 1, data, q1, vals) {
            Ok(q) => {
                proof {
                    let oldlen = old(vals)@.len() as int;
                    assert(vals@.take(mid.len() as int)[oldlen] == vals@[oldlen]);
                    assert(vals@[oldlen] == mid[oldlen]);
                    assert(vals@.take(oldlen) =~= mid.take(oldlen));
                    assert(mid.take(oldlen) =~= old(vals)@);
                    assert(events_view(vals@.skip(oldlen)) =~= seq![event_view(mid[oldlen])] + events_view(
                        vals@.skip(oldlen + 1),
                    ));
                }
                Ok(q)
            },
            Err(e) => Err(e),
        }
    }
}

/// Appends the wire forms of the items from position `i` on.
#[verifier::rlimit(80)]
fn encode_entries_from(v: &Vec<StorageEntryMetadata>, i: usize, out: &mut Vec<u8>) -> (ok: bool)
    requires
        i <= v@.len(),
    ensures
        ok == (forall|j: int| i <= j < v@.len() ==> wf_entry(#[trigger] entries_view(v@)[j])),
        ok ==> final(out)@ == old(out)@ + enc_entries_seq(entries_view(v@).skip(i as int)),
    decreases v@.len() - i,
{
    if i == v.len() {
        assert(entries_view(v@).skip(i as int) =~= Seq::<StorageEntryMetadataView>::empty());
        assert(out@ =~= old(out)@ + enc_entries_seq(entries_view(v@).skip(i as int)));
        true
    } else {
        proof {
            assert(entries_view(v@).skip(i as int)[0] == entry_view(v@[i as int]));
            assert(entries_view(v@)[i as int] == entry_view(v@[i as int]));
            assert(entries_view(v@).skip(i as int).drop_first() =~= entries_view(v@).skip(i + 1));
        }
        let ok1 = encode_entry(&v[i], out);
        if !ok1 {
            return false;
        }
        let ok = encode_entries_from(v, i + 1, out);
        proof {
            if ok {
                assert(out@ =~= old(out)@ + enc_entries_seq(entries_view(v@).skip(i as int)));
            }
        }
        ok
    }
}

/// Reads `cnt` items, appending them to `vals`.
#[verifier::rlimit(80)]
fn decode_entries_from(cnt: u32, data: &[u8], pos: usize, vals: &mut Vec<StorageEntryMetadata>) -> (r: Result<
    usize,
    DecodeError,
>)
    requires
        pos <= data@.len(),
    ensures
        match r {
            Ok(q) => {
                &&& pos <= q <= data@.len()
                &&& final(vals)@.len() >= old(vals)@.len()
                &&& final(vals)@.take(old(vals)@.len() as int) == old(vals)@
                &&& dec_entries_seq(
                    data@.subrange(pos as int, data@.len() as int),
                    cnt as nat,
                ) == Some(
                    (
                        entries_view(final(vals)@.skip(old(vals)@.len() as int)),
                        (q - pos) as int,
                    ),
                )
            },
            Err(_) => dec_entries_seq(
                data@.subrange(pos as int, data@.len() as int),
                cnt as nat,
            ) is None,
        },
    decreases cnt,
{
    let ghost tail = data@.subrange(pos as int, data@.len() as int);
    if cnt == 0 {
        proof {
            assert(vals@.take(vals@.len() as int) =~= vals@);
            assert(entries_view(vals@.skip(vals@.len() as int)) =~= Seq::<StorageEntryMetadataView>::empty());
        }
        Ok(pos)
    } else {
        let (v0, q1) = match decode_entry_at(data, pos) {
            Ok(x) => x,
            Err(e) => {
                return Err(e);
            },
        };
        vals.push(v0);
        let ghost mid = vals@;
        proof {
            assert(tail.skip(q1 - pos) =~= data@.subrange(q1 as int, data@.len() as int));
        }
        match decode_entries_from(cnt - 1, data, q1, vals) {
            Ok(q) => {
                proof {
                    let oldlen = old(vals)@.len() as int;
                    assert(vals@.take(mid.len() as int)[oldlen] == vals@[oldlen]);
                    assert(vals@[oldlen] == mid[oldlen]);
                    assert(vals@.take(oldlen) =~= mid.take(oldlen));
                    assert(mid.take(oldlen) =~= old(vals)@);
                    assert(entries_view(vals@.skip(oldlen)) =~= seq![entry_view(mid[oldlen])] + entries_view(
                        vals@.skip(oldlen + 1),
                    ));
                }
                Ok(q)
            },
            Err(e) => Err(e),
        }
    }
}

/// Appends the wire forms of the items from position `i` on.
#[verifier::rlimit(80)]
fn encode_constants_from(v: &Vec<ModuleConstantMetadata>, i: usize, out: &mut Vec<u8>) -> (ok: bool)
    requires
        i <= v@.len(),
    ensures
        ok == (forall|j: int| i <= j < v@.len() ==> wf_constant(#[trigger] constants_view(v@)[j])),
        ok ==> final(out)@ == old(out)@ + enc_constants_seq(constants_view(v@).skip(i as int)),
    decreases v@.len() - i,
{
    if i == v.len() {
        assert(constants_view(v@).skip(i as int) =~= Seq::<ModuleConstantMetadataView>::empty());
        assert(out@ =~= old(out)@ + enc_constants_seq(constants_view(v@).skip(i as int)));
        true
    } else {
        proof {
            assert(constants_view(v@).skip(i as int)[0] == constant_view(v@[i as int]));
            assert(constants_view(v@)[i as int] == constant_view(v@[i as int]));
            assert(constants_view(v@).skip(i as int).drop_first() =~= constants_view(v@).skip(i + 1));
        }
        let ok1 = encode_constant(&v[i], out);
        if !ok1 {
            return false;
        }
        let ok = encode_constants_from(v, i + 1, out);
        proof {
            if ok {
                assert(out@ =~= old(out)@ + enc_constants_seq(constants_view(v@).skip(i as int)));
            }
        }
        ok
    }
}

/// Reads `cnt` items, appending them to `vals`.
#[verifier::rlimit(80)]
fn decode_constants_from(cnt: u32, data: &[u8], pos: usize, vals: &mut Vec<ModuleConstantMetadata>) -> (r: Result<
    usize,
    DecodeError,
>)
    requires
        pos <= data@.len(),
    ensures
        match r {
            Ok(q) => {
                &&& pos <= q <= data@.len()
                &&& final(vals)@.len() >= old(vals)@.len()
                &&& final(vals)@.take(old(vals)@.len() as int) == old(vals)@
                &&& dec_constants_seq(
                    data@.subrange(pos as int, data@.len() as int),
                    cnt as nat,
                ) == Some(
                    (
                        constants_view(final(vals)@.skip(old(vals)@.len() as int)),
                        (q - pos) as int,
                    ),
                )
            },
            Err(_) => dec_constants_seq(
                data@.subrange(pos as int, data@.len() as int),
                cnt as nat,
            ) is None,
        },
    decreases cnt,
{
    let ghost tail = data@.subrange(pos as int, data@.len() as int);
    if cnt == 0 {
        proof {
            assert(vals@.take(vals@.len() as int) =~= vals@);
            assert(constants_view(vals@.skip(vals@.len() as int)) =~= Seq::<ModuleConstantMetadataView>::empty());
        }
        Ok(pos)
    } else {
        let (v0, q1) = match decode_constant_at(data, pos) {
            Ok(x) => x,
            Err(e) => {
                return Err(e);
            },
        };
        vals.push(v0);
        let ghost mid = vals@;
        proof {
            assert(tail.skip(q1 - pos) =~= data@.subrange(q1 as int, data@.len() as int));
        }
        match decode_constants_from(cnt - 1, data, q1, vals) {
            Ok(q) => {
                proof {
                    let oldlen = old(vals)@.len() as int;
                    assert(vals@.take(mid.len() as int)[oldlen] == vals@[oldlen]);
                    assert(vals@[oldlen] == mid[oldlen]);
                    assert(vals@.take(oldlen) =~= mid.take(oldlen));
                    assert(mid.take(oldlen) =~= old(vals)@);
                    assert(constants_view(vals@.skip(oldlen)) =~= seq![constant_view(mid[oldlen])] + constants_view(
                        vals@.skip(oldlen + 1),
                    ));
                }
                Ok(q)
            },
            Err(e) => Err(e),
        }
    }
}

/// Appends the wire forms of the items from position `i` on.
#[verifier::rlimit(80)]
fn encode_errors_from(v: &Vec<ErrorMetadata>, i: usize, out: &mut Vec<u8>) -> (ok: bool)
    requires
        i <= v@.len(),
    ensures
        ok == (forall|j: int| i <= j < v@.len() ==> wf_error(#[trigger] errors_view(v@)[j])),
        ok ==> final(out)@ == old(out)@ + enc_errors_seq(errors_view(v@).skip(i as int)),
    decreases v@.len() - i,
{
    if i == v.len() {
        assert(errors_view(v@).skip(i as int) =~= Seq::<ErrorMetadataView>::empty());
        assert(out@ =~= old(out)@ + enc_errors_seq(errors_view(v@).skip(i as int)));
        true
    } else {
        proof {
            assert(errors_view(v@).skip(i as int)[0] == error_view(v@[i as int]));
            assert(errors_view(v@)[i as int] == error_view(v@[i as int]));
            assert(errors_view(v@).skip(i as int).drop_first() =~= errors_view(v@).skip(i + 1));
        }
        let ok1 = encode_error(&v[i], out);
        if !ok1 {
            return false;
        }
        let ok = encode_errors_from(v, i + 1, out);
        proof {
            if ok {
                assert(out@ =~= old(out)@ + enc_errors_seq(errors_view(v@).skip(i as int)));
            }
        }
        ok
    }
}

/// Reads `cnt` items, appending them to `vals`.
#[verifier::rlimit(80)]
fn decode_errors_from(cnt: u32, data: &[u8], pos: usize, vals: &mut Vec<ErrorMetadata>) -> (r: Result<
    usize,
    DecodeError,
>)
    requires
        pos <= data@.len(),
    ensures
        match r {
            Ok(q) => {
                &&& pos <= q <= data@.len()
                &&& final(vals)@.len() >= old(vals)@.len()
                &&& final(vals)@.take(old(vals)@.len() as int) == old(vals)@
                &&& dec_errors_seq(
                    data@.subrange(pos as int, data@.len() as int),
                    cnt as nat,
                ) == Some(
                    (
                        errors_view(final(vals)@.skip(old(vals)@.len() as int)),
                        (q - pos) as int,
                    ),
                )
            },
            Err(_) => dec_errors_seq(
                data@.subrange(pos as int, data@.len() as int),
                cnt as nat,
            ) is None,
        },
    decreases cnt,
{
    let ghost tail = data@.subrange(pos as int, data@.len() as int);
    if cnt == 0 {
        proof {
            assert(vals@.take(vals@.len() as int) =~= vals@);
            assert(errors_view(vals@.skip(vals@.len() as int)) =~= Seq::<ErrorMetadataView>::empty());
        }
        Ok(pos)
    } else {
        let (v0, q1) = match decode_error_at(data, pos) {
            Ok(x) => x,
            Err(e) => {
                return Err(e);
            },
        };
        vals.push(v0);
        let ghost mid = vals@;
        proof {
            assert(tail.skip(q1 - pos) =~= data@.subrange(q1 as int, data@.len() as int));
        }
        match decode_errors_from(cnt - 1, data, q1, vals) {
            Ok(q) => {
                proof {
                    let oldlen = old(vals)@.len() as int;
                    assert(vals@.take(mid.len() as int)[oldlen] == vals@[oldlen]);
                    assert(vals@[oldlen] == mid[oldlen]);
                    assert(vals@.take(oldlen) =~= mid.take(oldlen));
                    assert(mid.take(oldlen) =~= old(vals)@);
                    assert(errors_view(vals@.skip(oldlen)) =~= seq![error_view(mid[oldlen])] + errors_view(
                        vals@.skip(oldlen + 1),
                    ));
                }
                Ok(q)
            },
            Err(e) => Err(e),
        }
    }
}

/// Appends the wire forms of the items from position `i` on.
#[verifier::rlimit(80)]
fn encode_modules_from(v: &Vec<ModuleMetadata>, i: usize, out: &mut Vec<u8>) -> (ok: bool)
    requires
        i <= v@.len(),
    ensures
        ok == (forall|j: int| i <= j < v@.len() ==> wf_module(#[trigger] modules_view(v@)[j])),
        ok ==> final(out)@ == old(out)@ + enc_modules_seq(modules_view(v@).skip(i as int)),
    decreases v@.len() - i,
{
    if i == v.len() {
        assert(modules_view(v@).skip(i as int) =~= Seq::<ModuleMetadataView>::empty());
        assert(out@ =~= old(out)@ + enc_modules_seq(modules_view(v@).skip(i as int)));
        true
    } else {
        proof {
            assert(modules_view(v@).skip(i as int)[0] == module_view(v@[i as int]));
            assert(modules_view(v@)[i as int] == module_view(v@[i as int]));
            assert(modules_view(v@).skip(i as int).drop_first() =~= modules_view(v@).skip(i + 1));
        }
        let ok1 = encode_module(&v[i], out);
        if !ok1 {
            return false;
        }
        let ok = encode_modules_from(v, i + 1, out);
        proof {
            if ok {
                assert(out@ =~= old(out)@ + enc_modules_seq(modules_view(v@).skip(i as int)));
            }
        }
        ok
    }
}

/// Reads `cnt` items, appending them to `vals`.
#[verifier::rlimit(100)]
#[verifier::spinoff_prover]
fn decode_modules_from(cnt: u32, data: &[u8], pos: usize, vals: &mut Vec<ModuleMetadata>) -> (r: Result<
    usize,
    DecodeError,
>)
    requires
        pos <= data@.len(),
    ensures
        match r {
            Ok(q) => {
                &&& pos <= q <= data@.len()
                &&& final(vals)@.len() >= old(vals)@.len()
                &&& final(vals)@.take(old(vals)@.len() as int) == old(vals)@
                &&& dec_modules_seq(
                    data@.subrange(pos as int, data@.len() as int),
                    cnt as nat,
                ) == Some(
                    (
                        modules_view(final(vals)@.skip(old(vals)@.len() as int)),
                        (q - pos) as int,
                    ),
                )
            },
            Err(_) => dec_modules_seq(
                data@.subrange(pos as int, data@.len() as int),
                cnt as nat,
            ) is None,
        },
    decreases cnt,
{
    let ghost tail = data@.subrange(pos as int, data@.len() as int);
    if cnt == 0 {
        proof {
            assert(vals@.take(vals@.len() as int) =~= vals@);
            assert(modules_view(vals@.skip(vals@.len() as int)) =~= Seq::<ModuleMetadataView>::empty());
        }
        Ok(pos)
    } else {
        let (v0, q1) = match decode_module_at(data, pos) {
            Ok(x) => x,
            Err(e) => {
                return Err(e);
            },
        };
        vals.push(v0);
        let ghost mid = vals@;
        proof {
            assert(tail.skip(q1 - pos) =~= data@.subrange(q1 as int, data@.len() as int));
        }
        match decode_modules_from(cnt - 1, data, q1, vals) {
            Ok(q) => {
                proof {
                    let oldlen = old(vals)@.len() as int;
                    assert(vals@.take(mid.len() as int)[oldlen] == vals@[oldlen]);
                    assert(vals@[oldlen] == mid[oldlen]);
                    assert(vals@.take(oldlen) =~= mid.take(oldlen));
                    assert(mid.take(oldlen) =~= old(vals)@);
                    assert(modules_view(vals@.skip(oldlen)) =~= seq![module_view(mid[oldlen])] + modules_view(
                        vals@.skip(oldlen + 1),
                    ));
                }
                Ok(q)
            },
            Err(e) => Err(e),
        }
    }
}


/// Appends the wire form of one function argument.
#[verifier::rlimit(80)]
fn encode_arg(a: &FunctionArgumentMetadata, out: &mut Vec<u8>) -> (ok: bool)
    ensures
        ok == wf_arg(arg_view(*a)),
        ok ==> final(out)@ == old(out)@ + enc_arg(arg_view(*a)),
{
    proof {
        reveal(wf_arg);
        reveal(enc_arg);
    }
    if !encode_str_cell(&a.name, out) {
        return false;
    }
    let ok = encode_str_cell(&a.ty, out);
    proof {
        if ok {
            assert(out@ =~= old(out)@ + enc_arg(arg_view(*a)));
        }
    }
    ok
}

/// Reads one function argument.
#[verifier::rlimit(80)]
fn decode_arg_at(data: &[u8], pos: usize) -> (r: Result<(FunctionArgumentMetadata, usize), DecodeError>)
    requires
        pos <= data@.len(),
    ensures
        match r {
            Ok((a, q)) => {
                &&& pos <= q <= data@.len()
                &&& dec_arg(data@.subrange(pos as int, data@.len() as int)) == Some(
                    (arg_view(a), (q - pos) as int),
                )
            },
            Err(_) => dec_arg(data@.subrange(pos as int, data@.len() as int)) is None,
        },
{
    proof {
        reveal(dec_arg);
    }
    let ghost tail = data@.subrange(pos as int, data@.len() as int);
    let (name, q1) = match get_str(data, pos) {
        Ok(x) => x,
        Err(e) => {
            return Err(e);
        },
    };
    proof {
        assert(tail.skip(q1 - pos) =~= data@.subrange(q1 as int, data@.len() as int));
    }
    let (ty, q2) = match get_str(data, q1) {
        Ok(x) => x,
        Err(e) => {
            return Err(e);
        },
    };
    Ok(
        (
            FunctionArgumentMetadata {
                name: DecodeDifferent::Decoded(name),
                ty: DecodeDifferent::Decoded(ty),
            },
            q2,
        ),
    )
}

/// Appends the wire form of the documentation or argument-name list held in
/// a string-list cell.
#[verifier::rlimit(80)]
fn encode_strs_cell(c: &DFnA<String>, out: &mut Vec<u8>) -> (ok: bool)
    ensures
        ok == wf_strs(strs_view(c.effective()@)),
        ok ==> final(out)@ == old(out)@ + enc_strs(strs_view(c.effective()@)),
{
    proof {
        reveal(wf_strs);
        reveal(enc_strs);
    }
    let v = c.get();
    if (v.len() as u64) >= 0x1_0000_0000u64 {
        return false;
    }
    put_compact(out, v.len() as u32);
    let ok = encode_strs_from(v, 0, out);
    proof {
        assert(strs_view(v@).skip(0) =~= strs_view(v@));
        if ok {
            assert(out@ =~= old(out)@ + enc_strs(strs_view(v@)));
        }
    }
    ok
}

/// Reads a compact-prefixed string list.
#[verifier::rlimit(80)]
fn decode_strs_at(data: &[u8], pos: usize) -> (r: Result<(Vec<String>, usize), DecodeError>)
    requires
        pos <= data@.len(),
    ensures
        match r {
            Ok((v, q)) => {
                &&& pos <= q <= data@.len()
                &&& dec_strs(data@.subrange(pos as int, data@.len() as int)) == Some(
                    (strs_view(v@), (q - pos) as int),
                )
            },
            Err(_) => dec_strs(data@.subrange(pos as int, data@.len() as int)) is None,
        },
{
    proof {
        reveal(dec_strs);
    }
    let ghost tail = data@.subrange(pos as int, data@.len() as int);
    let (n, p) = match get_compact(data, pos) {
        Ok(x) => x,
        Err(e) => {
            return Err(e);
        },
    };
    let mut v: Vec<String> = Vec::new();
    proof {
        assert(tail.skip(p - pos) =~= data@.subrange(p as int, data@.len() as int));
    }
    match decode_strs_from(n, data, p, &mut v) {
        Ok(q) => {
            proof {
                assert(v@.skip(0) =~= v@);
            }
            Ok((v, q))
        },
        Err(e) => Err(e),
    }
}

/// Appends the wire form of a function record.
#[verifier::rlimit(80)]
fn encode_function(f: &FunctionMetadata, out: &mut Vec<u8>) -> (ok: bool)
    ensures
        ok == wf_function(function_view(*f)),
        ok ==> final(out)@ == old(out)@ + enc_function(function_view(*f)),
{
    proof {
        reveal(wf_function);
        reveal(enc_function);
    }
    if !encode_str_cell(&f.name, out) {
        return false;
    }
    let v = f.arguments.get();
    if (v.len() as u64) >= 0x1_0000_0000u64 {
        return false;
    }
    put_compact(out, v.len() as u32);
    let ok1 = encode_args_from(v, 0, out);
    proof {
        assert(args_view(v@).skip(0) =~= args_view(v@));
    }
    if !ok1 {
        return false;
    }
    let ok = encode_strs_cell(&f.documentation, out);
    proof {
        if ok {
            assert(out@ =~= old(out)@ + enc_function(function_view(*f)));
        }
    }
    ok
}

/// Reads one function record.
#[verifier::rlimit(80)]
fn decode_function_at(data: &[u8], pos: usize) -> (r: Result<(FunctionMetadata, usize), DecodeError>)
    requires
        pos <= data@.len(),
    ensures
        match r {
            Ok((f, q)) => {
                &&& pos <= q <= data@.len()
                &&& dec_function(data@.subrange(pos as int, data@.len() as int)) == Some(
                    (function_view(f), (q - pos) as int),
                )
            },
            Err(_) => dec_function(data@.subrange(pos as int, data@.len() as int)) is None,
        },
{
    proof {
        reveal(dec_function);
    }
    let ghost tail = data@.subrange(pos as int, data@.len() as int);
    let (name, q1) = match get_str(data, pos) {
        Ok(x) => x,
        Err(e) => {
            return Err(e);
        },
    };
    proof {
        assert(tail.skip(q1 - pos) =~= data@.subrange(q1 as int, data@.len() as int));
    }
    let (nargs, q2) = match get_compact(data, q1) {
        Ok(x) => x,
        Err(e) => {
            return Err(e);
        },
    };
    let mut argsv: Vec<FunctionArgumentMetadata> = Vec::new();
    proof {
        assert(tail.skip(q2 - pos) =~= data@.subrange(q2 as int, data@.len() as int));
    }
    let q3 = match decode_args_from(nargs, data, q2, &mut argsv) {
        Ok(x) => x,
        Err(e) => {
            return Err(e);
        },
    };
    proof {
        assert(tail.skip(q3 - pos) =~= data@.subrange(q3 as int, data@.len() as int));
        assert(argsv@.skip(0) =~= argsv@);
    }
    let (docs, q4) = match decode_strs_at(data, q3) {
        Ok(x) => x,
        Err(e) => {
            return Err(e);
        },
    };
    Ok(
        (
            FunctionMetadata {
                name: DecodeDifferent::Decoded(name),
                arguments: DecodeDifferent::Decoded(argsv),
                documentation: DecodeDifferent::Decoded(docs),
            },
            q4,
        ),
    )
}

/// Appends the wire form of an event record.
#[verifier::rlimit(80)]
fn encode_event(e: &EventMetadata, out: &mut Vec<u8>) -> (ok: bool)
    ensures
        ok == wf_event(event_view(*e)),
        ok ==> final(out)@ == old(out)@ + enc_event(event_view(*e)),
{
    proof {
        reveal(wf_event);
        reveal(enc_event);
    }
    if !encode_str_cell(&e.name, out) {
        return false;
    }
    if !encode_strs_cell(&e.arguments, out) {
        return false;
    }
    let ok = encode_strs_cell(&e.documentation, out);
    proof {
        if ok {
            assert(out@ =~= old(out)@ + enc_event(event_view(*e)));
        }
    }
    ok
}

/// Reads one event record.
#[verifier::rlimit(80)]
fn decode_event_at(data: &[u8], pos: usize) -> (r: Result<(EventMetadata, usize), DecodeError>)
    requires
        pos <= data@.len(),
    ensures
        match r {
            Ok((e, q)) => {
                &&& pos <= q <= data@.len()
                &&& dec_event(data@.subrange(pos as int, data@.len() as int)) == Some(
                    (event_view(e), (q - pos) as int),
                )
            },
            Err(_) => dec_event(data@.subrange(pos as int, data@.len() as int)) is None,
        },
{
    proof {
        reveal(dec_event);
    }
    let ghost tail = data@.subrange(pos as int, data@.len() as int);
    let (name, q1) = match get_str(data, pos) {
        Ok(x) => x,
        Err(e) => {
            return Err(e);
        },
    };
    proof {
        assert(tail.skip(q1 - pos) =~= data@.subrange(q1 as int, data@.len() as int));
    }
    let (arguments, q2) = match decode_strs_at(data, q1) {
        Ok(x) => x,
        Err(e) => {
            return Err(e);
        },
    };
    proof {
        assert(tail.skip(q2 - pos) =~= data@.subrange(q2 as int, data@.len() as int));
    }
    let (docs, q3) = match decode_strs_at(data, q2) {
        Ok(x) => x,
        Err(e) => {
            return Err(e);
        },
    };
    Ok(
        (
            EventMetadata {
                name: DecodeDifferent::Decoded(name),
                arguments: DecodeDifferent::Decoded(arguments),
                documentation: DecodeDifferent::Decoded(docs),
            },
            q3,
        ),
    )
}

/// Appends a hasher selection byte.
#[verifier::rlimit(80)]
fn encode_hasher(h: &StorageHasher, out: &mut Vec<u8>)
    ensures
        final(out)@ == old(out)@ + enc_hasher(*h),
{
    match h {
        StorageHasher::Blake2_128 => out.push(0u8),
        StorageHasher::Blake2_256 => out.push(1u8),
        StorageHasher::Twox128 => out.push(2u8),
        StorageHasher::Twox256 => out.push(3u8),
        StorageHasher::Twox64Concat => out.push(4u8),
    }
    assert(out@ =~= old(out)@ + enc_hasher(*h));
}

/// Reads a hasher selection byte.
#[verifier::rlimit(80)]
fn decode_hasher_at(data: &[u8], pos: usize) -> (r: Result<(StorageHasher, usize), DecodeError>)
    requires
        pos <= data@.len(),
    ensures
        match r {
            Ok((h, q)) => {
                &&& pos <= q <= data@.len()
                &&& dec_hasher(data@.subrange(pos as int, data@.len() as int)) == Some(
                    (h, (q - pos) as int),
                )
            },
            Err(_) => dec_hasher(data@.subrange(pos as int, data@.len() as int)) is None,
        },
{
    if pos >= data.len() {
        return Err(DecodeError::Truncated);
    }
    let b = data[pos];
    proof {
        assert(data@.subrange(pos as int, data@.len() as int)[0] == b);
    }
    if b == 0 {
        Ok((StorageHasher::Blake2_128, pos + 1))
    } else if b == 1 {
        Ok((StorageHasher::Blake2_256, pos + 1))
    } else if b == 2 {
        Ok((StorageHasher::Twox128, pos + 1))
    } else if b == 3 {
        Ok((StorageHasher::Twox256, pos + 1))
    } else if b == 4 {
        Ok((StorageHasher::Twox64Concat, pos + 1))
    } else {
        Err(DecodeError::Malformed)
    }
}

/// Appends a storage entry modifier byte.
#[verifier::rlimit(80)]
fn encode_modifier(m: &StorageEntryModifier, out: &mut Vec<u8>)
    ensures
        final(out)@ == old(out)@ + enc_modifier(*m),
{
    match m {
        StorageEntryModifier::Optional => out.push(0u8),
        StorageEntryModifier::Default => out.push(1u8),
    }
    assert(out@ =~= old(out)@ + enc_modifier(*m));
}

/// Reads a storage entry modifier byte.
#[verifier::rlimit(80)]
fn decode_modifier_at(data: &[u8], pos: usize) -> (r: Result<(StorageEntryModifier, usize), DecodeError>)
    requires
        pos <= data@.len(),
    ensures
        match r {
            Ok((m, q)) => {
                &&& pos <= q <= data@.len()
                &&& dec_modifier(data@.subrange(pos as int, data@.len() as int)) == Some(
                    (m, (q - pos) as int),
                )
            },
            Err(_) => dec_modifier(data@.subrange(pos as int, data@.len() as int)) is None,
        },
{
    if pos >= data.len() {
        return Err(DecodeError::Truncated);
    }
    let b = data[pos];
    proof {
        assert(data@.subrange(pos as int, data@.len() as int)[0] == b);
    }
    if b == 0 {
        Ok((StorageEntryModifier::Optional, pos + 1))
    } else if b == 1 {
        Ok((StorageEntryModifier::Default, pos + 1))
    } else {
        Err(DecodeError::Malformed)
    }
}

/// Appends the wire form of a storage entry's shape.
#[verifier::rlimit(80)]
fn encode_storage_type(t: &StorageEntryType, out: &mut Vec<u8>) -> (ok: bool)
    ensures
        ok == wf_storage_type(storage_type_view(*t)),
        ok ==> final(out)@ == old(out)@ + enc_storage_type(storage_type_view(*t)),
{
    proof {
        reveal(wf_storage_type);
        reveal(enc_storage_type);
    }
    match t {
        StorageEntryType::Plain(ty) => {
            out.push(0u8);
            let ok = encode_str_cell(ty, out);
            proof {
                if ok {
                    assert(out@ =~= old(out)@ + enc_storage_type(storage_type_view(*t)));
                }
            }
            ok
        },
        StorageEntryType::SingleMap { hasher, key, value, is_linked } => {
            out.push(1u8);
            encode_hasher(hasher, out);
            if !encode_str_cell(key, out) {
                return false;
            }
            if !encode_str_cell(value, out) {
                return false;
            }
            put_bool(out, *is_linked);
            proof {
                assert(out@ =~= old(out)@ + enc_storage_type(storage_type_view(*t)));
            }
            true
        },
        StorageEntryType::DoubleMap { hasher, key1, key2, value, key2_hasher } => {
            out.push(2u8);
            encode_hasher(hasher, out);
            if !encode_str_cell(key1, out) {
                return false;
            }
            if !encode_str_cell(key2, out) {
                return false;
            }
            if !encode_str_cell(value, out) {
                return false;
            }
            encode_hasher(key2_hasher, out);
            proof {
                assert(out@ =~= old(out)@ + enc_storage_type(storage_type_view(*t)));
            }
            true
        },
    }
}

/// Reads a storage entry's shape.
#[verifier::rlimit(100)]
#[verifier::spinoff_prover]
fn decode_storage_type_at(data: &[u8], pos: usize) -> (r: Result<(StorageEntryType, usize), DecodeError>)
    requires
        pos <= data@.len(),
    ensures
        match r {
            Ok((t, q)) => {
                &&& pos <= q <= data@.len()
                &&& dec_storage_type(data@.subrange(pos as int, data@.len() as int)) == Some(
                    (storage_type_view(t), (q - pos) as int),
                )
            },
            Err(_) => dec_storage_type(data@.subrange(pos as int, data@.len() as int)) is None,
        },
{
    proof {
        reveal(dec_storage_type);
    }
    let ghost tail = data@.subrange(pos as int, data@.len() as int);
    if pos >= data.len() {
        return Err(DecodeError::Truncated);
    }
    let b = data[pos];
    proof {
        assert(tail[0] == b);
        assert(tail.drop_first() =~= data@.subrange(pos + 1, data@.len() as int));
    }
    if b == 0 {
        let (ty, q) = match get_str(data, pos + 1) {
            Ok(x) => x,
            Err(e) => {
                return Err(e);
            },
        };
        Ok((StorageEntryType::Plain(DecodeDifferent::Decoded(ty)), q))
    } else if b == 1 {
        let (hasher, q1) = match decode_hasher_at(data, pos + 1) {
            Ok(x) => x,
            Err(e) => {
                return Err(e);
            },
        };
        proof {
            assert(tail.skip(q1 - pos) =~= data@.subrange(q1 as int, data@.len() as int));
        }
        let (key, q2) = match get_str(data, q1) {
            Ok(x) => x,
            Err(e) => {
                return Err(e);
            },
        };
        proof {
            assert(tail.skip(q2 - pos) =~= data@.subrange(q2 as int, data@.len() as int));
        }
        let (value, q3) = match get_str(data, q2) {
            Ok(x) => x,
            Err(e) => {
                return Err(e);
            },
        };
        proof {
            assert(tail.skip(q3 - pos) =~= data@.subrange(q3 as int, data@.len() as int));
        }
        let (is_linked, q4) = match get_bool(data, q3) {
            Ok(x) => x,
            Err(e) => {
                return Err(e);
            },
        };
        Ok(
            (
                StorageEntryType::SingleMap {
                    hasher,
                    key: DecodeDifferent::Decoded(key),
                    value: DecodeDifferent::Decoded(value),
                    is_linked,
                },
                q4,
            ),
        )
    } else if b == 2 {
        let (hasher, q1) = match decode_hasher_at(data, pos + 1) {
            Ok(x) => x,
            Err(e) => {
                return Err(e);
            },
        };
        proof {
            assert(tail.skip(q1 - pos) =~= data@.subrange(q1 as int, data@.len() as int));
        }
        let (key1, q2) = match get_str(data, q1) {
            Ok(x) => x,
            Err(e) => {
                return Err(e);
            },
        };
        proof {
            assert(tail.skip(q2 - pos) =~= data@.subrange(q2 as int, data@.len() as int));
        }
        let (key2, q3) = match get_str(data, q2) {
            Ok(x) => x,
            Err(e) => {
                return Err(e);
            },
        };
        proof {
            assert(tail.skip(q3 - pos) =~= data@.subrange(q3 as int, data@.len() as int));
        }
        let (value, q4) = match get_str(data, q3) {
            Ok(x) => x,
            Err(e) => {
                return Err(e);
            },
        };
        proof {
            assert(tail.skip(q4 - pos) =~= data@.subrange(q4 as int, data@.len() as int));
        }
        let (key2_hasher, q5) = match decode_hasher_at(data, q4) {
            Ok(x) => x,
            Err(e) => {
                return Err(e);
            },
        };
        Ok(
            (
                StorageEntryType::DoubleMap {
                    hasher,
                    key1: DecodeDifferent::Decoded(key1),
                    key2: DecodeDifferent::Decoded(key2),
                    value: DecodeDifferent::Decoded(value),
                    key2_hasher,
                },
                q5,
            ),
        )
    } else {
        Err(DecodeError::Malformed)
    }
}

/// Appends the wire form of a storage entry record.
#[verifier::rlimit(80)]
fn encode_entry(e: &StorageEntryMetadata, out: &mut Vec<u8>) -> (ok: bool)
    ensures
        ok == wf_entry(entry_view(*e)),
        ok ==> final(out)@ == old(out)@ + enc_entry(entry_view(*e)),
{
    proof {
        reveal(wf_entry);
        reveal(enc_entry);
    }
    if !encode_str_cell(&e.name, out) {
        return false;
    }
    encode_modifier(&e.modifier, out);
    if !encode_storage_type(&e.ty, out) {
        return false;
    }
    if !encode_bytes_cell(&e.default, out) {
        return false;
    }
    let ok = encode_strs_cell(&e.documentation, out);
    proof {
        if ok {
            assert(out@ =~= old(out)@ + enc_entry(entry_view(*e)));
        }
    }
    ok
}

/// Reads one storage entry record.
#[verifier::rlimit(80)]
fn decode_entry_at(data: &[u8], pos: usize) -> (r: Result<(StorageEntryMetadata, usize), DecodeError>)
    requires
        pos <= data@.len(),
    ensures
        match r {
            Ok((e, q)) => {
                &&& pos <= q <= data@.len()
                &&& dec_entry(data@.subrange(pos as int, data@.len() as int)) == Some(
                    (entry_view(e), (q - pos) as int),
                )
            },
            Err(_) => dec_entry(data@.subrange(pos as int, data@.len() as int)) is None,
        },
{
    proof {
        reveal(dec_entry);
    }
    let ghost tail = data@.subrange(pos as int, data@.len() as int);
    let (name, q1) = match get_str(data, pos) {
        Ok(x) => x,
        Err(e) => {
            return Err(e);
        },
    };
    proof {
        assert(tail.skip(q1 - pos) =~= data@.subrange(q1 as int, data@.len() as int));
    }
    let (modifier, q2) = match decode_modifier_at(data, q1) {
        Ok(x) => x,
        Err(e) => {
            return Err(e);
        },
    };
    proof {
        assert(tail.skip(q2 - pos) =~= data@.subrange(q2 as int, data@.len() as int));
    }
    let (ty, q3) = match decode_storage_type_at(data, q2) {
        Ok(x) => x,
        Err(e) => {
            return Err(e);
        },
    };
    proof {
        assert(tail.skip(q3 - pos) =~= data@.subrange(q3 as int, data@.len() as int));
    }
    let (default, q4) = match decode_bytes_at(data, q3) {
        Ok(x) => x,
        Err(e) => {
            return Err(e);
        },
    };
    proof {
        assert(tail.skip(q4 - pos) =~= data@.subrange(q4 as int, data@.len() as int));
    }
    let (docs, q5) = match decode_strs_at(data, q4) {
        Ok(x) => x,
        Err(e) => {
            return Err(e);
        },
    };
    Ok(
        (
            StorageEntryMetadata {
                name: DecodeDifferent::Decoded(name),
                modifier,
                ty,
                default: DecodeDifferent::Decoded(default),
                documentation: DecodeDifferent::Decoded(docs),
            },
            q5,
        ),
    )
}

/// Appends the wire form of a module constant record.
#[verifier::rlimit(80)]
fn encode_constant(c: &ModuleConstantMetadata, out: &mut Vec<u8>) -> (ok: bool)
    ensures
        ok == wf_constant(constant_view(*c)),
        ok ==> final(out)@ == old(out)@ + enc_constant(constant_view(*c)),
{
    proof {
        reveal(wf_constant);
        reveal(enc_constant);
    }
    if !encode_str_cell(&c.name, out) {
        return false;
    }
    if !encode_str_cell(&c.ty, out) {
        return false;
    }
    if !encode_bytes_cell(&c.value, out) {
        return false;
    }
    let ok = encode_strs_cell(&c.documentation, out);
    proof {
        if ok {
            assert(out@ =~= old(out)@ + enc_constant(constant_view(*c)));
        }
    }
    ok
}

/// Reads one module constant record.
#[verifier::rlimit(80)]
fn decode_constant_at(data: &[u8], pos: usize) -> (r: Result<(ModuleConstantMetadata, usize), DecodeError>)
    requires
        pos <= data@.len(),
    ensures
        match r {
            Ok((c, q)) => {
                &&& pos <= q <= data@.len()
                &&& dec_constant(data@.subrange(pos as int, data@.len() as int)) == Some(
                    (constant_view(c), (q - pos) as int),
                )
            },
            Err(_) => dec_constant(data@.subrange(pos as int, data@.len() as int)) is None,
        },
{
    proof {
        reveal(dec_constant);
    }
    let ghost tail = data@.subrange(pos as int, data@.len() as int);
    let (name, q1) = match get_str(data, pos) {
        Ok(x) => x,
        Err(e) => {
            return Err(e);
        },
    };
    proof {
        assert(tail.skip(q1 - pos) =~= data@.subrange(q1 as int, data@.len() as int));
    }
    let (ty, q2) = match get_str(data, q1) {
        Ok(x) => x,
        Err(e) => {
            return Err(e);
        },
    };
    proof {
        assert(tail.skip(q2 - pos) =~= data@.subrange(q2 as int, data@.len() as int));
    }
    let (value, q3) = match decode_bytes_at(data, q2) {
        Ok(x) => x,
        Err(e) => {
            return Err(e);
        },
    };
    proof {
        assert(tail.skip(q3 - pos) =~= data@.subrange(q3 as int, data@.len() as int));
    }
    let (docs, q4) = match decode_strs_at(data, q3) {
        Ok(x) => x,
        Err(e) => {
            return Err(e);
        },
    };
    Ok(
        (
            ModuleConstantMetadata {
                name: DecodeDifferent::Decoded(name),
                ty: DecodeDifferent::Decoded(ty),
                value: DecodeDifferent::Decoded(value),
                documentation: DecodeDifferent::Decoded(docs),
            },
            q4,
        ),
    )
}

/// Appends the wire form of a module error record.
#[verifier::rlimit(80)]
fn encode_error(e: &ErrorMetadata, out: &mut Vec<u8>) -> (ok: bool)
    ensures
        ok == wf_error(error_view(*e)),
        ok ==> final(out)@ == old(out)@ + enc_error(error_view(*e)),
{
    proof {
        reveal(wf_error);
        reveal(enc_error);
    }
    if !encode_str_cell(&e.name, out) {
        return false;
    }
    let ok = encode_strs_cell(&e.documentation, out);
    proof {
        if ok {
            assert(out@ =~= old(out)@ + enc_error(error_view(*e)));
        }
    }
    ok
}

/// Reads one module error record.
#[verifier::rlimit(80)]
fn decode_error_at(data: &[u8], pos: usize) -> (r: Result<(ErrorMetadata, usize), DecodeError>)
    requires
        pos <= data@.len(),
    ensures
        match r {
            Ok((e, q)) => {
                &&& pos <= q <= data@.len()
                &&& dec_error(data@.subrange(pos as int, data@.len() as int)) == Some(
                    (error_view(e), (q - pos) as int),
                )
            },
            Err(_) => dec_error(data@.subrange(pos as int, data@.len() as int)) is None,
        },
{
    proof {
        reveal(dec_error);
    }
    let ghost tail = data@.subrange(pos as int, data@.len() as int);
    let (name, q1) = match get_str(data, pos) {
        Ok(x) => x,
        Err(e) => {
            return Err(e);
        },
    };
    proof {
        assert(tail.skip(q1 - pos) =~= data@.subrange(q1 as int, data@.len() as int));
    }
    let (docs, q2) = match decode_strs_at(data, q1) {
        Ok(x) => x,
        Err(e) => {
            return Err(e);
        },
    };
    Ok(
        (
            ErrorMetadata {
                name: DecodeDifferent::Decoded(name),
                documentation: DecodeDifferent::Decoded(docs),
            },
            q2,
        ),
    )
}

/// Appends the wire form of the storage metadata.
#[verifier::rlimit(80)]
fn encode_storage(s: &StorageMetadata, out: &mut Vec<u8>) -> (ok: bool)
    ensures
        ok == wf_storage(storage_view(*s)),
        ok ==> final(out)@ == old(out)@ + enc_storage(storage_view(*s)),
{
    proof {
        reveal(wf_storage);
        reveal(enc_storage);
    }
    if !encode_str_cell(&s.prefix, out) {
        return false;
    }
    let v = s.entries.get();
    if (v.len() as u64) >= 0x1_0000_0000u64 {
        return false;
    }
    put_compact(out, v.len() as u32);
    let ok = encode_entries_from(v, 0, out);
    proof {
        assert(entries_view(v@).skip(0) =~= entries_view(v@));
        if ok {
            assert(out@ =~= old(out)@ + enc_storage(storage_view(*s)));
        }
    }
    ok
}

/// Reads the storage metadata.
#[verifier::rlimit(80)]
fn decode_storage_at(data: &[u8], pos: usize) -> (r: Result<(StorageMetadata, usize), DecodeError>)
    requires
        pos <= data@.len(),
    ensures
        match r {
            Ok((s, q)) => {
                &&& pos <= q <= data@.len()
                &&& dec_storage(data@.subrange(pos as int, data@.len() as int)) == Some(
                    (storage_view(s), (q - pos) as int),
                )
            },
            Err(_) => dec_storage(data@.subrange(pos as int, data@.len() as int)) is None,
        },
{
    proof {
        reveal(dec_storage);
    }
    let ghost tail = data@.subrange(pos as int, data@.len() as int);
    let (prefix, q1) = match get_str(data, pos) {
        Ok(x) => x,
        Err(e) => {
            return Err(e);
        },
    };
    proof {
        assert(tail.skip(q1 - pos) =~= data@.subrange(q1 as int, data@.len() as int));
    }
    let (n, q2) = match get_compact(data, q1) {
        Ok(x) => x,
        Err(e) => {
            return Err(e);
        },
    };
    let mut entries: Vec<StorageEntryMetadata> = Vec::new();
    proof {
        assert(tail.skip(q2 - pos) =~= data@.subrange(q2 as int, data@.len() as int));
    }
    match decode_entries_from(n, data, q2, &mut entries) {
        Ok(q) => {
            proof {
                assert(entries@.skip(0) =~= entries@);
            }
            Ok(
                (
                    StorageMetadata {
                        prefix: DecodeDifferent::Decoded(prefix),
                        entries: DecodeDifferent::Decoded(entries),
                    },
                    q,
                ),
            )
        },
        Err(e) => Err(e),
    }
}


/// Appends the constants and errors lists that close a module record.
#[verifier::rlimit(100)]
#[verifier::spinoff_prover]
fn encode_module_tail(
    constants: &DFnA<ModuleConstantMetadata>,
    errors: &DFnA<ErrorMetadata>,
    out: &mut Vec<u8>,
) -> (ok: bool)
    ensures
        ok == ({
            &&& constants_view(constants.effective()@).len() < 0x1_0000_0000
            &&& (forall|i: int| 0 <= i < constants_view(constants.effective()@).len()
                ==> wf_constant(#[trigger] constants_view(constants.effective()@)[i]))
            &&& errors_view(errors.effective()@).len() < 0x1_0000_0000
            &&& (forall|i: int| 0 <= i < errors_view(errors.effective()@).len()
                ==> wf_error(#[trigger] errors_view(errors.effective()@)[i]))
        }),
        ok ==> final(out)@ == old(out)@ + enc_module_tail(
            constants_view(constants.effective()@),
            errors_view(errors.effective()@),
        ),
{
    proof {
        reveal(enc_module_tail);
    }
    let cv = constants.get();
    if (cv.len() as u64) >= 0x1_0000_0000u64 {
        return false;
    }
    put_compact(out, cv.len() as u32);
    proof {
        assert(constants_view(cv@).skip(0) =~= constants_view(cv@));
    }
    if !encode_constants_from(cv, 0, out) {
        return false;
    }
    let ev = errors.get();
    if (ev.len() as u64) >= 0x1_0000_0000u64 {
        return false;
    }
    put_compact(out, ev.len() as u32);
    proof {
        assert(errors_view(ev@).skip(0) =~= errors_view(ev@));
    }
    let ok = encode_errors_from(ev, 0, out);
    proof {
        if ok {
            assert(out@ =~= old(out)@ + enc_module_tail(
                constants_view(constants.effective()@),
                errors_view(errors.effective()@),
            ));
        }
    }
    ok
}

/// Reads the constants and errors lists that close a module record.
#[verifier::rlimit(100)]
#[verifier::spinoff_prover]
fn decode_module_tail_at(data: &[u8], pos: usize) -> (r: Result<
    ((Vec<ModuleConstantMetadata>, Vec<ErrorMetadata>), usize),
    DecodeError,
>)
    requires
        pos <= data@.len(),
    ensures
        match r {
            Ok(((cv, ev), q)) => {
                &&& pos <= q <= data@.len()
                &&& dec_module_tail(data@.subrange(pos as int, data@.len() as int)) == Some(
                    ((constants_view(cv@), errors_view(ev@)), (q - pos) as int),
                )
            },
            Err(_) => dec_module_tail(
                data@.subrange(pos as int, data@.len() as int),
            ) is None,
        },
{
    proof {
        reveal(dec_module_tail);
    }
    let ghost tail = data@.subrange(pos as int, data@.len() as int);
    let (nc, q5) = match get_compact(data, pos) {
        Ok(x) => x,
        Err(e) => {
            return Err(e);
        },
    };
    let mut cv: Vec<ModuleConstantMetadata> = Vec::new();
    proof {
        assert(tail.skip(q5 - pos) =~= data@.subrange(q5 as int, data@.len() as int));
    }
    let q6 = match decode_constants_from(nc, data, q5, &mut cv) {
        Ok(x) => x,
        Err(e) => {
            return Err(e);
        },
    };
    proof {
        assert(cv@.skip(0) =~= cv@);
        assert(tail.skip(q6 - pos) =~= data@.subrange(q6 as int, data@.len() as int));
    }
    let (ne, q7) = match get_compact(data, q6) {
        Ok(x) => x,
        Err(e) => {
            return Err(e);
        },
    };
    let mut ev: Vec<ErrorMetadata> = Vec::new();
    proof {
        assert(tail.skip(q7 - pos) =~= data@.subrange(q7 as int, data@.len() as int));
    }
    let q8 = match decode_errors_from(ne, data, q7, &mut ev) {
        Ok(x) => x,
        Err(e) => {
            return Err(e);
        },
    };
    proof {
        assert(ev@.skip(0) =~= ev@);
    }
    Ok(((cv, ev), q8))
}

/// Appends the wire form of a module record.
#[verifier::rlimit(100)]
#[verifier::spinoff_prover]
fn encode_module(m: &ModuleMetadata, out: &mut Vec<u8>) -> (ok: bool)
    ensures
        ok == wf_module(module_view(*m)),
        ok ==> final(out)@ == old(out)@ + enc_module(module_view(*m)),
{
    proof {
        reveal(wf_module);
        reveal(enc_module);
    }
    let ghost base = out@;
    let ghost mv = module_view(*m);
    if !encode_str_cell(&m.name, out) {
        return false;
    }
    proof {
        assert(out@ =~= base + enc_str(mv.name));
    }
    match &m.storage {
        None => {
            out.push(0u8);
        },
        Some(cell) => {
            out.push(1u8);
            let s = cell.get();
            if !encode_storage(s, out) {
                return false;
            }
        },
    }
    proof {
        assert(out@ =~= base + enc_str(mv.name) + (match mv.storage {
            None => seq![0u8],
            Some(st) => seq![1u8] + enc_storage(st),
        }));
    }
    match &m.calls {
        None => {
            out.push(0u8);
        },
        Some(cell) => {
            out.push(1u8);
            let v = cell.get();
            if (v.len() as u64) >= 0x1_0000_0000u64 {
                return false;
            }
            put_compact(out, v.len() as u32);
            proof {
                assert(functions_view(v@).skip(0) =~= functions_view(v@));
            }
            if !encode_functions_from(v, 0, out) {
                return false;
            }
        },
    }
    proof {
        assert(out@ =~= base + enc_str(mv.name) + (match mv.storage {
            None => seq![0u8],
            Some(st) => seq![1u8] + enc_storage(st),
        }) + (match mv.calls {
            None => seq![0u8],
            Some(fs) => seq![1u8] + compact_bytes(fs.len()) + enc_functions_seq(fs),
        }));
    }
    match &m.event {
        None => {
            out.push(0u8);
        },
        Some(cell) => {
            out.push(1u8);
            let v = cell.get();
            if (v.len() as u64) >= 0x1_0000_0000u64 {
                return false;
            }
            put_compact(out, v.len() as u32);
            proof {
                assert(events_view(v@).skip(0) =~= events_view(v@));
            }
            if !encode_events_from(v, 0, out) {
                return false;
            }
        },
    }
    proof {
        assert(out@ =~= base + enc_str(mv.name) + (match mv.storage {
            None => seq![0u8],
            Some(st) => seq![1u8] + enc_storage(st),
        }) + (match mv.calls {
            None => seq![0u8],
            Some(fs) => seq![1u8] + compact_bytes(fs.len()) + enc_functions_seq(fs),
        }) + (match mv.event {
            None => seq![0u8],
            Some(es) => seq![1u8] + compact_bytes(es.len()) + enc_events_seq(es),
        }));
    }
    let ok = encode_module_tail(&m.constants, &m.errors, out);
    proof {
        if ok {
            assert(out@ =~= old(out)@ + enc_module(module_view(*m)));
        }
    }
    ok
}

/// Reads the optional storage field: a flag byte, then the storage record
/// when present.
#[verifier::rlimit(80)]
#[verifier::spinoff_prover]
fn decode_opt_storage_at(data: &[u8], pos: usize) -> (r: Result<
    (Option<DecodeDifferent<FnEncode<StorageMetadata>, StorageMetadata>>, usize),
    DecodeError,
>)
    requires
        pos <= data@.len(),
    ensures
        match r {
            Ok((cell, q)) => {
                &&& pos < q <= data@.len()
                &&& dec_opt_storage(data@.subrange(pos as int, data@.len() as int)) == Some(
                    (
                        (match cell {
                            None => None,
                            Some(c) => Some(storage_view(c.effective())),
                        }),
                        (q - pos) as int,
                    ),
                )
            },
            Err(_) => dec_opt_storage(data@.subrange(pos as int, data@.len() as int)) is None,
        },
{
    let ghost tail = data@.subrange(pos as int, data@.len() as int);
    if pos >= data.len() {
        return Err(DecodeError::Truncated);
    }
    let flag = data[pos];
    proof {
        assert(tail[0] == flag);
        assert(tail.drop_first() =~= data@.subrange(pos + 1, data@.len() as int));
    }
    if flag == 0 {
        Ok((None, pos + 1))
    } else if flag == 1 {
        let (s, q) = match decode_storage_at(data, pos + 1) {
            Ok(x) => x,
            Err(e) => {
                return Err(e);
            },
        };
        Ok((Some(DecodeDifferent::Decoded(s)), q))
    } else {
        Err(DecodeError::Malformed)
    }
}

/// Reads the optional call list: a flag byte, then a compact-prefixed list
/// when present.
#[verifier::rlimit(80)]
#[verifier::spinoff_prover]
fn decode_opt_functions_at(data: &[u8], pos: usize) -> (r: Result<
    (ODFnA<FunctionMetadata>, usize),
    DecodeError,
>)
    requires
        pos <= data@.len(),
    ensures
        match r {
            Ok((cell, q)) => {
                &&& pos < q <= data@.len()
                &&& dec_opt_functions(data@.subrange(pos as int, data@.len() as int)) == Some(
                    (
                        (match cell {
                            None => None,
                            Some(c) => Some(functions_view(c.effective()@)),
                        }),
                        (q - pos) as int,
                    ),
                )
            },
            Err(_) => dec_opt_functions(data@.subrange(pos as int, data@.len() as int)) is None,
        },
{
    let ghost tail = data@.subrange(pos as int, data@.len() as int);
    if pos >= data.len() {
        return Err(DecodeError::Truncated);
    }
    let flag = data[pos];
    proof {
        assert(tail[0] == flag);
        assert(tail.drop_first() =~= data@.subrange(pos + 1, data@.len() as int));
    }
    if flag == 0 {
        Ok((None, pos + 1))
    } else if flag == 1 {
        let (n, p) = match get_compact(data, pos + 1) {
            Ok(x) => x,
            Err(e) => {
                return Err(e);
            },
        };
        let mut fv: Vec<FunctionMetadata> = Vec::new();
        proof {
            assert(data@.subrange(pos + 1, data@.len() as int).skip(p - (pos + 1))
                =~= data@.subrange(p as int, data@.len() as int));
            assert(tail.skip(p - pos) =~= data@.subrange(p as int, data@.len() as int));
        }
        let q = match decode_functions_from(n, data, p, &mut fv) {
            Ok(x) => x,
            Err(e) => {
                return Err(e);
            },
        };
        proof {
            assert(fv@.skip(0) =~= fv@);
        }
        Ok((Some(DecodeDifferent::Decoded(fv)), q))
    } else {
        Err(DecodeError::Malformed)
    }
}

/// Reads the optional event list: same layout as the call list.
#[verifier::rlimit(80)]
#[verifier::spinoff_prover]
fn decode_opt_events_at(data: &[u8], pos: usize) -> (r: Result<
    (ODFnA<EventMetadata>, usize),
    DecodeError,
>)
    requires
        pos <= data@.len(),
    ensures
        match r {
            Ok((cell, q)) => {
                &&& pos < q <= data@.len()
                &&& dec_opt_events(data@.subrange(pos as int, data@.len() as int)) == Some(
                    (
                        (match cell {
                            None => None,
                            Some(c) => Some(events_view(c.effective()@)),
                        }),
                        (q - pos) as int,
                    ),
                )
            },
            Err(_) => dec_opt_events(data@.subrange(pos as int, data@.len() as int)) is None,
        },
{
    let ghost tail = data@.subrange(pos as int, data@.len() as int);
    if pos >= data.len() {
        return Err(DecodeError::Truncated);
    }
    let flag = data[pos];
    proof {
        assert(tail[0] == flag);
        assert(tail.drop_first() =~= data@.subrange(pos + 1, data@.len() as int));
    }
    if flag == 0 {
        Ok((None, pos + 1))
    } else if flag == 1 {
        let (n, p) = match get_compact(data, pos + 1) {
            Ok(x) => x,
            Err(e) => {
                return Err(e);
            },
        };
        let mut evv: Vec<EventMetadata> = Vec::new();
        proof {
            assert(data@.subrange(pos + 1, data@.len() as int).skip(p - (pos + 1))
                =~= data@.subrange(p as int, data@.len() as int));
            assert(tail.skip(p - pos) =~= data@.subrange(p as int, data@.len() as int));
        }
        let q = match decode_events_from(n, data, p, &mut evv) {
            Ok(x) => x,
            Err(e) => {
                return Err(e);
            },
        };
        proof {
            assert(evv@.skip(0) =~= evv@);
        }
        Ok((Some(DecodeDifferent::Decoded(evv)), q))
    } else {
        Err(DecodeError::Malformed)
    }
}

/// Reads one module record.
#[verifier::rlimit(100)]
#[verifier::spinoff_prover]
fn decode_module_at(data: &[u8], pos: usize) -> (r: Result<(ModuleMetadata, usize), DecodeError>)
    requires
        pos <= data@.len(),
    ensures
        match r {
            Ok((m, q)) => {
                &&& pos <= q <= data@.len()
                &&& dec_module(data@.subrange(pos as int, data@.len() as int)) == Some(
                    (module_view(m), (q - pos) as int),
                )
            },
            Err(_) => dec_module(data@.subrange(pos as int, data@.len() as int)) is None,
        },
{
    proof {
        reveal(dec_module);
    }
    let ghost tail = data@.subrange(pos as int, data@.len() as int);
    let (name, q1) = match get_str(data, pos) {
        Ok(x) => x,
        Err(e) => {
            return Err(e);
        },
    };
    proof {
        assert(tail.skip(q1 - pos) =~= data@.subrange(q1 as int, data@.len() as int));
    }
    let (storage, q2) = match decode_opt_storage_at(data, q1) {
        Ok(x) => x,
        Err(e) => {
            return Err(e);
        },
    };
    proof {
        assert(tail.skip(q2 - pos) =~= data@.subrange(q2 as int, data@.len() as int));
    }
    let (calls, q3) = match decode_opt_functions_at(data, q2) {
        Ok(x) => x,
        Err(e) => {
            return Err(e);
        },
    };
    proof {
        assert(tail.skip(q3 - pos) =~= data@.subrange(q3 as int, data@.len() as int));
    }
    let (event, q4) = match decode_opt_events_at(data, q3) {
        Ok(x) => x,
        Err(e) => {
            return Err(e);
        },
    };
    proof {
        assert(tail.skip(q4 - pos) =~= data@.subrange(q4 as int, data@.len() as int));
    }
    let ((cv, erv), q8) = match decode_module_tail_at(data, q4) {
        Ok(x) => x,
        Err(e) => {
            return Err(e);
        },
    };
    Ok(
        (
            ModuleMetadata {
                name: DecodeDifferent::Decoded(name),
                storage,
                calls,
                event,
                constants: DecodeDifferent::Decoded(cv),
                errors: DecodeDifferent::Decoded(erv),
            },
            q8,
        ),
    )
}

/// Appends the wire form of the generation-8 payload.
#[verifier::rlimit(80)]
fn encode_v8(v: &RuntimeMetadataV8, out: &mut Vec<u8>) -> (ok: bool)
    ensures
        ok == wf_v8(v8_view(*v)),
        ok ==> final(out)@ == old(out)@ + enc_v8(v8_view(*v)),
{
    proof {
        reveal(wf_v8);
        reveal(enc_v8);
    }
    let ms = v.modules.get();
    if (ms.len() as u64) >= 0x1_0000_0000u64 {
        return false;
    }
    put_compact(out, ms.len() as u32);
    let ok = encode_modules_from(ms, 0, out);
    proof {
        assert(modules_view(ms@).skip(0) =~= modules_view(ms@));
        if ok {
            assert(out@ =~= old(out)@ + enc_v8(v8_view(*v)));
        }
    }
    ok
}

/// Reads the generation-8 payload.
#[verifier::rlimit(80)]
fn decode_v8_at(data: &[u8], pos: usize) -> (r: Result<(RuntimeMetadataV8, usize), DecodeError>)
    requires
        pos <= data@.len(),
    ensures
        match r {
            Ok((v, q)) => {
                &&& pos <= q <= data@.len()
                &&& dec_v8(data@.subrange(pos as int, data@.len() as int)) == Some(
                    (v8_view(v), (q - pos) as int),
                )
            },
            Err(_) => dec_v8(data@.subrange(pos as int, data@.len() as int)) is None,
        },
{
    proof {
        reveal(dec_v8);
    }
    let ghost tail = data@.subrange(pos as int, data@.len() as int);
    let (n, p) = match get_compact(data, pos) {
        Ok(x) => x,
        Err(e) => {
            return Err(e);
        },
    };
    let mut ms: Vec<ModuleMetadata> = Vec::new();
    proof {
        assert(tail.skip(p - pos) =~= data@.subrange(p as int, data@.len() as int));
    }
    match decode_modules_from(n, data, p, &mut ms) {
        Ok(q) => {
            proof {
                assert(ms@.skip(0) =~= ms@);
            }
            Ok((RuntimeMetadataV8 { modules: DecodeDifferent::Decoded(ms) }, q))
        },
        Err(e) => Err(e),
    }
}

/// Appends the wire form of a whole generation: the discriminant byte, then
/// the payload (empty for the unsupported generations).
#[verifier::rlimit(80)]
fn encode_runtime(r: &RuntimeMetadata, out: &mut Vec<u8>) -> (ok: bool)
    ensures
        ok == wf_runtime(runtime_view(*r)),
        ok ==> final(out)@ == old(out)@ + enc_runtime(runtime_view(*r)),
{
    match r {
        RuntimeMetadata::V0(_) => {
            out.push(0u8);
            assert(out@ =~= old(out)@ + enc_runtime(runtime_view(*r)));
            true
        },
        RuntimeMetadata::V1(_) => {
            out.push(1u8);
            assert(out@ =~= old(out)@ + enc_runtime(runtime_view(*r)));
            true
        },
        RuntimeMetadata::V2(_) => {
            out.push(2u8);
            assert(out@ =~= old(out)@ + enc_runtime(runtime_view(*r)));
            true
        },
        RuntimeMetadata::V3(_) => {
            out.push(3u8);
            assert(out@ =~= old(out)@ + enc_runtime(runtime_view(*r)));
            true
        },
        RuntimeMetadata::V4(_) => {
            out.push(4u8);
            assert(out@ =~= old(out)@ + enc_runtime(runtime_view(*r)));
            true
        },
        RuntimeMetadata::V5(_) => {
            out.push(5u8);
            assert(out@ =~= old(out)@ + enc_runtime(runtime_view(*r)));
            true
        },
        RuntimeMetadata::V6(_) => {
            out.push(6u8);
            assert(out@ =~= old(out)@ + enc_runtime(runtime_view(*r)));
            true
        },
        RuntimeMetadata::V7(_) => {
            out.push(7u8);
            assert(out@ =~= old(out)@ + enc_runtime(runtime_view(*r)));
            true
        },
        RuntimeMetadata::V8(v) => {
            out.push(8u8);
            let ok = encode_v8(v, out);
            proof {
                if ok {
                    assert(out@ =~= old(out)@ + enc_runtime(runtime_view(*r)));
                }
            }
            ok
        },
    }
}

impl RuntimeMetadataV8 {
    /// Wraps this latest-generation metadata in the magic-prefixed envelope.
    #[verifier::rlimit(80)]
    pub fn into_prefixed(self) -> (r: RuntimeMetadataPrefixed)
        ensures
            r.0 == META_RESERVED,
            r.1 == RuntimeMetadata::V8(self),
    {
        RuntimeMetadataPrefixed(META_RESERVED, RuntimeMetadata::V8(self))
    }
}

impl RuntimeMetadataPrefixed {
    /// Encodes the envelope: the magic word, the version discriminant, and
    /// the payload. Yields `None` exactly when a record exceeds the machine
    /// limits on list and string lengths.
    #[verifier::rlimit(80)]
    pub fn encode(&self) -> (r: Option<Vec<u8>>)
        ensures
            match r {
                Some(b) => wf_runtime(runtime_view(self.1)) && b@ == enc_prefixed(
                    prefixed_view(*self),
                ),
                None => !wf_runtime(runtime_view(self.1)),
            },
    {
        let mut out: Vec<u8> = Vec::new();
        proof {
            lemma_pow256_16();
        }
        put_le(&mut out, self.0 as u128, 4);
        let ok = encode_runtime(&self.1, &mut out);
        if ok {
            proof {
                assert(out@ =~= enc_prefixed(prefixed_view(*self)));
            }
            Some(out)
        } else {
            None
        }
    }

    /// Decodes the envelope from the front of `data`. The magic is checked
    /// before the version discriminant is read: a wrong magic is a framing
    /// error, a discriminant of 0–7 is an unsupported-generation error
    /// carrying the offending version (never a truncation error, whatever
    /// follows), and only generation 8 yields a value. No partial schema is
    /// ever returned.
    #[verifier::rlimit(80)]
    pub fn decode(data: &[u8]) -> (r: Result<(RuntimeMetadataPrefixed, usize), DecodeError>)
        ensures
            match r {
                Ok((m, q)) => {
                    &&& q <= data@.len()
                    &&& dec_prefixed(data@) == Some((prefixed_view(m), q as int))
                },
                Err(_) => dec_prefixed(data@) is None,
            },
            data@.len() < 4 ==> r == Err::<(RuntimeMetadataPrefixed, usize), DecodeError>(
                DecodeError::Truncated,
            ),
            data@.len() >= 4 && le_val(data@.subrange(0, 4)) != META_RESERVED ==> r == Err::<
                (RuntimeMetadataPrefixed, usize),
                DecodeError,
            >(DecodeError::Framing),
            data@.len() >= 5 && le_val(data@.subrange(0, 4)) == META_RESERVED && data@[4] <= 7
                ==> r == Err::<(RuntimeMetadataPrefixed, usize), DecodeError>(
                DecodeError::UnsupportedGeneration(data@[4]),
            ),
    {
        proof {
            lemma_pow256_16();
        }
        if data.len() < 4 {
            return Err(DecodeError::Truncated);
        }
        let magic = get_le(data, 0, 4);
        proof {
            lemma_le_val_bound(data@.subrange(0, 4));
        }
        if (magic as u32) != META_RESERVED {
            return Err(DecodeError::Framing);
        }
        if data.len() < 5 {
            proof {
                assert(data@.skip(4).len() == data@.len() - 4);
            }
            return Err(DecodeError::Truncated);
        }
        let ver = data[4];
        proof {
            assert(data@.skip(4)[0] == data@[4]);
            assert(data@.skip(4).drop_first() =~= data@.subrange(5, data@.len() as int));
        }
        if ver <= 7 {
            return Err(DecodeError::UnsupportedGeneration(ver));
        }
        if ver > 8 {
            return Err(DecodeError::Malformed);
        }
        match decode_v8_at(data, 5) {
            Ok((v8, q)) => Ok(
                (RuntimeMetadataPrefixed(META_RESERVED, RuntimeMetadata::V8(v8)), q),
            ),
            Err(e) => Err(e),
        }
    }
}

} // verus!
