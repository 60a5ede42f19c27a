//! The decoded-value model: a closed, recursively defined sum type able to
//! hold an instance of any type a self-describing runtime can describe.
//! Sequences and arrays share [`SequenceValue`]; structs and tuples share
//! [`CompositeValue`]. Each type has a ghost view (`...View`) — its fully
//! mathematical image over `Seq` — and all contracts in this crate speak of
//! those views.

use vstd::prelude::*;

verus! {

broadcast use vstd::std_specs::vec::group_vec_axioms, vstd::seq::group_seq_axioms;

/// A decoded value: a struct or tuple, an enum variant, a sequence, or a
/// primitive.
#[derive(PartialEq, Eq, Debug)]
pub enum SubstrateValue {
    /// Values for a named or unnamed struct or tuple.
    Composite(CompositeValue),
    /// An enum variant.
    Variant(VariantValue),
    /// A value corresponding to a sequence or array type.
    Sequence(SequenceValue),
    /// Any of the primitive values we can have.
    Primitive(PrimitiveValue),
}

/// Ordered fields of a struct-like (`{ foo: 2, bar: false }`) or tuple-like
/// (`(2, false)`) value. Field-label order is significant.
#[derive(PartialEq, Eq, Debug)]
pub enum CompositeValue {
    Named(Vec<(String, SubstrateValue)>),
    Unnamed(Vec<SubstrateValue>),
}

/// One arm of a sum type: a tag and the arm's fields (an empty composite for
/// unit variants).
#[derive(PartialEq, Eq, Debug)]
pub struct VariantValue {
    pub name: String,
    pub fields: CompositeValue,
}

/// An ordered list of values; element types are constrained by the type
/// descriptor, not by this container.
#[derive(PartialEq, Eq, Debug)]
pub struct SequenceValue {
    pub values: Vec<SubstrateValue>,
}

/// The closed set of scalar values, up to 256-bit integers; the 256-bit kinds
/// are fixed 32-byte sequences, never native machine integers.
#[derive(Clone, PartialEq, Eq, Debug)]
pub enum PrimitiveValue {
    Bool(bool),
    Char(char),
    Str(String),
    U8(u8),
    U16(u16),
    U32(u32),
    U64(u64),
    U128(u128),
    U256([u8; 32]),
    I8(i8),
    I16(i16),
    I32(i32),
    I64(i64),
    I128(i128),
    I256([u8; 32]),
}

/// Which of the scalar kinds a primitive value is; also the leaf alternative
/// of a shape descriptor.
#[derive(Clone, Copy, PartialEq, Eq, Debug)]
pub enum PrimitiveKind {
    Bool,
    Char,
    Str,
    U8,
    U16,
    U32,
    U64,
    U128,
    U256,
    I8,
    I16,
    I32,
    I64,
    I128,
    I256,
}

/// Which of the four alternatives a value is.
#[derive(Clone, Copy, PartialEq, Eq, Debug)]
pub enum ValueKind {
    Composite,
    Variant,
    Sequence,
    Primitive,
}

// ---------------------------------------------------------------------------
// Ghost views: the mathematical image of a value tree.
// ---------------------------------------------------------------------------

pub enum PrimitiveValueView {
    Bool(bool),
    Char(char),
    Str(Seq<char>),
    U8(u8),
    U16(u16),
    U32(u32),
    U64(u64),
    U128(u128),
    U256(Seq<u8>),
    I8(i8),
    I16(i16),
    I32(i32),
    I64(i64),
    I128(i128),
    I256(Seq<u8>),
}

pub enum CompositeValueView {
    Named(Seq<(Seq<char>, SubstrateValueView)>),
    Unnamed(Seq<SubstrateValueView>),
}

pub struct VariantValueView {
    pub name: Seq<char>,
    pub fields: CompositeValueView,
}

pub enum SubstrateValueView {
    Composite(CompositeValueView),
    Variant(VariantValueView),
    Sequence(Seq<SubstrateValueView>),
    Primitive(PrimitiveValueView),
}

pub open spec fn prim_view(p: PrimitiveValue) -> PrimitiveValueView {
    match p {
        PrimitiveValue::Bool(b) => PrimitiveValueView::Bool(b),
        PrimitiveValue::Char(c) => PrimitiveValueView::Char(c),
        PrimitiveValue::Str(s) => PrimitiveValueView::Str(s@),
        PrimitiveValue::U8(v) => PrimitiveValueView::U8(v),
        PrimitiveValue::U16(v) => PrimitiveValueView::U16(v),
        PrimitiveValue::U32(v) => PrimitiveValueView::U32(v),
        PrimitiveValue::U64(v) => PrimitiveValueView::U64(v),
        PrimitiveValue::U128(v) => PrimitiveValueView::U128(v),
        PrimitiveValue::U256(b) => PrimitiveValueView::U256(b@),
        PrimitiveValue::I8(v) => PrimitiveValueView::I8(v),
        PrimitiveValue::I16(v) => PrimitiveValueView::I16(v),
        PrimitiveValue::I32(v) => PrimitiveValueView::I32(v),
        PrimitiveValue::I64(v) => PrimitiveValueView::I64(v),
        PrimitiveValue::I128(v) => PrimitiveValueView::I128(v),
        PrimitiveValue::I256(b) => PrimitiveValueView::I256(b@),
    }
}

pub open spec fn val_view(v: SubstrateValue) -> SubstrateValueView
    decreases v,
{
    match v {
        SubstrateValue::Composite(c) => SubstrateValueView::Composite(comp_view(c)),
        SubstrateValue::Variant(va) => SubstrateValueView::Variant(
            VariantValueView { name: va.name@, fields: comp_view(va.fields) },
        ),
        SubstrateValue::Sequence(sv) => SubstrateValueView::Sequence(vals_view(sv.values@)),
        SubstrateValue::Primitive(p) => SubstrateValueView::Primitive(prim_view(p)),
    }
}

pub open spec fn comp_view(c: CompositeValue) -> CompositeValueView
    decreases c,
{
    match c {
        CompositeValue::Named(fs) => CompositeValueView::Named(named_view(fs@)),
        CompositeValue::Unnamed(fs) => CompositeValueView::Unnamed(vals_view(fs@)),
    }
}

pub open spec fn vals_view(s: Seq<SubstrateValue>) -> Seq<SubstrateValueView>
    decreases s,
{
    if s.len() == 0 {
        Seq::empty()
    } else {
        seq![val_view(s[0])] + vals_view(s.drop_first())
    }
}

pub open spec fn named_view(s: Seq<(String, SubstrateValue)>) -> Seq<(Seq<char>, SubstrateValueView)>
    decreases s,
{
    if s.len() == 0 {
        Seq::empty()
    } else {
        seq![(s[0].0@, val_view(s[0].1))] + named_view(s.drop_first())
    }
}

impl View for SubstrateValue {
    type V = SubstrateValueView;

    open spec fn view(&self) -> SubstrateValueView {
        val_view(*self)
    }
}

impl View for CompositeValue {
    type V = CompositeValueView;

    open spec fn view(&self) -> CompositeValueView {
        comp_view(*self)
    }
}

impl View for VariantValue {
    type V = VariantValueView;

    open spec fn view(&self) -> VariantValueView {
        VariantValueView { name: self.name@, fields: comp_view(self.fields) }
    }
}

impl View for SequenceValue {
    type V = Seq<SubstrateValueView>;

    open spec fn view(&self) -> Seq<SubstrateValueView> {
        vals_view(self.values@)
    }
}

impl View for PrimitiveValue {
    type V = PrimitiveValueView;

    open spec fn view(&self) -> PrimitiveValueView {
        prim_view(*self)
    }
}

pub proof fn lemma_vals_view(s: Seq<SubstrateValue>)
    ensures
        vals_view(s).len() == s.len(),
        forall|i: int| 0 <= i < s.len() ==> vals_view(s)[i] == val_view(s[i]),
    decreases s.len(),
{
    if s.len() > 0 {
        lemma_vals_view(s.drop_first());
    }
}

pub proof fn lemma_named_view(s: Seq<(String, SubstrateValue)>)
    ensures
        named_view(s).len() == s.len(),
        forall|i: int|
            0 <= i < s.len() ==> named_view(s)[i] == (s[i].0@, val_view(s[i].1)),
    decreases s.len(),
{
    if s.len() > 0 {
        lemma_named_view(s.drop_first());
    }
}

// ---------------------------------------------------------------------------
// Classification and conversions.
// ---------------------------------------------------------------------------

pub open spec fn kind_of_val(v: SubstrateValueView) -> ValueKind {
    match v {
        SubstrateValueView::Composite(_) => ValueKind::Composite,
        SubstrateValueView::Variant(_) => ValueKind::Variant,
        SubstrateValueView::Sequence(_) => ValueKind::Sequence,
        SubstrateValueView::Primitive(_) => ValueKind::Primitive,
    }
}

pub open spec fn kind_of_prim(p: PrimitiveValueView) -> PrimitiveKind {
    match p {
        PrimitiveValueView::Bool(_) => PrimitiveKind::Bool,
        PrimitiveValueView::Char(_) => PrimitiveKind::Char,
        PrimitiveValueView::Str(_) => PrimitiveKind::Str,
        PrimitiveValueView::U8(_) => PrimitiveKind::U8,
        PrimitiveValueView::U16(_) => PrimitiveKind::U16,
        PrimitiveValueView::U32(_) => PrimitiveKind::U32,
        PrimitiveValueView::U64(_) => PrimitiveKind::U64,
        PrimitiveValueView::U128(_) => PrimitiveKind::U128,
        PrimitiveValueView::U256(_) => PrimitiveKind::U256,
        PrimitiveValueView::I8(_) => PrimitiveKind::I8,
        PrimitiveValueView::I16(_) => PrimitiveKind::I16,
        PrimitiveValueView::I32(_) => PrimitiveKind::I32,
        PrimitiveValueView::I64(_) => PrimitiveKind::I64,
        PrimitiveValueView::I128(_) => PrimitiveKind::I128,
        PrimitiveValueView::I256(_) => PrimitiveKind::I256,
    }
}

impl SubstrateValue {
    /// Which of the four alternatives this value is — pure and infallible.
    pub fn kind(&self) -> (k: ValueKind)
        ensures
            k == kind_of_val(self@),
    {
        match self {
            SubstrateValue::Composite(_) => ValueKind::Composite,
            SubstrateValue::Variant(_) => ValueKind::Variant,
            SubstrateValue::Sequence(_) => ValueKind::Sequence,
            SubstrateValue::Primitive(_) => ValueKind::Primitive,
        }
    }
}

impl PrimitiveValue {
    /// Which of the scalar kinds this primitive is — pure and infallible.
    pub fn kind(&self) -> (k: PrimitiveKind)
        ensures
            k == kind_of_prim(self@),
    {
        match self {
            PrimitiveValue::Bool(_) => PrimitiveKind::Bool,
            PrimitiveValue::Char(_) => PrimitiveKind::Char,
            PrimitiveValue::Str(_) => PrimitiveKind::Str,
            PrimitiveValue::U8(_) => PrimitiveKind::U8,
            PrimitiveValue::U16(_) => PrimitiveKind::U16,
            PrimitiveValue::U32(_) => PrimitiveKind::U32,
            PrimitiveValue::U64(_) => PrimitiveKind::U64,
            PrimitiveValue::U128(_) => PrimitiveKind::U128,
            PrimitiveValue::U256(_) => PrimitiveKind::U256,
            PrimitiveValue::I8(_) => PrimitiveKind::I8,
            PrimitiveValue::I16(_) => PrimitiveKind::I16,
            PrimitiveValue::I32(_) => PrimitiveKind::I32,
            PrimitiveValue::I64(_) => PrimitiveKind::I64,
            PrimitiveValue::I128(_) => PrimitiveKind::I128,
            PrimitiveValue::I256(_) => PrimitiveKind::I256,
        }
    }
}

impl From<CompositeValue> for SubstrateValue {
    fn from(val: CompositeValue) -> (r: Self) {
        SubstrateValue::Composite(val)
    }
}

impl vstd::std_specs::convert::FromSpecImpl<CompositeValue> for SubstrateValue {
    open spec fn obeys_from_spec() -> bool {
        true
    }

    open spec fn from_spec(t: CompositeValue) -> Self {
        SubstrateValue::Composite(t)
    }
}

impl From<VariantValue> for SubstrateValue {
    fn from(val: VariantValue) -> (r: Self) {
        SubstrateValue::Variant(val)
    }
}

impl vstd::std_specs::convert::FromSpecImpl<VariantValue> for SubstrateValue {
    open spec fn obeys_from_spec() -> bool {
        true
    }

    open spec fn from_spec(t: VariantValue) -> Self {
        SubstrateValue::Variant(t)
    }
}

impl From<SequenceValue> for SubstrateValue {
    fn from(val: SequenceValue) -> (r: Self) {
        SubstrateValue::Sequence(val)
    }
}

impl vstd::std_specs::convert::FromSpecImpl<SequenceValue> for SubstrateValue {
    open spec fn obeys_from_spec() -> bool {
        true
    }

    open spec fn from_spec(t: SequenceValue) -> Self {
        SubstrateValue::Sequence(t)
    }
}

impl From<PrimitiveValue> for SubstrateValue {
    fn from(val: PrimitiveValue) -> (r: Self) {
        SubstrateValue::Primitive(val)
    }
}

impl vstd::std_specs::convert::FromSpecImpl<PrimitiveValue> for SubstrateValue {
    open spec fn obeys_from_spec() -> bool {
        true
    }

    open spec fn from_spec(t: PrimitiveValue) -> Self {
        SubstrateValue::Primitive(t)
    }
}

} // verus!
