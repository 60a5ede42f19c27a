//! The wire codec for decoded values. A [`Shape`] is the minimal type
//! descriptor the codec consults: it fixes which alternative to read next and
//! carries the field names and variant tags that the wire form omits.
//! `enc_value` gives the exact bytes of a conforming value; `dec_value` gives
//! the exact parse of a byte sequence against a shape; and
//! [`lemma_value_round_trip`] proves that every conforming value survives
//! encoding and decoding unchanged.

use vstd::prelude::*;
use vstd::utf8::*;
use crate::codec::{enc_bool, enc_str, compact_bytes, le_bytes_of, dec_bool, dec_str,
    dec_compact, le_val, pow256, lemma_pow256_16, lemma_le_bytes_of_len,
    lemma_le_val_le_bytes_of, lemma_le_val_bound, lemma_compact_round_trip,
    lemma_str_round_trip, DecodeError, put_le, get_le, put_compact, get_compact,
    put_bytes, put_str, get_str, put_bool, get_bool, char_from_u32};
use crate::substrate_value::{PrimitiveKind, PrimitiveValueView, SubstrateValueView,
    CompositeValueView, VariantValueView, SubstrateValue, CompositeValue, VariantValue,
    SequenceValue, PrimitiveValue, val_view, comp_view, prim_view, vals_view, named_view,
    lemma_vals_view, lemma_named_view};

verus! {

broadcast use vstd::std_specs::vec::group_vec_axioms, vstd::seq::group_seq_axioms;

/// A shape descriptor: the part of a type descriptor the byte codec needs.
pub enum Shape {
    /// A scalar of the given kind.
    Primitive(PrimitiveKind),
    /// A struct-like composite: ordered named fields.
    Named(Vec<(String, Shape)>),
    /// A tuple-like composite: ordered unnamed fields.
    Unnamed(Vec<Shape>),
    /// A sum type: ordered variant arms, selected on the wire by index byte.
    Enumeration(Vec<VariantShape>),
    /// A homogeneous sequence with a compact length prefix.
    Sequence(Box<Shape>),
}

/// One arm of a sum type: its tag and the shape of its fields (which must be
/// a composite shape for a value to conform).
pub struct VariantShape {
    pub name: String,
    pub fields: Shape,
}

// ---------------------------------------------------------------------------
// Size measures and their element bounds.
// ---------------------------------------------------------------------------

pub open spec fn shape_size(s: Shape) -> nat
    decreases s,
{
    match s {
        Shape::Primitive(_) => 1,
        Shape::Named(fs) => 1 + named_shapes_size(fs@),
        Shape::Unnamed(fs) => 1 + shapes_size(fs@),
        Shape::Enumeration(arms) => 1 + arms_size(arms@),
        Shape::Sequence(elem) => 1 + shape_size(*elem),
    }
}

pub open spec fn shapes_size(s: Seq<Shape>) -> nat
    decreases s,
{
    if s.len() == 0 {
        0
    } else {
        1 + shape_size(s[0]) + shapes_size(s.drop_first())
    }
}

pub open spec fn named_shapes_size(s: Seq<(String, Shape)>) -> nat
    decreases s,
{
    if s.len() == 0 {
        0
    } else {
        1 + shape_size(s[0].1) + named_shapes_size(s.drop_first())
    }
}

pub open spec fn arms_size(s: Seq<VariantShape>) -> nat
    decreases s,
{
    if s.len() == 0 {
        0
    } else {
        1 + shape_size(s[0].fields) + arms_size(s.drop_first())
    }
}

pub proof fn lemma_arms_size_element(s: Seq<VariantShape>, i: int)
    requires
        0 <= i < s.len(),
    ensures
        shape_size(s[i].fields) < arms_size(s),
    decreases s.len(),
{
    if i > 0 {
        lemma_arms_size_element(s.drop_first(), i - 1);
    }
}

/// The first arm whose tag is `name`, or `-1` when no arm carries it.
pub open spec fn arm_index(arms: Seq<VariantShape>, name: Seq<char>) -> int
    decreases arms.len(),
{
    if arms.len() == 0 {
        -1
    } else if arms[0].name@ == name {
        0
    } else {
        let rest = arm_index(arms.drop_first(), name);
        if rest >= 0 {
            rest + 1
        } else {
            -1
        }
    }
}

pub proof fn lemma_arm_index(arms: Seq<VariantShape>, name: Seq<char>)
    ensures
        arm_index(arms, name) >= 0 ==> {
            &&& arm_index(arms, name) < arms.len()
            &&& arms[arm_index(arms, name)].name@ == name
            &&& forall|j: int| 0 <= j < arm_index(arms, name) ==> arms[j].name@ != name
        },
        arm_index(arms, name) < 0 ==> forall|j: int|
            0 <= j < arms.len() ==> arms[j].name@ != name,
    decreases arms.len(),
{
    if arms.len() > 0 && arms[0].name@ != name {
        lemma_arm_index(arms.drop_first(), name);
        assert forall|j: int| 1 <= j < arms.len() implies arms[j] == arms.drop_first()[j - 1] by {
            assert(arms.drop_first()[j - 1] == arms[j]);
        }
    }
}

// ---------------------------------------------------------------------------
// Conformance: when a value fits a shape (and machine limits hold), it can be
// encoded, and the encoding decodes back to it.
// ---------------------------------------------------------------------------

/// Two's-complement image of `v` modulo `p`.
pub open spec fn tc_nat(v: int, p: nat) -> nat {
    if v >= 0 {
        v as nat
    } else {
        (v + p) as nat
    }
}

pub open spec fn prim_conforms(k: PrimitiveKind, p: PrimitiveValueView) -> bool {
    match p {
        PrimitiveValueView::Bool(_) => k == PrimitiveKind::Bool,
        PrimitiveValueView::Char(_) => k == PrimitiveKind::Char,
        PrimitiveValueView::Str(s) => k == PrimitiveKind::Str && encode_utf8(s).len()
            < 0x1_0000_0000,
        PrimitiveValueView::U8(_) => k == PrimitiveKind::U8,
        PrimitiveValueView::U16(_) => k == PrimitiveKind::U16,
        PrimitiveValueView::U32(_) => k == PrimitiveKind::U32,
        PrimitiveValueView::U64(_) => k == PrimitiveKind::U64,
        PrimitiveValueView::U128(_) => k == PrimitiveKind::U128,
        PrimitiveValueView::U256(b) => k == PrimitiveKind::U256 && b.len() == 32,
        PrimitiveValueView::I8(_) => k == PrimitiveKind::I8,
        PrimitiveValueView::I16(_) => k == PrimitiveKind::I16,
        PrimitiveValueView::I32(_) => k == PrimitiveKind::I32,
        PrimitiveValueView::I64(_) => k == PrimitiveKind::I64,
        PrimitiveValueView::I128(_) => k == PrimitiveKind::I128,
        PrimitiveValueView::I256(b) => k == PrimitiveKind::I256 && b.len() == 32,
    }
}

pub open spec fn conforms(s: Shape, v: SubstrateValueView) -> bool
    decreases shape_size(s), 1nat
        via conforms_decreases
{
    match s {
        Shape::Primitive(k) => match v {
            SubstrateValueView::Primitive(p) => prim_conforms(k, p),
            _ => false,
        },
        Shape::Named(fs) => match v {
            SubstrateValueView::Composite(CompositeValueView::Named(fvs)) => conforms_named(
                fs@,
                fvs,
            ),
            _ => false,
        },
        Shape::Unnamed(fs) => match v {
            SubstrateValueView::Composite(CompositeValueView::Unnamed(vs)) => conforms_list(
                fs@,
                vs,
            ),
            _ => false,
        },
        Shape::Enumeration(arms) => match v {
            SubstrateValueView::Variant(va) => {
                let i = arm_index(arms@, va.name);
                &&& 0 <= i < 256
                &&& conforms(arms@[i].fields, SubstrateValueView::Composite(va.fields))
            },
            _ => false,
        },
        Shape::Sequence(elem) => match v {
            SubstrateValueView::Sequence(vs) => vs.len() < 0x1_0000_0000 && conforms_elems(
                *elem,
                vs,
            ),
            _ => false,
        },
    }
}

#[via_fn]
proof fn conforms_decreases(s: Shape, v: SubstrateValueView) {
    match s {
        Shape::Enumeration(arms) => match v {
            SubstrateValueView::Variant(va) => {
                let i = arm_index(arms@, va.name);
                lemma_arm_index(arms@, va.name);
                if 0 <= i < arms@.len() {
                    lemma_arms_size_element(arms@, i);
                }
            },
            _ => {},
        },
        _ => {},
    }
}

pub open spec fn conforms_named(
    fs: Seq<(String, Shape)>,
    fvs: Seq<(Seq<char>, SubstrateValueView)>,
) -> bool
    decreases named_shapes_size(fs), 0nat,
{
    if fs.len() != fvs.len() {
        false
    } else if fs.len() == 0 {
        true
    } else {
        &&& fvs[0].0 == fs[0].0@
        &&& conforms(fs[0].1, fvs[0].1)
        &&& conforms_named(fs.drop_first(), fvs.drop_first())
    }
}

pub open spec fn conforms_list(fs: Seq<Shape>, vs: Seq<SubstrateValueView>) -> bool
    decreases shapes_size(fs), 0nat,
{
    if fs.len() != vs.len() {
        false
    } else if fs.len() == 0 {
        true
    } else {
        &&& conforms(fs[0], vs[0])
        &&& conforms_list(fs.drop_first(), vs.drop_first())
    }
}

pub open spec fn conforms_elems(elem: Shape, vs: Seq<SubstrateValueView>) -> bool
    decreases shape_size(elem), vs.len() + 1,
{
    if vs.len() == 0 {
        true
    } else {
        conforms(elem, vs[0]) && conforms_elems(elem, vs.drop_first())
    }
}

// ---------------------------------------------------------------------------
// Encoding: the exact bytes of a conforming value.
// ---------------------------------------------------------------------------

pub open spec fn enc_prim(p: PrimitiveValueView) -> Seq<u8> {
    match p {
        PrimitiveValueView::Bool(b) => enc_bool(b),
        PrimitiveValueView::Char(c) => le_bytes_of((c as u32) as nat, 4),
        PrimitiveValueView::Str(s) => enc_str(s),
        PrimitiveValueView::U8(v) => le_bytes_of(v as nat, 1),
        PrimitiveValueView::U16(v) => le_bytes_of(v as nat, 2),
        PrimitiveValueView::U32(v) => le_bytes_of(v as nat, 4),
        PrimitiveValueView::U64(v) => le_bytes_of(v as nat, 8),
        PrimitiveValueView::U128(v) => le_bytes_of(v as nat, 16),
        PrimitiveValueView::U256(b) => b,
        PrimitiveValueView::I8(v) => le_bytes_of(tc_nat(v as int, 0x100), 1),
        PrimitiveValueView::I16(v) => le_bytes_of(tc_nat(v as int, 0x1_0000), 2),
        PrimitiveValueView::I32(v) => le_bytes_of(tc_nat(v as int, 0x1_0000_0000), 4),
        PrimitiveValueView::I64(v) => le_bytes_of(tc_nat(v as int, 0x1_0000_0000_0000_0000), 8),
        PrimitiveValueView::I128(v) => le_bytes_of(
            tc_nat(v as int, 0x1_0000_0000_0000_0000_0000_0000_0000_0000nat),
            16,
        ),
        PrimitiveValueView::I256(b) => b,
    }
}

pub open spec fn enc_value(s: Shape, v: SubstrateValueView) -> Seq<u8>
    decreases shape_size(s), 1nat
        via enc_value_decreases
{
    match s {
        Shape::Primitive(_) => match v {
            SubstrateValueView::Primitive(p) => enc_prim(p),
            _ => Seq::empty(),
        },
        Shape::Named(fs) => match v {
            SubstrateValueView::Composite(CompositeValueView::Named(fvs)) => enc_named(fs@, fvs),
            _ => Seq::empty(),
        },
        Shape::Unnamed(fs) => match v {
            SubstrateValueView::Composite(CompositeValueView::Unnamed(vs)) => enc_list(fs@, vs),
            _ => Seq::empty(),
        },
        Shape::Enumeration(arms) => match v {
            SubstrateValueView::Variant(va) => {
                let i = arm_index(arms@, va.name);
                if 0 <= i < 256 {
                    seq![i as u8] + enc_value(
                        arms@[i].fields,
                        SubstrateValueView::Composite(va.fields),
                    )
                } else {
                    Seq::empty()
                }
            },
            _ => Seq::empty(),
        },
        Shape::Sequence(elem) => match v {
            SubstrateValueView::Sequence(vs) => compact_bytes(vs.len()) + enc_elems(*elem, vs),
            _ => Seq::empty(),
        },
    }
}

#[via_fn]
proof fn enc_value_decreases(s: Shape, v: SubstrateValueView) {
    match s {
        Shape::Enumeration(arms) => match v {
            SubstrateValueView::Variant(va) => {
                let i = arm_index(arms@, va.name);
                lemma_arm_index(arms@, va.name);
                if 0 <= i < arms@.len() {
                    lemma_arms_size_element(arms@, i);
                }
            },
            _ => {},
        },
        _ => {},
    }
}

pub open spec fn enc_named(
    fs: Seq<(String, Shape)>,
    fvs: Seq<(Seq<char>, SubstrateValueView)>,
) -> Seq<u8>
    decreases named_shapes_size(fs), 0nat,
{
    if fs.len() == 0 || fvs.len() == 0 {
        Seq::empty()
    } else {
        enc_value(fs[0].1, fvs[0].1) + enc_named(fs.drop_first(), fvs.drop_first())
    }
}

pub open spec fn enc_list(fs: Seq<Shape>, vs: Seq<SubstrateValueView>) -> Seq<u8>
    decreases shapes_size(fs), 0nat,
{
    if fs.len() == 0 || vs.len() == 0 {
        Seq::empty()
    } else {
        enc_value(fs[0], vs[0]) + enc_list(fs.drop_first(), vs.drop_first())
    }
}

pub open spec fn enc_elems(elem: Shape, vs: Seq<SubstrateValueView>) -> Seq<u8>
    decreases shape_size(elem), vs.len() + 1,
{
    if vs.len() == 0 {
        Seq::empty()
    } else {
        enc_value(elem, vs[0]) + enc_elems(elem, vs.drop_first())
    }
}

// ---------------------------------------------------------------------------
// Decoding: the exact parse of a byte sequence against a shape.
// ---------------------------------------------------------------------------

/// Signed reading of `x` as a two's-complement residue modulo `p`.
pub open spec fn sdec(x: nat, p: nat) -> int {
    if x < p / 2 {
        x as int
    } else {
        x - p
    }
}

pub open spec fn dec_prim(k: PrimitiveKind, b: Seq<u8>) -> Option<(PrimitiveValueView, int)> {
    match k {
        PrimitiveKind::Bool => match dec_bool(b) {
            Some((v, n)) => Some((PrimitiveValueView::Bool(v), n)),
            None => None,
        },
        PrimitiveKind::Char => if b.len() >= 4 {
            let x = le_val(b.subrange(0, 4));
            if is_scalar(x as u32) {
                Some((PrimitiveValueView::Char((x as u32) as char), 4))
            } else {
                None
            }
        } else {
            None
        },
        PrimitiveKind::Str => match dec_str(b) {
            Some((t, n)) => Some((PrimitiveValueView::Str(t), n)),
            None => None,
        },
        PrimitiveKind::U8 => if b.len() >= 1 {
            Some((PrimitiveValueView::U8(le_val(b.subrange(0, 1)) as u8), 1))
        } else {
            None
        },
        PrimitiveKind::U16 => if b.len() >= 2 {
            Some((PrimitiveValueView::U16(le_val(b.subrange(0, 2)) as u16), 2))
        } else {
            None
        },
        PrimitiveKind::U32 => if b.len() >= 4 {
            Some((PrimitiveValueView::U32(le_val(b.subrange(0, 4)) as u32), 4))
        } else {
            None
        },
        PrimitiveKind::U64 => if b.len() >= 8 {
            Some((PrimitiveValueView::U64(le_val(b.subrange(0, 8)) as u64), 8))
        } else {
            None
        },
        PrimitiveKind::U128 => if b.len() >= 16 {
            Some((PrimitiveValueView::U128(le_val(b.subrange(0, 16)) as u128), 16))
        } else {
            None
        },
        PrimitiveKind::U256 => if b.len() >= 32 {
            Some((PrimitiveValueView::U256(b.subrange(0, 32)), 32))
        } else {
            None
        },
        PrimitiveKind::I8 => if b.len() >= 1 {
            Some((PrimitiveValueView::I8(sdec(le_val(b.subrange(0, 1)), 0x100) as i8), 1))
        } else {
            None
        },
        PrimitiveKind::I16 => if b.len() >= 2 {
            Some((PrimitiveValueView::I16(sdec(le_val(b.subrange(0, 2)), 0x1_0000) as i16), 2))
        } else {
            None
        },
        PrimitiveKind::I32 => if b.len() >= 4 {
            Some(
                (PrimitiveValueView::I32(sdec(le_val(b.subrange(0, 4)), 0x1_0000_0000) as i32), 4),
            )
        } else {
            None
        },
        PrimitiveKind::I64 => if b.len() >= 8 {
            Some(
                (
                    PrimitiveValueView::I64(
                        sdec(le_val(b.subrange(0, 8)), 0x1_0000_0000_0000_0000) as i64,
                    ),
                    8,
                ),
            )
        } else {
            None
        },
        PrimitiveKind::I128 => if b.len() >= 16 {
            Some(
                (
                    PrimitiveValueView::I128(
                        sdec(
                            le_val(b.subrange(0, 16)),
                            0x1_0000_0000_0000_0000_0000_0000_0000_0000nat,
                        ) as i128,
                    ),
                    16,
                ),
            )
        } else {
            None
        },
        PrimitiveKind::I256 => if b.len() >= 32 {
            Some((PrimitiveValueView::I256(b.subrange(0, 32)), 32))
        } else {
            None
        },
    }
}

pub open spec fn dec_value(s: Shape, b: Seq<u8>) -> Option<(SubstrateValueView, int)>
    decreases shape_size(s), 1nat
        via dec_value_decreases
{
    match s {
        Shape::Primitive(k) => match dec_prim(k, b) {
            Some((p, n)) => Some((SubstrateValueView::Primitive(p), n)),
            None => None,
        },
        Shape::Named(fs) => match dec_named(fs@, b) {
            Some((fvs, n)) => Some(
                (SubstrateValueView::Composite(CompositeValueView::Named(fvs)), n),
            ),
            None => None,
        },
        Shape::Unnamed(fs) => match dec_list(fs@, b) {
            Some((vs, n)) => Some(
                (SubstrateValueView::Composite(CompositeValueView::Unnamed(vs)), n),
            ),
            None => None,
        },
        Shape::Enumeration(arms) => if b.len() == 0 {
            None
        } else {
            let i = b[0] as int;
            if i < arms@.len() {
                match dec_value(arms@[i].fields, b.drop_first()) {
                    Some((fv, n)) => match fv {
                        SubstrateValueView::Composite(cv) => Some(
                            (
                                SubstrateValueView::Variant(
                                    VariantValueView { name: arms@[i].name@, fields: cv },
                                ),
                                1 + n,
                            ),
                        ),
                        _ => None,
                    },
                    None => None,
                }
            } else {
                None
            }
        },
        Shape::Sequence(elem) => match dec_compact(b) {
            Some((cnt, p)) => match dec_elems(*elem, b.skip(p), cnt) {
                Some((vs, q)) => Some((SubstrateValueView::Sequence(vs), p + q)),
                None => None,
            },
            None => None,
        },
    }
}

#[via_fn]
proof fn dec_value_decreases(s: Shape, b: Seq<u8>) {
    match s {
        Shape::Enumeration(arms) => {
            if b.len() > 0 {
                let i = b[0] as int;
                if i < arms@.len() {
                    lemma_arms_size_element(arms@, i);
                }
            }
        },
        _ => {},
    }
}

pub open spec fn dec_named(fs: Seq<(String, Shape)>, b: Seq<u8>) -> Option<
    (Seq<(Seq<char>, SubstrateValueView)>, int),
>
    decreases named_shapes_size(fs), 0nat,
{
    if fs.len() == 0 {
        Some((Seq::empty(), 0))
    } else {
        match dec_value(fs[0].1, b) {
            Some((v0, n0)) => match dec_named(fs.drop_first(), b.skip(n0)) {
                Some((fvs, q)) => Some((seq![(fs[0].0@, v0)] + fvs, n0 + q)),
                None => None,
            },
            None => None,
        }
    }
}

pub open spec fn dec_list(fs: Seq<Shape>, b: Seq<u8>) -> Option<(Seq<SubstrateValueView>, int)>
    decreases shapes_size(fs), 0nat,
{
    if fs.len() == 0 {
        Some((Seq::empty(), 0))
    } else {
        match dec_value(fs[0], b) {
            Some((v0, n0)) => match dec_list(fs.drop_first(), b.skip(n0)) {
                Some((vs, q)) => Some((seq![v0] + vs, n0 + q)),
                None => None,
            },
            None => None,
        }
    }
}

pub open spec fn dec_elems(elem: Shape, b: Seq<u8>, cnt: nat) -> Option<
    (Seq<SubstrateValueView>, int),
>
    decreases shape_size(elem), cnt + 1,
{
    if cnt == 0 {
        Some((Seq::empty(), 0))
    } else {
        match dec_value(elem, b) {
            Some((v0, n0)) => match dec_elems(elem, b.skip(n0), (cnt - 1) as nat) {
                Some((vs, q)) => Some((seq![v0] + vs, n0 + q)),
                None => None,
            },
            None => None,
        }
    }
}

// ---------------------------------------------------------------------------
// The round-trip law: every conforming value survives encode then decode.
// ---------------------------------------------------------------------------

proof fn lemma_prim_round_trip(k: PrimitiveKind, p: PrimitiveValueView, rest: Seq<u8>)
    requires
        prim_conforms(k, p),
    ensures
        dec_prim(k, enc_prim(p) + rest) == Some((p, enc_prim(p).len() as int)),
{
    lemma_pow256_16();
    let e = enc_prim(p);
    let whole = e + rest;
    match p {
        PrimitiveValueView::Bool(b) => {
            assert(whole[0] == enc_bool(b)[0]);
        },
        PrimitiveValueView::Char(c) => {
            char_is_scalar(c);
            lemma_le_bytes_of_len((c as u32) as nat, 4);
            lemma_le_val_le_bytes_of((c as u32) as nat, 4);
            assert(whole.subrange(0, 4) =~= e);
            let x = le_val(whole.subrange(0, 4));
            assert(x as u32 == c as u32);
            char_u32_cast(c, x as u32);
        },
        PrimitiveValueView::Str(t) => {
            lemma_str_round_trip(t, rest);
        },
        PrimitiveValueView::U8(v) => {
            lemma_fixed_unsigned(v as nat, 1, rest);
        },
        PrimitiveValueView::U16(v) => {
            lemma_fixed_unsigned(v as nat, 2, rest);
        },
        PrimitiveValueView::U32(v) => {
            lemma_fixed_unsigned(v as nat, 4, rest);
        },
        PrimitiveValueView::U64(v) => {
            lemma_fixed_unsigned(v as nat, 8, rest);
        },
        PrimitiveValueView::U128(v) => {
            lemma_fixed_unsigned(v as nat, 16, rest);
        },
        PrimitiveValueView::U256(b) => {
            assert(whole.subrange(0, 32) =~= b);
        },
        PrimitiveValueView::I8(v) => {
            lemma_fixed_unsigned(tc_nat(v as int, 0x100), 1, rest);
        },
        PrimitiveValueView::I16(v) => {
            lemma_fixed_unsigned(tc_nat(v as int, 0x1_0000), 2, rest);
        },
        PrimitiveValueView::I32(v) => {
            lemma_fixed_unsigned(tc_nat(v as int, 0x1_0000_0000), 4, rest);
        },
        PrimitiveValueView::I64(v) => {
            lemma_fixed_unsigned(tc_nat(v as int, 0x1_0000_0000_0000_0000), 8, rest);
        },
        PrimitiveValueView::I128(v) => {
            lemma_fixed_unsigned(
                tc_nat(v as int, 0x1_0000_0000_0000_0000_0000_0000_0000_0000nat),
                16,
                rest,
            );
        },
        PrimitiveValueView::I256(b) => {
            assert(whole.subrange(0, 32) =~= b);
        },
    }
}

/// For a fixed-width field: when a byte sequence begins with the `n`
/// little-endian bytes of `x`, reading `n` bytes at its front yields `x`.
proof fn lemma_fixed_unsigned(x: nat, n: nat, rest: Seq<u8>)
    requires
        x < pow256(n),
    ensures
        le_bytes_of(x, n).len() == n,
        (le_bytes_of(x, n) + rest).len() >= n,
        le_val((le_bytes_of(x, n) + rest).subrange(0, n as int)) == x,
{
    lemma_le_bytes_of_len(x, n);
    assert((le_bytes_of(x, n) + rest).subrange(0, n as int) =~= le_bytes_of(x, n));
    lemma_le_val_le_bytes_of(x, n);
}

pub proof fn lemma_value_round_trip(s: Shape, v: SubstrateValueView, rest: Seq<u8>)
    requires
        conforms(s, v),
    ensures
        dec_value(s, enc_value(s, v) + rest) == Some((v, enc_value(s, v).len() as int)),
    decreases shape_size(s), 1nat,
{
    let e = enc_value(s, v);
    let whole = e + rest;
    match s {
        Shape::Primitive(k) => {
            let p = v->Primitive_0;
            lemma_prim_round_trip(k, p, rest);
            match dec_prim(k, whole) {
                Some((p2, n)) => {},
                None => {},
            }
        },
        Shape::Named(fs) => {
            let fvs = v->Composite_0->Named_0;
            lemma_named_round_trip(fs@, fvs, rest);
        },
        Shape::Unnamed(fs) => {
            let vs = v->Composite_0->Unnamed_0;
            lemma_list_round_trip(fs@, vs, rest);
        },
        Shape::Enumeration(arms) => {
            let va = v->Variant_0;
            let i = arm_index(arms@, va.name);
            lemma_arm_index(arms@, va.name);
            lemma_arms_size_element(arms@, i);
            let inner = enc_value(arms@[i].fields, SubstrateValueView::Composite(va.fields));
            assert(whole[0] == (i as u8));
            assert(whole.drop_first() =~= inner + rest);
            lemma_value_round_trip(
                arms@[i].fields,
                SubstrateValueView::Composite(va.fields),
                rest,
            );
            assert(VariantValueView { name: arms@[i].name@, fields: va.fields } == va);
        },
        Shape::Sequence(elem) => {
            let vs = v->Sequence_0;
            let inner = enc_elems(*elem, vs);
            lemma_compact_round_trip(vs.len(), inner + rest);
            assert(whole =~= compact_bytes(vs.len()) + (inner + rest));
            let p = compact_bytes(vs.len()).len() as int;
            assert(whole.skip(p) =~= inner + rest);
            lemma_elems_round_trip(*elem, vs, rest);
        },
    }
}

proof fn lemma_named_round_trip(
    fs: Seq<(String, Shape)>,
    fvs: Seq<(Seq<char>, SubstrateValueView)>,
    rest: Seq<u8>,
)
    requires
        conforms_named(fs, fvs),
    ensures
        dec_named(fs, enc_named(fs, fvs) + rest) == Some((fvs, enc_named(fs, fvs).len() as int)),
    decreases named_shapes_size(fs), 0nat,
{
    if fs.len() == 0 {
        assert(fvs =~= Seq::<(Seq<char>, SubstrateValueView)>::empty());
        assert(enc_named(fs, fvs) + rest =~= rest);
    } else {
        let head = enc_value(fs[0].1, fvs[0].1);
        let tail = enc_named(fs.drop_first(), fvs.drop_first());
        let whole = enc_named(fs, fvs) + rest;
        assert(whole =~= head + (tail + rest));
        lemma_value_round_trip(fs[0].1, fvs[0].1, tail + rest);
        assert(whole.skip(head.len() as int) =~= tail + rest);
        lemma_named_round_trip(fs.drop_first(), fvs.drop_first(), rest);
        assert((fs[0].0@, fvs[0].1) == fvs[0]);
        assert(seq![(fs[0].0@, fvs[0].1)] + fvs.drop_first() =~= fvs);
    }
}

proof fn lemma_list_round_trip(fs: Seq<Shape>, vs: Seq<SubstrateValueView>, rest: Seq<u8>)
    requires
        conforms_list(fs, vs),
    ensures
        dec_list(fs, enc_list(fs, vs) + rest) == Some((vs, enc_list(fs, vs).len() as int)),
    decreases shapes_size(fs), 0nat,
{
    if fs.len() == 0 {
        assert(vs =~= Seq::<SubstrateValueView>::empty());
        assert(enc_list(fs, vs) + rest =~= rest);
    } else {
        let head = enc_value(fs[0], vs[0]);
        let tail = enc_list(fs.drop_first(), vs.drop_first());
        let whole = enc_list(fs, vs) + rest;
        assert(whole =~= head + (tail + rest));
        lemma_value_round_trip(fs[0], vs[0], tail + rest);
        assert(whole.skip(head.len() as int) =~= tail + rest);
        lemma_list_round_trip(fs.drop_first(), vs.drop_first(), rest);
        assert(seq![vs[0]] + vs.drop_first() =~= vs);
    }
}

proof fn lemma_elems_round_trip(elem: Shape, vs: Seq<SubstrateValueView>, rest: Seq<u8>)
    requires
        conforms_elems(elem, vs),
    ensures
        dec_elems(elem, enc_elems(elem, vs) + rest, vs.len()) == Some(
            (vs, enc_elems(elem, vs).len() as int),
        ),
    decreases shape_size(elem), vs.len() + 1,
{
    if vs.len() == 0 {
        assert(vs =~= Seq::<SubstrateValueView>::empty());
    } else {
        let head = enc_value(elem, vs[0]);
        let tail = enc_elems(elem, vs.drop_first());
        let whole = enc_elems(elem, vs) + rest;
        assert(whole =~= head + (tail + rest));
        lemma_value_round_trip(elem, vs[0], tail + rest);
        assert(whole.skip(head.len() as int) =~= tail + rest);
        lemma_elems_round_trip(elem, vs.drop_first(), rest);
        assert(seq![vs[0]] + vs.drop_first() =~= vs);
    }
}


// ---------------------------------------------------------------------------
// Executable encoding.
// ---------------------------------------------------------------------------

/// Appends the wire form of a primitive, checking that it is of kind `k`.
fn encode_prim(k: &PrimitiveKind, p: &PrimitiveValue, out: &mut Vec<u8>) -> (ok: bool)
    ensures
        ok == prim_conforms(*k, prim_view(*p)),
        ok ==> final(out)@ == old(out)@ + enc_prim(prim_view(*p)),
{
    proof {
        lemma_pow256_16();
    }
    match p {
        PrimitiveValue::Bool(b) => match k {
            PrimitiveKind::Bool => {
                put_bool(out, *b);
                true
            },
            _ => false,
        },
        PrimitiveValue::Char(c) => match k {
            PrimitiveKind::Char => {
                proof {
                    char_is_scalar(*c);
                }
                put_le(out, (*c as u32) as u128, 4);
                true
            },
            _ => false,
        },
        PrimitiveValue::Str(t) => match k {
            PrimitiveKind::Str => {
                if (t.as_str().as_bytes().len() as u64) < 0x1_0000_0000u64 {
                    put_str(out, t);
                    true
                } else {
                    false
                }
            },
            _ => false,
        },
        PrimitiveValue::U8(v) => match k {
            PrimitiveKind::U8 => {
                put_le(out, *v as u128, 1);
                true
            },
            _ => false,
        },
        PrimitiveValue::U16(v) => match k {
            PrimitiveKind::U16 => {
                put_le(out, *v as u128, 2);
                true
            },
            _ => false,
        },
        PrimitiveValue::U32(v) => match k {
            PrimitiveKind::U32 => {
                put_le(out, *v as u128, 4);
                true
            },
            _ => false,
        },
        PrimitiveValue::U64(v) => match k {
            PrimitiveKind::U64 => {
                put_le(out, *v as u128, 8);
                true
            },
            _ => false,
        },
        PrimitiveValue::U128(v) => match k {
            PrimitiveKind::U128 => {
                put_le(out, *v, 16);
                true
            },
            _ => false,
        },
        PrimitiveValue::U256(b) => match k {
            PrimitiveKind::U256 => {
                put_bytes(out, b.as_slice());
                true
            },
            _ => false,
        },
        PrimitiveValue::I8(v) => match k {
            PrimitiveKind::I8 => {
                let u: u128 = if *v >= 0 {
                    *v as u128
                } else {
                    ((*v as i128) + 0x100) as u128
                };
                put_le(out, u, 1);
                true
            },
            _ => false,
        },
        PrimitiveValue::I16(v) => match k {
            PrimitiveKind::I16 => {
                let u: u128 = if *v >= 0 {
                    *v as u128
                } else {
                    ((*v as i128) + 0x1_0000) as u128
                };
                put_le(out, u, 2);
                true
            },
            _ => false,
        },
        PrimitiveValue::I32(v) => match k {
            PrimitiveKind::I32 => {
                let u: u128 = if *v >= 0 {
                    *v as u128
                } else {
                    ((*v as i128) + 0x1_0000_0000) as u128
                };
                put_le(out, u, 4);
                true
            },
            _ => false,
        },
        PrimitiveValue::I64(v) => match k {
            PrimitiveKind::I64 => {
                let u: u128 = if *v >= 0 {
                    *v as u128
                } else {
                    ((*v as i128) + 0x1_0000_0000_0000_0000) as u128
                };
                put_le(out, u, 8);
                true
            },
            _ => false,
        },
        PrimitiveValue::I128(v) => match k {
            PrimitiveKind::I128 => {
                let u: u128 = if *v >= 0 {
                    *v as u128
                } else {
                    u128::MAX - ((-(*v + 1)) as u128)
                };
                put_le(out, u, 16);
                true
            },
            _ => false,
        },
        PrimitiveValue::I256(b) => match k {
            PrimitiveKind::I256 => {
                put_bytes(out, b.as_slice());
                true
            },
            _ => false,
        },
    }
}

/// Appends the wire form of `v` against shape `s`; returns whether `v`
/// conforms (only then has `out` been extended with exactly the encoding).
pub fn encode_value_into(s: &Shape, v: &SubstrateValue, out: &mut Vec<u8>) -> (ok: bool)
    ensures
        ok == conforms(*s, v@),
        ok ==> final(out)@ == old(out)@ + enc_value(*s, v@),
    decreases shape_size(*s), 3nat,
{
    match s {
        Shape::Primitive(k) => match v {
            SubstrateValue::Primitive(p) => encode_prim(k, p, out),
            _ => false,
        },
        Shape::Named(_) => match v {
            SubstrateValue::Composite(c) => encode_comp(s, c, out),
            _ => false,
        },
        Shape::Unnamed(_) => match v {
            SubstrateValue::Composite(c) => encode_comp(s, c, out),
            _ => false,
        },
        Shape::Enumeration(arms) => match v {
            SubstrateValue::Variant(va) => {
            let mut i: usize = 0;
            while i < arms.len() && arms[i].name != va.name
                invariant
                    i <= arms@.len(),
                    forall|j: int| 0 <= j < i ==> arms@[j].name@ != va.name@,
                decreases arms@.len() - i,
            {
                i = i + 1;
            }
            proof {
                lemma_arm_index(arms@, va.name@);
            }
            if i == arms.len() {
                return false;
            }
            proof {
                assert(arms@[i as int].name@ == va.name@);
                assert(arm_index(arms@, va.name@) == i);
                lemma_arms_size_element(arms@, i as int);
            }
            if i >= 256 {
                return false;
            }
            out.push(i as u8);
            let ok = encode_comp(&arms[i].fields, &va.fields, out);
            proof {
                if ok {
                    assert(out@ =~= old(out)@ + enc_value(*s, v@));
                }
            }
                ok
            },
            _ => false,
        },
        Shape::Sequence(elem) => match v {
            SubstrateValue::Sequence(sv) => {
                proof {
                    lemma_vals_view(sv.values@);
                }
                if (sv.values.len() as u64) >= 0x1_0000_0000u64 {
                    return false;
                }
                put_compact(out, sv.values.len() as u32);
                let ok = encode_elems(elem, &sv.values, 0, out);
                proof {
                    assert(sv.values@.skip(0) =~= sv.values@);
                    if ok {
                        assert(out@ =~= old(out)@ + enc_value(*s, v@));
                    }
                }
                ok
            },
            _ => false,
        },
    }
}

/// Appends the wire form of composite fields against a composite shape.
fn encode_comp(s: &Shape, c: &CompositeValue, out: &mut Vec<u8>) -> (ok: bool)
    ensures
        ok == conforms(*s, SubstrateValueView::Composite(c@)),
        ok ==> final(out)@ == old(out)@ + enc_value(*s, SubstrateValueView::Composite(c@)),
    decreases shape_size(*s), 2nat,
{
    match s {
        Shape::Named(fs) => match c {
            CompositeValue::Named(fvs) => {
                proof {
                    lemma_named_view(fvs@);
                    assert(c@ == CompositeValueView::Named(named_view(fvs@)));
                    assert(*s == Shape::Named(*fs));
                    assert(conforms(*s, SubstrateValueView::Composite(c@))
                        == conforms_named(fs@, named_view(fvs@)));
                    assert(fs@.skip(0) =~= fs@);
                    assert(fvs@.skip(0) =~= fvs@);
                }
                if fs.len() != fvs.len() {
                    return false;
                }
                let ok = encode_named(fs, fvs, 0, out);
                ok
            },
            _ => false,
        },
        Shape::Unnamed(fs) => match c {
            CompositeValue::Unnamed(fvs) => {
                proof {
                    lemma_vals_view(fvs@);
                    assert(c@ == CompositeValueView::Unnamed(vals_view(fvs@)));
                    assert(*s == Shape::Unnamed(*fs));
                    assert(conforms(*s, SubstrateValueView::Composite(c@))
                        == conforms_list(fs@, vals_view(fvs@)));
                    assert(fs@.skip(0) =~= fs@);
                    assert(fvs@.skip(0) =~= fvs@);
                }
                if fs.len() != fvs.len() {
                    return false;
                }
                let ok = encode_list(fs, fvs, 0, out);
                ok
            },
            _ => false,
        },
        _ => false,
    }
}

/// Appends the named fields from position `i` on.
fn encode_named(
    fs: &Vec<(String, Shape)>,
    fvs: &Vec<(String, SubstrateValue)>,
    i: usize,
    out: &mut Vec<u8>,
) -> (ok: bool)
    requires
        fs@.len() == fvs@.len(),
        i <= fs@.len(),
    ensures
        ok == conforms_named(fs@.skip(i as int), named_view(fvs@.skip(i as int))),
        ok ==> final(out)@ == old(out)@ + enc_named(
            fs@.skip(i as int),
            named_view(fvs@.skip(i as int)),
        ),
    decreases named_shapes_size(fs@.skip(i as int)), 1nat,
{
    proof {
        lemma_named_view(fvs@.skip(i as int));
    }
    if i == fs.len() {
        assert(fs@.skip(i as int) =~= Seq::<(String, Shape)>::empty());
        assert(fvs@.skip(i as int) =~= Seq::<(String, SubstrateValue)>::empty());
        assert(out@ =~= old(out)@ + enc_named(fs@.skip(i as int), named_view(fvs@.skip(i as int))));
        true
    } else {
        proof {
            assert(fs@.skip(i as int)[0] == fs@[i as int]);
            assert(fvs@.skip(i as int)[0] == fvs@[i as int]);
            assert(fs@.skip(i as int).drop_first() =~= fs@.skip(i + 1));
            assert(fvs@.skip(i as int).drop_first() =~= fvs@.skip(i + 1));
            assert(named_view(fvs@.skip(i as int)).drop_first() =~= named_view(fvs@.skip(i + 1)));
        }
        if !(fs[i].0 == fvs[i].0) {
            return false;
        }
        let ok1 = encode_value_into(&fs[i].1, &fvs[i].1, out);
        if !ok1 {
            return false;
        }
        let ok = encode_named(fs, fvs, i + 1, out);
        proof {
            if ok {
                assert(out@ =~= old(out)@ + enc_named(
                    fs@.skip(i as int),
                    named_view(fvs@.skip(i as int)),
                ));
            }
        }
        ok
    }
}

/// Appends the unnamed fields from position `i` on.
fn encode_list(
    fs: &Vec<Shape>,
    fvs: &Vec<SubstrateValue>,
    i: usize,
    out: &mut Vec<u8>,
) -> (ok: bool)
    requires
        fs@.len() == fvs@.len(),
        i <= fs@.len(),
    ensures
        ok == conforms_list(fs@.skip(i as int), vals_view(fvs@.skip(i as int))),
        ok ==> final(out)@ == old(out)@ + enc_list(
            fs@.skip(i as int),
            vals_view(fvs@.skip(i as int)),
        ),
    decreases shapes_size(fs@.skip(i as int)), 1nat,
{
    proof {
        lemma_vals_view(fvs@.skip(i as int));
    }
    if i == fs.len() {
        assert(fs@.skip(i as int) =~= Seq::<Shape>::empty());
        assert(fvs@.skip(i as int) =~= Seq::<SubstrateValue>::empty());
        assert(out@ =~= old(out)@ + enc_list(fs@.skip(i as int), vals_view(fvs@.skip(i as int))));
        true
    } else {
        proof {
            assert(fs@.skip(i as int)[0] == fs@[i as int]);
            assert(fvs@.skip(i as int)[0] == fvs@[i as int]);
            assert(fs@.skip(i as int).drop_first() =~= fs@.skip(i + 1));
            assert(fvs@.skip(i as int).drop_first() =~= fvs@.skip(i + 1));
            assert(vals_view(fvs@.skip(i as int)).drop_first() =~= vals_view(fvs@.skip(i + 1)));
        }
        let ok1 = encode_value_into(&fs[i], &fvs[i], out);
        if !ok1 {
            return false;
        }
        let ok = encode_list(fs, fvs, i + 1, out);
        proof {
            if ok {
                assert(out@ =~= old(out)@ + enc_list(
                    fs@.skip(i as int),
                    vals_view(fvs@.skip(i as int)),
                ));
            }
        }
        ok
    }
}

/// Appends the sequence elements from position `i` on, all of shape `elem`.
fn encode_elems(elem: &Shape, fvs: &Vec<SubstrateValue>, i: usize, out: &mut Vec<u8>) -> (ok: bool)
    requires
        i <= fvs@.len(),
    ensures
        ok == conforms_elems(*elem, vals_view(fvs@.skip(i as int))),
        ok ==> final(out)@ == old(out)@ + enc_elems(*elem, vals_view(fvs@.skip(i as int))),
    decreases shape_size(*elem), fvs@.len() - i + 4,
{
    proof {
        lemma_vals_view(fvs@.skip(i as int));
    }
    if i == fvs.len() {
        assert(fvs@.skip(i as int) =~= Seq::<SubstrateValue>::empty());
        assert(out@ =~= old(out)@ + enc_elems(*elem, vals_view(fvs@.skip(i as int))));
        true
    } else {
        proof {
            assert(fvs@.skip(i as int)[0] == fvs@[i as int]);
            assert(fvs@.skip(i as int).drop_first() =~= fvs@.skip(i + 1));
            assert(vals_view(fvs@.skip(i as int)).drop_first() =~= vals_view(fvs@.skip(i + 1)));
        }
        let ok1 = encode_value_into(elem, &fvs[i], out);
        if !ok1 {
            return false;
        }
        let ok = encode_elems(elem, fvs, i + 1, out);
        proof {
            if ok {
                assert(out@ =~= old(out)@ + enc_elems(*elem, vals_view(fvs@.skip(i as int))));
            }
        }
        ok
    }
}


// ---------------------------------------------------------------------------
// Executable decoding.
// ---------------------------------------------------------------------------

/// Reads one primitive of kind `k` at `pos`; the parse is exactly `dec_prim`
/// of the bytes from `pos` on.
fn decode_prim_at(k: &PrimitiveKind, data: &[u8], pos: usize) -> (r: Result<
    (PrimitiveValue, usize),
    DecodeError,
>)
    requires
        pos <= data@.len(),
    ensures
        match r {
            Ok((p, q)) => {
                &&& pos <= q <= data@.len()
                &&& dec_prim(*k, data@.subrange(pos as int, data@.len() as int)) == Some(
                    (prim_view(p), (q - pos) as int),
                )
            },
            Err(_) => dec_prim(*k, data@.subrange(pos as int, data@.len() as int)) is None,
        },
{
    let ghost tail = data@.subrange(pos as int, data@.len() as int);
    proof {
        lemma_pow256_16();
    }
    match k {
        PrimitiveKind::Bool => match get_bool(data, pos) {
            Ok((b, q)) => Ok((PrimitiveValue::Bool(b), q)),
            Err(e) => Err(e),
        },
        PrimitiveKind::Char => {
            if data.len() - pos < 4 {
                return Err(DecodeError::Truncated);
            }
            let x = get_le(data, pos, 4);
            proof {
                assert(tail.subrange(0, 4) =~= data@.subrange(pos as int, pos + 4));
                lemma_le_val_bound(tail.subrange(0, 4));
            }
            let u = x as u32;
            match char_from_u32(u) {
                Some(c) => {
                    proof {
                        char_u32_cast(c, u);
                    }
                    Ok((PrimitiveValue::Char(c), pos + 4))
                },
                None => Err(DecodeError::Malformed),
            }
        },
        PrimitiveKind::Str => match get_str(data, pos) {
            Ok((t, q)) => Ok((PrimitiveValue::Str(t), q)),
            Err(e) => Err(e),
        },
        PrimitiveKind::U8 => {
            if data.len() - pos < 1 {
                return Err(DecodeError::Truncated);
            }
            let x = get_le(data, pos, 1);
            proof {
                assert(tail.subrange(0, 1) =~= data@.subrange(pos as int, pos + 1));
                lemma_le_val_bound(tail.subrange(0, 1));
            }
            Ok((PrimitiveValue::U8(x as u8), pos + 1))
        },
        PrimitiveKind::U16 => {
            if data.len() - pos < 2 {
                return Err(DecodeError::Truncated);
            }
            let x = get_le(data, pos, 2);
            proof {
                assert(tail.subrange(0, 2) =~= data@.subrange(pos as int, pos + 2));
                lemma_le_val_bound(tail.subrange(0, 2));
            }
            Ok((PrimitiveValue::U16(x as u16), pos + 2))
        },
        PrimitiveKind::U32 => {
            if data.len() - pos < 4 {
                return Err(DecodeError::Truncated);
            }
            let x = get_le(data, pos, 4);
            proof {
                assert(tail.subrange(0, 4) =~= data@.subrange(pos as int, pos + 4));
                lemma_le_val_bound(tail.subrange(0, 4));
            }
            Ok((PrimitiveValue::U32(x as u32), pos + 4))
        },
        PrimitiveKind::U64 => {
            if data.len() - pos < 8 {
                return Err(DecodeError::Truncated);
            }
            let x = get_le(data, pos, 8);
            proof {
                assert(tail.subrange(0, 8) =~= data@.subrange(pos as int, pos + 8));
                lemma_le_val_bound(tail.subrange(0, 8));
            }
            Ok((PrimitiveValue::U64(x as u64), pos + 8))
        },
        PrimitiveKind::U128 => {
            if data.len() - pos < 16 {
                return Err(DecodeError::Truncated);
            }
            let x = get_le(data, pos, 16);
            proof {
                assert(tail.subrange(0, 16) =~= data@.subrange(pos as int, pos + 16));
            }
            Ok((PrimitiveValue::U128(x), pos + 16))
        },
        PrimitiveKind::U256 => {
            if data.len() - pos < 32 {
                return Err(DecodeError::Truncated);
            }
            let a = read_array32(data, pos);
            proof {
                assert(a@ =~= tail.subrange(0, 32));
            }
            Ok((PrimitiveValue::U256(a), pos + 32))
        },
        PrimitiveKind::I8 => {
            if data.len() - pos < 1 {
                return Err(DecodeError::Truncated);
            }
            let x = get_le(data, pos, 1);
            proof {
                assert(tail.subrange(0, 1) =~= data@.subrange(pos as int, pos + 1));
                lemma_le_val_bound(tail.subrange(0, 1));
            }
            let v: i8 = if x < 0x80 {
                x as i8
            } else {
                ((x as i128) - 0x100) as i8
            };
            Ok((PrimitiveValue::I8(v), pos + 1))
        },
        PrimitiveKind::I16 => {
            if data.len() - pos < 2 {
                return Err(DecodeError::Truncated);
            }
            let x = get_le(data, pos, 2);
            proof {
                assert(tail.subrange(0, 2) =~= data@.subrange(pos as int, pos + 2));
                lemma_le_val_bound(tail.subrange(0, 2));
            }
            let v: i16 = if x < 0x8000 {
                x as i16
            } else {
                ((x as i128) - 0x1_0000) as i16
            };
            Ok((PrimitiveValue::I16(v), pos + 2))
        },
        PrimitiveKind::I32 => {
            if data.len() - pos < 4 {
                return Err(DecodeError::Truncated);
            }
            let x = get_le(data, pos, 4);
            proof {
                assert(tail.subrange(0, 4) =~= data@.subrange(pos as int, pos + 4));
                lemma_le_val_bound(tail.subrange(0, 4));
            }
            let v: i32 = if x < 0x8000_0000 {
                x as i32
            } else {
                ((x as i128) - 0x1_0000_0000) as i32
            };
            Ok((PrimitiveValue::I32(v), pos + 4))
        },
        PrimitiveKind::I64 => {
            if data.len() - pos < 8 {
                return Err(DecodeError::Truncated);
            }
            let x = get_le(data, pos, 8);
            proof {
                assert(tail.subrange(0, 8) =~= data@.subrange(pos as int, pos + 8));
                lemma_le_val_bound(tail.subrange(0, 8));
            }
            let v: i64 = if x < 0x8000_0000_0000_0000 {
                x as i64
            } else {
                ((x as i128) - 0x1_0000_0000_0000_0000) as i64
            };
            Ok((PrimitiveValue::I64(v), pos + 8))
        },
        PrimitiveKind::I128 => {
            if data.len() - pos < 16 {
                return Err(DecodeError::Truncated);
            }
            let x = get_le(data, pos, 16);
            proof {
                assert(tail.subrange(0, 16) =~= data@.subrange(pos as int, pos + 16));
            }
            let v: i128 = if x <= 0x7fff_ffff_ffff_ffff_ffff_ffff_ffff_ffffu128 {
                x as i128
            } else {
                let d = u128::MAX - x;
                -(d as i128) - 1
            };
            Ok((PrimitiveValue::I128(v), pos + 16))
        },
        PrimitiveKind::I256 => {
            if data.len() - pos < 32 {
                return Err(DecodeError::Truncated);
            }
            let a = read_array32(data, pos);
            proof {
                assert(a@ =~= tail.subrange(0, 32));
            }
            Ok((PrimitiveValue::I256(a), pos + 32))
        },
    }
}

/// Copies the 32 bytes at `pos` into a fixed array.
fn read_array32(data: &[u8], pos: usize) -> (r: [u8; 32])
    requires
        pos + 32 <= data@.len(),
    ensures
        forall|j: int| 0 <= j < 32 ==> r@[j] == data@[pos + j],
{
    let mut a: [u8; 32] = [0u8; 32];
    let n = data.len();
    let mut i: usize = 0;
    while i < 32
        invariant
            i <= 32,
            pos + 32 <= data@.len(),
            n == data@.len(),
            forall|j: int| 0 <= j < i ==> a@[j] == data@[pos + j],
        decreases 32 - i,
    {
        a[i] = data[pos + i];
        i = i + 1;
    }
    a
}

/// Reads one value of shape `s` at `pos`; the parse is exactly `dec_value`
/// of the bytes from `pos` on. Fails without returning a partial value.
pub fn decode_value_at(s: &Shape, data: &[u8], pos: usize) -> (r: Result<
    (SubstrateValue, usize),
    DecodeError,
>)
    requires
        pos <= data@.len(),
    ensures
        match r {
            Ok((v, q)) => {
                &&& pos <= q <= data@.len()
                &&& dec_value(*s, data@.subrange(pos as int, data@.len() as int)) == Some(
                    (v@, (q - pos) as int),
                )
            },
            Err(_) => dec_value(*s, data@.subrange(pos as int, data@.len() as int)) is None,
        },
    decreases shape_size(*s), 3nat,
{
    let ghost tail = data@.subrange(pos as int, data@.len() as int);
    match s {
        Shape::Primitive(k) => match decode_prim_at(k, data, pos) {
            Ok((p, q)) => Ok((SubstrateValue::Primitive(p), q)),
            Err(e) => Err(e),
        },
        Shape::Named(fs) => {
            let mut fields: Vec<(String, SubstrateValue)> = Vec::new();
            proof {
                assert(fs@.skip(0) =~= fs@);
            }
            match decode_named_at(fs, 0, data, pos, &mut fields) {
                Ok(q) => {
                    proof {
                        assert(fields@.skip(0) =~= fields@);
                    }
                    Ok((SubstrateValue::Composite(CompositeValue::Named(fields)), q))
                },
                Err(e) => Err(e),
            }
        },
        Shape::Unnamed(fs) => {
            let mut vals: Vec<SubstrateValue> = Vec::new();
            proof {
                assert(fs@.skip(0) =~= fs@);
            }
            match decode_list_at(fs, 0, data, pos, &mut vals) {
                Ok(q) => {
                    proof {
                        assert(vals@.skip(0) =~= vals@);
                    }
                    Ok((SubstrateValue::Composite(CompositeValue::Unnamed(vals)), q))
                },
                Err(e) => Err(e),
            }
        },
        Shape::Enumeration(arms) => {
            if pos >= data.len() {
                return Err(DecodeError::Truncated);
            }
            let idx = data[pos];
            proof {
                assert(tail[0] == idx);
                assert(tail.drop_first() =~= data@.subrange(pos + 1, data@.len() as int));
            }
            if (idx as usize) < arms.len() {
                proof {
                    lemma_arms_size_element(arms@, idx as int);
                }
                match decode_value_at(&arms[idx as usize].fields, data, pos + 1) {
                    Ok((fv, q)) => match fv {
                        SubstrateValue::Composite(cv) => {
                            let name = arms[idx as usize].name.clone();
                            Ok((SubstrateValue::Variant(VariantValue { name, fields: cv }), q))
                        },
                        SubstrateValue::Variant(other) => Err(DecodeError::Malformed),
                        SubstrateValue::Sequence(other) => Err(DecodeError::Malformed),
                        SubstrateValue::Primitive(other) => Err(DecodeError::Malformed),
                    },
                    Err(e) => Err(e),
                }
            } else {
                Err(DecodeError::Malformed)
            }
        },
        Shape::Sequence(elem) => match get_compact(data, pos) {
            Ok((cnt, p)) => {
                let mut vals: Vec<SubstrateValue> = Vec::new();
                proof {
                    assert(tail.skip(p - pos) =~= data@.subrange(p as int, data@.len() as int));
                }
                match decode_elems_at(elem, cnt, data, p, &mut vals) {
                    Ok(q) => {
                        proof {
                            assert(vals@.skip(0) =~= vals@);
                        }
                        Ok((SubstrateValue::Sequence(SequenceValue { values: vals }), q))
                    },
                    Err(e) => Err(e),
                }
            },
            Err(e) => Err(e),
        },
    }
}

/// Reads the named fields from `fs[i]` on, appending them to `fields`.
fn decode_named_at(
    fs: &Vec<(String, Shape)>,
    i: usize,
    data: &[u8],
    pos: usize,
    fields: &mut Vec<(String, SubstrateValue)>,
) -> (r: Result<usize, DecodeError>)
    requires
        i <= fs@.len(),
        pos <= data@.len(),
    ensures
        match r {
            Ok(q) => {
                &&& pos <= q <= data@.len()
                &&& final(fields)@.len() >= old(fields)@.len()
                &&& final(fields)@.take(old(fields)@.len() as int) == old(fields)@
                &&& dec_named(
                    fs@.skip(i as int),
                    data@.subrange(pos as int, data@.len() as int),
                ) == Some(
                    (
                        named_view(final(fields)@.skip(old(fields)@.len() as int)),
                        (q - pos) as int,
                    ),
                )
            },
            Err(_) => dec_named(
                fs@.skip(i as int),
                data@.subrange(pos as int, data@.len() as int),
            ) is None,
        },
    decreases named_shapes_size(fs@.skip(i as int)), 1nat,
{
    let ghost tail = data@.subrange(pos as int, data@.len() as int);
    if i == fs.len() {
        proof {
            assert(fs@.skip(i as int) =~= Seq::<(String, Shape)>::empty());
            assert(fields@.take(fields@.len() as int) =~= fields@);
            assert(fields@.skip(fields@.len() as int) =~= Seq::<(String, SubstrateValue)>::empty());
            assert(named_view(Seq::empty()) =~= Seq::<(Seq<char>, SubstrateValueView)>::empty());
        }
        Ok(pos)
    } else {
        proof {
            assert(fs@.skip(i as int)[0] == fs@[i as int]);
            assert(fs@.skip(i as int).drop_first() =~= fs@.skip(i + 1));
        }
        let (v0, q1) = match decode_value_at(&fs[i].1, data, pos) {
            Ok(x) => x,
            Err(e) => {
                return Err(e);
            },
        };
        let name = fs[i].0.clone();
        fields.push((name, v0));
        let ghost mid = fields@;
        proof {
            assert(tail.skip(q1 - pos) =~= data@.subrange(q1 as int, data@.len() as int));
        }
        match decode_named_at(fs, i + 1, data, q1, fields) {
            Ok(q) => {
                proof {
                    let oldlen = old(fields)@.len() as int;
                    assert(fields@.take(mid.len() as int)[oldlen] == fields@[oldlen]);
                    assert(fields@[oldlen] == mid[oldlen]);
                    assert(fields@.take(oldlen) =~= mid.take(oldlen));
                    assert(mid.take(oldlen) =~= old(fields)@);
                    let whole_new = fields@.skip(oldlen);
                    assert(whole_new[0] == fields@[oldlen]);
                    assert(whole_new.drop_first() =~= fields@.skip(oldlen + 1));
                    assert(named_view(whole_new) == seq![(mid[oldlen].0@, val_view(mid[oldlen].1))]
                        + named_view(fields@.skip(oldlen + 1)));
                }
                Ok(q)
            },
            Err(e) => Err(e),
        }
    }
}

/// Reads the unnamed fields from `fs[i]` on, appending them to `vals`.
fn decode_list_at(
    fs: &Vec<Shape>,
    i: usize,
    data: &[u8],
    pos: usize,
    vals: &mut Vec<SubstrateValue>,
) -> (r: Result<usize, DecodeError>)
    requires
        i <= fs@.len(),
        pos <= data@.len(),
    ensures
        match r {
            Ok(q) => {
                &&& pos <= q <= data@.len()
                &&& final(vals)@.len() >= old(vals)@.len()
                &&& final(vals)@.take(old(vals)@.len() as int) == old(vals)@
                &&& dec_list(
                    fs@.skip(i as int),
                    data@.subrange(pos as int, data@.len() as int),
                ) == Some(
                    (vals_view(final(vals)@.skip(old(vals)@.len() as int)), (q - pos) as int),
                )
            },
            Err(_) => dec_list(
                fs@.skip(i as int),
                data@.subrange(pos as int, data@.len() as int),
            ) is None,
        },
    decreases shapes_size(fs@.skip(i as int)), 1nat,
{
    let ghost tail = data@.subrange(pos as int, data@.len() as int);
    if i == fs.len() {
        proof {
            assert(fs@.skip(i as int) =~= Seq::<Shape>::empty());
            assert(vals@.take(vals@.len() as int) =~= vals@);
            assert(vals@.skip(vals@.len() as int) =~= Seq::<SubstrateValue>::empty());
            assert(vals_view(Seq::empty()) =~= Seq::<SubstrateValueView>::empty());
        }
        Ok(pos)
    } else {
        proof {
            assert(fs@.skip(i as int)[0] == fs@[i as int]);
            assert(fs@.skip(i as int).drop_first() =~= fs@.skip(i + 1));
        }
        let (v0, q1) = match decode_value_at(&fs[i], data, pos) {
            Ok(x) => x,
            Err(e) => {
                return Err(e);
            },
        };
        vals.push(v0);
        let ghost mid = vals@;
        proof {
            assert(tail.skip(q1 - pos) =~= data@.subrange(q1 as int, data@.len() as int));
        }
        match decode_list_at(fs, i + 1, data, q1, vals) {
            Ok(q) => {
                proof {
                    let oldlen = old(vals)@.len() as int;
                    assert(vals@.take(mid.len() as int)[oldlen] == vals@[oldlen]);
                    assert(vals@[oldlen] == mid[oldlen]);
                    assert(vals@.take(oldlen) =~= mid.take(oldlen));
                    assert(mid.take(oldlen) =~= old(vals)@);
                    let whole_new = vals@.skip(oldlen);
                    assert(whole_new[0] == vals@[oldlen]);
                    assert(whole_new.drop_first() =~= vals@.skip(oldlen + 1));
                    assert(vals_view(whole_new) == seq![val_view(mid[oldlen])] + vals_view(
                        vals@.skip(oldlen + 1),
                    ));
                }
                Ok(q)
            },
            Err(e) => Err(e),
        }
    }
}

/// Reads `cnt` sequence elements of shape `elem`, appending them to `vals`.
fn decode_elems_at(
    elem: &Shape,
    cnt: u32,
    data: &[u8],
    pos: usize,
    vals: &mut Vec<SubstrateValue>,
) -> (r: Result<usize, DecodeError>)
    requires
        pos <= data@.len(),
    ensures
        match r {
            Ok(q) => {
                &&& pos <= q <= data@.len()
                &&& final(vals)@.len() >= old(vals)@.len()
                &&& final(vals)@.take(old(vals)@.len() as int) == old(vals)@
                &&& dec_elems(
                    *elem,
                    data@.subrange(pos as int, data@.len() as int),
                    cnt as nat,
                ) == Some(
                    (vals_view(final(vals)@.skip(old(vals)@.len() as int)), (q - pos) as int),
                )
            },
            Err(_) => dec_elems(
                *elem,
                data@.subrange(pos as int, data@.len() as int),
                cnt as nat,
            ) is None,
        },
    decreases shape_size(*elem), cnt + 4,
{
    let ghost tail = data@.subrange(pos as int, data@.len() as int);
    if cnt == 0 {
        proof {
            assert(vals@.take(vals@.len() as int) =~= vals@);
            assert(vals@.skip(vals@.len() as int) =~= Seq::<SubstrateValue>::empty());
            assert(vals_view(Seq::empty()) =~= Seq::<SubstrateValueView>::empty());
        }
        Ok(pos)
    } else {
        let (v0, q1) = match decode_value_at(elem, data, pos) {
            Ok(x) => x,
            Err(e) => {
                return Err(e);
            },
        };
        vals.push(v0);
        let ghost mid = vals@;
        proof {
            assert(tail.skip(q1 - pos) =~= data@.subrange(q1 as int, data@.len() as int));
        }
        match decode_elems_at(elem, cnt - 1, data, q1, vals) {
            Ok(q) => {
                proof {
                    let oldlen = old(vals)@.len() as int;
                    assert(vals@.take(mid.len() as int)[oldlen] == vals@[oldlen]);
                    assert(vals@[oldlen] == mid[oldlen]);
                    assert(vals@.take(oldlen) =~= mid.take(oldlen));
                    assert(mid.take(oldlen) =~= old(vals)@);
                    let whole_new = vals@.skip(oldlen);
                    assert(whole_new[0] == vals@[oldlen]);
                    assert(whole_new.drop_first() =~= vals@.skip(oldlen + 1));
                    assert(vals_view(whole_new) == seq![val_view(mid[oldlen])] + vals_view(
                        vals@.skip(oldlen + 1),
                    ));
                }
                Ok(q)
            },
            Err(e) => Err(e),
        }
    }
}

impl SubstrateValue {
    /// Encodes `self` against `shape`; yields `None` exactly when `self`
    /// does not conform to the shape, and otherwise the exact wire bytes.
    pub fn encode(&self, shape: &Shape) -> (r: Option<Vec<u8>>)
        ensures
            match r {
                Some(b) => conforms(*shape, self@) && b@ == enc_value(*shape, self@),
                None => !conforms(*shape, self@),
            },
    {
        let mut out: Vec<u8> = Vec::new();
        if encode_value_into(shape, self, &mut out) {
            Some(out)
        } else {
            None
        }
    }

    /// Decodes one value of `shape` from the front of `data`, returning it
    /// with the count of bytes consumed; fails exactly when `dec_value` has
    /// no parse, and never returns a partial value.
    pub fn decode(shape: &Shape, data: &[u8]) -> (r: Result<
        (SubstrateValue, usize),
        DecodeError,
    >)
        ensures
            match r {
                Ok((v, n)) => n <= data@.len() && dec_value(*shape, data@) == Some(
                    (v@, n as int),
                ),
                Err(_) => dec_value(*shape, data@) is None,
            },
    {
        proof {
            assert(data@.subrange(0, data@.len() as int) =~= data@);
        }
        decode_value_at(shape, data, 0)
    }
}


} // verus!
