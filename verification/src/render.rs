//! Canonical human-readable rendering of decoded values, mirroring the
//! syntax of the type each value represents: `{ label: value, … }` for named
//! composites, `(value, …)` for unnamed ones, `tag(fields…)` for variants,
//! `[value, …]` for sequences, and a distinguishing `BigNum([…])` form for
//! the 256-bit kinds so they are never confused with a byte sequence.
//! `render_value` gives the exact character sequence produced.

use vstd::prelude::*;
use vstd::string::StringExecFns;
use crate::codec::string_push;
use crate::substrate_value::{CompositeValue, CompositeValueView, PrimitiveValue,
    PrimitiveValueView, SequenceValue, SubstrateValue, SubstrateValueView, VariantValue,
    val_view, comp_view, prim_view, vals_view, named_view, lemma_vals_view, lemma_named_view};

verus! {

broadcast use vstd::std_specs::vec::group_vec_axioms, vstd::seq::group_seq_axioms;

pub open spec fn digit_char(d: nat) -> char {
    if d == 0 {
        '0'
    } else if d == 1 {
        '1'
    } else if d == 2 {
        '2'
    } else if d == 3 {
        '3'
    } else if d == 4 {
        '4'
    } else if d == 5 {
        '5'
    } else if d == 6 {
        '6'
    } else if d == 7 {
        '7'
    } else if d == 8 {
        '8'
    } else {
        '9'
    }
}

/// The decimal digits of `n`, most significant first.
pub open spec fn dec_digits(n: nat) -> Seq<char>
    decreases n,
{
    if n < 10 {
        seq![digit_char(n)]
    } else {
        dec_digits(n / 10) + seq![digit_char(n % 10)]
    }
}

/// The decimal form of a signed value: a minus sign before the magnitude.
pub open spec fn int_digits(v: int) -> Seq<char> {
    if v >= 0 {
        dec_digits(v as nat)
    } else {
        seq!['-'] + dec_digits((-v) as nat)
    }
}

/// A comma-separated list of byte values.
pub open spec fn render_byte_list(bs: Seq<u8>) -> Seq<char>
    decreases bs.len(),
{
    if bs.len() == 0 {
        Seq::empty()
    } else if bs.len() == 1 {
        dec_digits(bs[0] as nat)
    } else {
        dec_digits(bs[0] as nat) + seq![',', ' '] + render_byte_list(bs.drop_first())
    }
}

pub open spec fn render_prim(p: PrimitiveValueView) -> Seq<char> {
    match p {
        PrimitiveValueView::Bool(b) => if b {
            "true"@
        } else {
            "false"@
        },
        PrimitiveValueView::Char(c) => seq!['\''] + seq![c] + seq!['\''],
        PrimitiveValueView::Str(s) => seq!['"'] + s + seq!['"'],
        PrimitiveValueView::U8(v) => dec_digits(v as nat),
        PrimitiveValueView::U16(v) => dec_digits(v as nat),
        PrimitiveValueView::U32(v) => dec_digits(v as nat),
        PrimitiveValueView::U64(v) => dec_digits(v as nat),
        PrimitiveValueView::U128(v) => dec_digits(v as nat),
        PrimitiveValueView::U256(bs) => "BigNum(["@ + render_byte_list(bs) + "])"@,
        PrimitiveValueView::I8(v) => int_digits(v as int),
        PrimitiveValueView::I16(v) => int_digits(v as int),
        PrimitiveValueView::I32(v) => int_digits(v as int),
        PrimitiveValueView::I64(v) => int_digits(v as int),
        PrimitiveValueView::I128(v) => int_digits(v as int),
        PrimitiveValueView::I256(bs) => "BigNum(["@ + render_byte_list(bs) + "])"@,
    }
}

/// The canonical rendering of a value.
pub open spec fn render_value(v: SubstrateValueView) -> Seq<char>
    decreases v,
{
    match v {
        SubstrateValueView::Composite(c) => render_comp(c),
        SubstrateValueView::Variant(va) => va.name + render_comp(va.fields),
        SubstrateValueView::Sequence(vs) => seq!['['] + render_list(vs) + seq![']'],
        SubstrateValueView::Primitive(p) => render_prim(p),
    }
}

pub open spec fn render_comp(c: CompositeValueView) -> Seq<char>
    decreases c,
{
    match c {
        CompositeValueView::Named(fs) => if fs.len() == 0 {
            "{}"@
        } else {
            "{ "@ + render_named(fs) + " }"@
        },
        CompositeValueView::Unnamed(vs) => seq!['('] + render_list(vs) + seq![')'],
    }
}

pub open spec fn render_list(vs: Seq<SubstrateValueView>) -> Seq<char>
    decreases vs,
{
    if vs.len() == 0 {
        Seq::empty()
    } else if vs.len() == 1 {
        render_value(vs[0])
    } else {
        render_value(vs[0]) + seq![',', ' '] + render_list(vs.drop_first())
    }
}

pub open spec fn render_named(fs: Seq<(Seq<char>, SubstrateValueView)>) -> Seq<char>
    decreases fs,
{
    if fs.len() == 0 {
        Seq::empty()
    } else if fs.len() == 1 {
        fs[0].0 + ": "@ + render_value(fs[0].1)
    } else {
        fs[0].0 + ": "@ + render_value(fs[0].1) + seq![',', ' '] + render_named(fs.drop_first())
    }
}

// ---------------------------------------------------------------------------
// Size measures: the termination measures of the executable recursion.
// ---------------------------------------------------------------------------

pub open spec fn val_size(v: SubstrateValue) -> nat
    decreases v,
{
    match v {
        SubstrateValue::Composite(c) => 1 + comp_size(c),
        SubstrateValue::Variant(va) => 1 + comp_size(va.fields),
        SubstrateValue::Sequence(sv) => 1 + vals_size(sv.values@),
        SubstrateValue::Primitive(_) => 1,
    }
}

pub open spec fn comp_size(c: CompositeValue) -> nat
    decreases c,
{
    match c {
        CompositeValue::Named(fs) => 1 + named_size(fs@),
        CompositeValue::Unnamed(fs) => 1 + vals_size(fs@),
    }
}

pub open spec fn vals_size(s: Seq<SubstrateValue>) -> nat
    decreases s,
{
    if s.len() == 0 {
        0
    } else {
        1 + val_size(s[0]) + vals_size(s.drop_first())
    }
}

pub open spec fn named_size(s: Seq<(String, SubstrateValue)>) -> nat
    decreases s,
{
    if s.len() == 0 {
        0
    } else {
        1 + val_size(s[0].1) + named_size(s.drop_first())
    }
}

// ---------------------------------------------------------------------------
// Executable rendering.
// ---------------------------------------------------------------------------

/// Appends the decimal digits of `v`.
fn render_u128_into(v: u128, out: &mut String)
    ensures
        final(out)@ == old(out)@ + dec_digits(v as nat),
    decreases v,
{
    if v >= 10 {
        render_u128_into(v / 10, out);
    }
    let d = (v % 10) as u8;
    let c: char = if d == 0 {
        '0'
    } else if d == 1 {
        '1'
    } else if d == 2 {
        '2'
    } else if d == 3 {
        '3'
    } else if d == 4 {
        '4'
    } else if d == 5 {
        '5'
    } else if d == 6 {
        '6'
    } else if d == 7 {
        '7'
    } else if d == 8 {
        '8'
    } else {
        '9'
    };
    string_push(out, c);
    assert(out@ =~= old(out)@ + dec_digits(v as nat));
}

/// Appends the decimal form of a signed value.
fn render_i128_into(v: i128, out: &mut String)
    ensures
        final(out)@ == old(out)@ + int_digits(v as int),
{
    if v >= 0 {
        render_u128_into(v as u128, out);
    } else {
        string_push(out, '-');
        let mag: u128 = ((-(v + 1)) as u128) + 1;
        render_u128_into(mag, out);
        assert(out@ =~= old(out)@ + int_digits(v as int));
    }
}

/// Appends the comma-separated byte values of a 256-bit quantity, from
/// position `i` on.
fn render_bytes_into(b: &[u8], i: usize, out: &mut String)
    requires
        i <= b@.len(),
    ensures
        final(out)@ == old(out)@ + render_byte_list(b@.skip(i as int)),
    decreases b@.len() - i,
{
    if i == b.len() {
        assert(b@.skip(i as int) =~= Seq::<u8>::empty());
        assert(out@ =~= old(out)@ + render_byte_list(b@.skip(i as int)));
    } else {
        proof {
            assert(b@.skip(i as int)[0] == b@[i as int]);
            assert(b@.skip(i as int).drop_first() =~= b@.skip(i + 1));
        }
        render_u128_into(b[i] as u128, out);
        if i + 1 < b.len() {
            string_push(out, ',');
            string_push(out, ' ');
            render_bytes_into(b, i + 1, out);
        }
        assert(out@ =~= old(out)@ + render_byte_list(b@.skip(i as int)));
    }
}

/// Appends the rendering of one primitive value.
fn render_prim_into(p: &PrimitiveValue, out: &mut String)
    ensures
        final(out)@ == old(out)@ + render_prim(prim_view(*p)),
{
    match p {
        PrimitiveValue::Bool(b) => {
            proof {
                reveal_strlit("true");
                reveal_strlit("false");
            }
            if *b {
                out.append("true");
            } else {
                out.append("false");
            }
        },
        PrimitiveValue::Char(c) => {
            string_push(out, '\'');
            string_push(out, *c);
            string_push(out, '\'');
            assert(out@ =~= old(out)@ + render_prim(prim_view(*p)));
        },
        PrimitiveValue::Str(s) => {
            string_push(out, '"');
            out.append(s.as_str());
            string_push(out, '"');
            assert(out@ =~= old(out)@ + render_prim(prim_view(*p)));
        },
        PrimitiveValue::U8(v) => {
            render_u128_into(*v as u128, out);
        },
        PrimitiveValue::U16(v) => {
            render_u128_into(*v as u128, out);
        },
        PrimitiveValue::U32(v) => {
            render_u128_into(*v as u128, out);
        },
        PrimitiveValue::U64(v) => {
            render_u128_into(*v as u128, out);
        },
        PrimitiveValue::U128(v) => {
            render_u128_into(*v, out);
        },
        PrimitiveValue::U256(b) => {
            proof {
                reveal_strlit("BigNum([");
                reveal_strlit("])");
            }
            out.append("BigNum([");
            render_bytes_into(b.as_slice(), 0, out);
            out.append("])");
            proof {
                assert(b@.skip(0) =~= b@);
                assert(out@ =~= old(out)@ + render_prim(prim_view(*p)));
            }
        },
        PrimitiveValue::I8(v) => {
            render_i128_into(*v as i128, out);
        },
        PrimitiveValue::I16(v) => {
            render_i128_into(*v as i128, out);
        },
        PrimitiveValue::I32(v) => {
            render_i128_into(*v as i128, out);
        },
        PrimitiveValue::I64(v) => {
            render_i128_into(*v as i128, out);
        },
        PrimitiveValue::I128(v) => {
            render_i128_into(*v, out);
        },
        PrimitiveValue::I256(b) => {
            proof {
                reveal_strlit("BigNum([");
                reveal_strlit("])");
            }
            out.append("BigNum([");
            render_bytes_into(b.as_slice(), 0, out);
            out.append("])");
            proof {
                assert(b@.skip(0) =~= b@);
                assert(out@ =~= old(out)@ + render_prim(prim_view(*p)));
            }
        },
    }
}

/// Appends the rendering of a value tree.
fn render_into(v: &SubstrateValue, out: &mut String)
    ensures
        final(out)@ == old(out)@ + render_value(val_view(*v)),
    decreases val_size(*v),
{
    match v {
        SubstrateValue::Composite(c) => {
            render_comp_into(c, out);
        },
        SubstrateValue::Variant(va) => {
            out.append(va.name.as_str());
            render_comp_into(&va.fields, out);
            assert(out@ =~= old(out)@ + render_value(val_view(*v)));
        },
        SubstrateValue::Sequence(sv) => {
            string_push(out, '[');
            proof {
                assert(sv.values@.skip(0) =~= sv.values@);
            }
            render_list_into(&sv.values, 0, out);
            string_push(out, ']');
            proof {
                lemma_vals_view(sv.values@);
                assert(out@ =~= old(out)@ + render_value(val_view(*v)));
            }
        },
        SubstrateValue::Primitive(p) => {
            render_prim_into(p, out);
        },
    }
}

/// Appends the rendering of composite fields.
fn render_comp_into(c: &CompositeValue, out: &mut String)
    ensures
        final(out)@ == old(out)@ + render_comp(comp_view(*c)),
    decreases comp_size(*c),
{
    match c {
        CompositeValue::Named(fs) => {
            proof {
                lemma_named_view(fs@);
                reveal_strlit("{}");
                reveal_strlit("{ ");
                reveal_strlit(" }");
            }
            if fs.len() == 0 {
                out.append("{}");
            } else {
                out.append("{ ");
                proof {
                    assert(fs@.skip(0) =~= fs@);
                }
                render_named_into(fs, 0, out);
                out.append(" }");
                assert(out@ =~= old(out)@ + render_comp(comp_view(*c)));
            }
        },
        CompositeValue::Unnamed(fs) => {
            string_push(out, '(');
            proof {
                assert(fs@.skip(0) =~= fs@);
            }
            render_list_into(fs, 0, out);
            string_push(out, ')');
            assert(out@ =~= old(out)@ + render_comp(comp_view(*c)));
        },
    }
}

/// Appends the comma-separated renderings of the values from position `i` on.
fn render_list_into(fs: &Vec<SubstrateValue>, i: usize, out: &mut String)
    requires
        i <= fs@.len(),
    ensures
        final(out)@ == old(out)@ + render_list(vals_view(fs@.skip(i as int))),
    decreases vals_size(fs@.skip(i as int)),
{
    proof {
        lemma_vals_view(fs@.skip(i as int));
    }
    if i == fs.len() {
        assert(fs@.skip(i as int) =~= Seq::<SubstrateValue>::empty());
        assert(out@ =~= old(out)@ + render_list(vals_view(fs@.skip(i as int))));
    } else {
        proof {
            assert(fs@.skip(i as int)[0] == fs@[i as int]);
            assert(fs@.skip(i as int).drop_first() =~= fs@.skip(i + 1));
            assert(vals_view(fs@.skip(i as int)).drop_first() =~= vals_view(fs@.skip(i + 1)));
        }
        render_into(&fs[i], out);
        if i + 1 < fs.len() {
            string_push(out, ',');
            string_push(out, ' ');
            render_list_into(fs, i + 1, out);
        }
        assert(out@ =~= old(out)@ + render_list(vals_view(fs@.skip(i as int))));
    }
}

/// Appends the comma-separated `label: value` renderings from position `i` on.
fn render_named_into(fs: &Vec<(String, SubstrateValue)>, i: usize, out: &mut String)
    requires
        i <= fs@.len(),
    ensures
        final(out)@ == old(out)@ + render_named(named_view(fs@.skip(i as int))),
    decreases named_size(fs@.skip(i as int)),
{
    proof {
        lemma_named_view(fs@.skip(i as int));
        reveal_strlit(": ");
    }
    if i == fs.len() {
        assert(fs@.skip(i as int) =~= Seq::<(String, SubstrateValue)>::empty());
        assert(out@ =~= old(out)@ + render_named(named_view(fs@.skip(i as int))));
    } else {
        proof {
            assert(fs@.skip(i as int)[0] == fs@[i as int]);
            assert(fs@.skip(i as int).drop_first() =~= fs@.skip(i + 1));
            assert(named_view(fs@.skip(i as int)).drop_first() =~= named_view(fs@.skip(i + 1)));
        }
        out.append(fs[i].0.as_str());
        out.append(": ");
        render_into(&fs[i].1, out);
        if i + 1 < fs.len() {
            string_push(out, ',');
            string_push(out, ' ');
            render_named_into(fs, i + 1, out);
        }
        assert(out@ =~= old(out)@ + render_named(named_view(fs@.skip(i as int))));
    }
}

impl SubstrateValue {
    /// The canonical human-readable form of this value — deterministic and
    /// infallible; exactly `render_value` of the view.
    pub fn render(&self) -> (r: String)
        ensures
            r@ == render_value(self@),
    {
        let mut out = String::new();
        render_into(self, &mut out);
        proof {
            assert(out@ =~= render_value(val_view(*self)));
        }
        out
    }
}

impl PrimitiveValue {
    /// The canonical human-readable form of this primitive.
    pub fn render(&self) -> (r: String)
        ensures
            r@ == render_prim(self@),
    {
        let mut out = String::new();
        render_prim_into(self, &mut out);
        proof {
            assert(out@ =~= render_prim(prim_view(*self)));
        }
        out
    }
}

impl CompositeValue {
    /// The canonical human-readable form of these composite fields.
    pub fn render(&self) -> (r: String)
        ensures
            r@ == render_comp(self@),
    {
        let mut out = String::new();
        render_comp_into(self, &mut out);
        proof {
            assert(out@ =~= render_comp(comp_view(*self)));
        }
        out
    }
}

impl VariantValue {
    /// The canonical form `tag(fields…)` (or `tag{ … }` for named fields).
    pub fn render(&self) -> (r: String)
        ensures
            r@ == self.name@ + render_comp(self.fields@),
    {
        let mut out = String::new();
        out.append(self.name.as_str());
        render_comp_into(&self.fields, &mut out);
        out
    }
}

impl SequenceValue {
    /// The canonical bracketed list form.
    pub fn render(&self) -> (r: String)
        ensures
            r@ == seq!['['] + render_list(self@) + seq![']'],
    {
        let mut out = String::new();
        string_push(&mut out, '[');
        proof {
            assert(self.values@.skip(0) =~= self.values@);
        }
        render_list_into(&self.values, 0, &mut out);
        string_push(&mut out, ']');
        proof {
            assert(out@ =~= seq!['['] + render_list(vals_view(self.values@)) + seq![']']);
        }
        out
    }
}

} // verus!
