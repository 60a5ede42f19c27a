//! The dual-representation cell: every schema field holds either a cheap
//! descriptor — static data behind a zero-argument production rule — or an
//! owned, decoded value. Encoding and equality go through the *effective*
//! value only, so the representation never shows on the wire or in
//! comparisons.

use vstd::prelude::*;

verus! {

/// A zero-argument production rule: the descriptor side of a cell yields its
/// materialized form through this trait.
pub trait Produce<O>: Sized {
    /// The value this descriptor yields.
    spec fn spec_produce(&self) -> O;

    /// Yields the materialized value.
    fn produce(self) -> (r: O)
        ensures
            r == self.spec_produce(),
    ;

    /// Borrows the materialized value without consuming the descriptor.
    fn borrow_produced(&self) -> (r: &O)
        ensures
            *r == self.spec_produce(),
    ;
}

/// A cell holding either a descriptor (`Encode`) or an owned, decoded value
/// (`Decoded`). Two cells with equal effective values are indistinguishable
/// to encoding and equality.
#[derive(Debug)]
pub enum DecodeDifferent<B, O> {
    Encode(B),
    Decoded(O),
}

impl<B: Produce<O>, O> DecodeDifferent<B, O> {
    /// The effective (materialized) content, regardless of representation.
    pub open spec fn effective(self) -> O {
        match self {
            DecodeDifferent::Encode(b) => b.spec_produce(),
            DecodeDifferent::Decoded(o) => o,
        }
    }

    /// Forces the cell into its owned form. Idempotent in effect: the result
    /// is exactly the effective content.
    pub fn materialize(self) -> (r: O)
        ensures
            r == self.effective(),
    {
        match self {
            DecodeDifferent::Encode(b) => b.produce(),
            DecodeDifferent::Decoded(o) => o,
        }
    }

    /// Borrows the effective content.
    pub fn get(&self) -> (r: &O)
        ensures
            *r == self.effective(),
    {
        match self {
            DecodeDifferent::Encode(b) => b.borrow_produced(),
            DecodeDifferent::Decoded(o) => o,
        }
    }
}

/// A production rule holding its static data by value: the descriptor form
/// used for compile-time schema tables.
#[derive(Debug)]
pub struct FnEncode<E> {
    pub value: E,
}

impl<E> Produce<E> for FnEncode<E> {
    open spec fn spec_produce(&self) -> E {
        self.value
    }

    fn produce(self) -> (r: E) {
        self.value
    }

    fn borrow_produced(&self) -> (r: &E) {
        &self.value
    }
}

/// A production rule for a lazily built default byte value.
#[derive(Debug)]
pub struct DefaultByteGetter {
    pub value: Vec<u8>,
}

impl Produce<Vec<u8>> for DefaultByteGetter {
    open spec fn spec_produce(&self) -> Vec<u8> {
        self.value
    }

    fn produce(self) -> (r: Vec<u8>) {
        self.value
    }

    fn borrow_produced(&self) -> (r: &Vec<u8>) {
        &self.value
    }
}

/// A schema string: either a static descriptor string or an owned one.
pub type DecodeDifferentStr = DecodeDifferent<FnEncode<String>, String>;

/// A schema list: either a static descriptor table or an owned vector.
pub type DFnA<T> = DecodeDifferent<FnEncode<Vec<T>>, Vec<T>>;

/// An optional schema list.
pub type ODFnA<T> = Option<DFnA<T>>;

/// A default-value thunk: static producer or owned bytes.
pub type ByteGetter = DecodeDifferent<DefaultByteGetter, Vec<u8>>;

/// Effective equality of two string cells: representation never matters.
pub fn str_cell_eq(a: &DecodeDifferentStr, b: &DecodeDifferentStr) -> (r: bool)
    ensures
        r == (a.effective()@ == b.effective()@),
{
    let x = a.get();
    let y = b.get();
    *x == *y
}

/// Effective equality of two byte cells.
pub fn byte_cell_eq(a: &ByteGetter, b: &ByteGetter) -> (r: bool)
    ensures
        r == (a.effective()@ == b.effective()@),
{
    let x = a.get();
    let y = b.get();
    let mut i: usize = 0;
    if x.len() != y.len() {
        return false;
    }
    while i < x.len()
        invariant
            i <= x@.len(),
            x@.len() == y@.len(),
            x@ == a.effective()@,
            y@ == b.effective()@,
            forall|j: int| 0 <= j < i ==> x@[j] == y@[j],
        decreases x@.len() - i,
    {
        if x[i] != y[i] {
            return false;
        }
        i = i + 1;
    }
    proof {
        assert(x@ =~= y@);
    }
    true
}

} // verus!
