//! Byte-level primitive codec: little-endian fixed-width integers, compact
//! (variable-width) lengths, byte runs and UTF-8 strings. Every encoder is
//! specified by a spec function giving the exact bytes produced, and every
//! decoder by a spec function giving the exact parse of a byte sequence, so
//! that round-trip facts can be proved once here and reused by the value and
//! schema codecs.

use vstd::prelude::*;
use vstd::utf8::*;

verus! {

broadcast use vstd::std_specs::vec::group_vec_axioms, vstd::seq::group_seq_axioms;

/// Why a decode failed: a bad magic prefix, a version discriminant from the
/// permanently unsupported range (carrying the offending version), too few
/// bytes, or bytes that no value encodes to.
#[derive(Clone, Copy, PartialEq, Eq, Debug)]
pub enum DecodeError {
    Framing,
    UnsupportedGeneration(u8),
    Truncated,
    Malformed,
}

pub open spec fn pow256(n: nat) -> nat
    decreases n,
{
    if n == 0 {
        1
    } else {
        256 * pow256((n - 1) as nat)
    }
}

/// The `n` little-endian bytes of `v` (meaningful when `v < pow256(n)`).
pub open spec fn le_bytes_of(v: nat, n: nat) -> Seq<u8>
    decreases n,
{
    if n == 0 {
        Seq::empty()
    } else {
        seq![(v % 256) as u8] + le_bytes_of(v / 256, (n - 1) as nat)
    }
}

/// The value of a little-endian byte sequence.
pub open spec fn le_val(s: Seq<u8>) -> nat
    decreases s.len(),
{
    if s.len() == 0 {
        0
    } else {
        (s[0] + 256 * le_val(s.drop_first())) as nat
    }
}

pub proof fn lemma_le_bytes_of_len(v: nat, n: nat)
    ensures
        le_bytes_of(v, n).len() == n,
    decreases n,
{
    if n > 0 {
        lemma_le_bytes_of_len(v / 256, (n - 1) as nat);
    }
}

pub proof fn lemma_le_val_bound(s: Seq<u8>)
    ensures
        le_val(s) < pow256(s.len()),
    decreases s.len(),
{
    if s.len() > 0 {
        lemma_le_val_bound(s.drop_first());
    }
}

pub proof fn lemma_le_val_le_bytes_of(v: nat, n: nat)
    requires
        v < pow256(n),
    ensures
        le_val(le_bytes_of(v, n)) == v,
    decreases n,
{
    if n > 0 {
        assert(v / 256 < pow256((n - 1) as nat) && v % 256 + 256 * (v / 256) == v)
            by (nonlinear_arith)
            requires
                v < pow256(n) && pow256(n) == 256 * pow256((n - 1) as nat),
        ;
        lemma_le_val_le_bytes_of(v / 256, (n - 1) as nat);
        lemma_le_bytes_of_len(v / 256, (n - 1) as nat);
        assert(le_bytes_of(v, n).drop_first() =~= le_bytes_of(v / 256, (n - 1) as nat));
    }
}

/// Appends the `n` little-endian bytes of `v`.
pub fn put_le(out: &mut Vec<u8>, v: u128, n: usize)
    requires
        (v as nat) < pow256(n as nat),
        n <= 16,
    ensures
        final(out)@ == old(out)@ + le_bytes_of(v as nat, n as nat),
    decreases n,
{
    if n == 0 {
        assert(out@ =~= old(out)@ + le_bytes_of(v as nat, 0));
    } else {
        out.push((v % 256) as u8);
        proof {
            assert((v as nat) / 256 < pow256((n - 1) as nat)) by (nonlinear_arith)
                requires
                    (v as nat) < pow256(n as nat)
                        && pow256(n as nat) == 256 * pow256((n - 1) as nat),
            ;
        }
        put_le(out, v / 256, n - 1);
        assert(out@ =~= old(out)@ + le_bytes_of(v as nat, n as nat));
    }
}

/// Reads `n` little-endian bytes starting at `pos`.
pub fn get_le(data: &[u8], pos: usize, n: usize) -> (r: u128)
    requires
        pos + n <= data@.len(),
        n <= 16,
    ensures
        r as nat == le_val(data@.subrange(pos as int, pos + n)),
    decreases n,
{
    if n == 0 {
        assert(le_val(data@.subrange(pos as int, pos as int)) == 0);
        0
    } else {
        let b = data[pos];
        let rest = get_le(data, pos + 1, n - 1);
        proof {
            let whole = data@.subrange(pos as int, pos + n);
            lemma_le_val_bound(data@.subrange(pos + 1, pos + n));
            lemma_pow256_16();
            assert(pow256(((n - 1) as nat)) <= pow256(15)) by {
                lemma_pow256_increases((n - 1) as nat, 15);
            }
            assert(whole.drop_first() =~= data@.subrange(pos + 1, pos + n));
            assert(whole[0] == b);
        }
        b as u128 + 256 * rest
    }
}

pub proof fn lemma_pow256_increases(a: nat, b: nat)
    requires
        a <= b,
    ensures
        pow256(a) <= pow256(b),
    decreases b,
{
    if a < b && b > 0 {
        lemma_pow256_increases(a, (b - 1) as nat);
        assert(pow256(b) == 256 * pow256((b - 1) as nat));
        assert(pow256((b - 1) as nat) <= 256 * pow256((b - 1) as nat)) by (nonlinear_arith)
            requires
                pow256((b - 1) as nat) >= 0,
        ;
    }
}

pub proof fn lemma_pow256_16()
    ensures
        pow256(1) == 0x100,
        pow256(2) == 0x1_0000,
        pow256(4) == 0x1_0000_0000,
        pow256(8) == 0x1_0000_0000_0000_0000,
        pow256(16) == 0x1_0000_0000_0000_0000_0000_0000_0000_0000,
        pow256(32)
            == 0x1_0000_0000_0000_0000_0000_0000_0000_0000_0000_0000_0000_0000_0000_0000_0000_0000,
{
    reveal_with_fuel(pow256, 33);
}

/// The compact form of a length or small integer: two mode bits in the first
/// byte select one, two or four bytes holding `4 * v + mode`, or a marker byte
/// followed by four plain little-endian bytes.
pub open spec fn compact_bytes(v: nat) -> Seq<u8> {
    if v < 64 {
        seq![(4 * v) as u8]
    } else if v < 16384 {
        le_bytes_of(4 * v + 1, 2)
    } else if v < 0x4000_0000 {
        le_bytes_of(4 * v + 2, 4)
    } else {
        seq![3u8] + le_bytes_of(v, 4)
    }
}

/// The exact parse of a compact integer from the front of `s`: the value and
/// the number of bytes consumed, or `None` when `s` is too short or the first
/// byte marks a width this codec does not carry.
pub open spec fn dec_compact(s: Seq<u8>) -> Option<(nat, int)> {
    if s.len() == 0 {
        None
    } else {
        let b = s[0];
        if b % 4 == 0 {
            Some(((b / 4) as nat, 1))
        } else if b % 4 == 1 {
            if s.len() >= 2 {
                Some((le_val(s.subrange(0, 2)) / 4, 2))
            } else {
                None
            }
        } else if b % 4 == 2 {
            if s.len() >= 4 {
                Some((le_val(s.subrange(0, 4)) / 4, 4))
            } else {
                None
            }
        } else {
            if b == 3 && s.len() >= 5 {
                Some((le_val(s.subrange(1, 5)), 5))
            } else {
                None
            }
        }
    }
}

/// Parsing bytes that begin with `compact_bytes(v)` yields `v` and consumes
/// exactly that prefix.
pub proof fn lemma_compact_round_trip(v: nat, rest: Seq<u8>)
    requires
        v < 0x1_0000_0000,
    ensures
        compact_bytes(v).len() <= 5,
        dec_compact(compact_bytes(v) + rest) == Some((v, compact_bytes(v).len() as int)),
{
    lemma_pow256_16();
    let s = compact_bytes(v) + rest;
    if v < 64 {
        assert(s[0] == 4 * v);
        assert((4 * v) as u8 % 4 == 0 && (4 * v) as u8 / 4 == v);
    } else if v < 16384 {
        lemma_le_bytes_of_len(4 * v + 1, 2);
        lemma_le_val_le_bytes_of(4 * v + 1, 2);
        assert(s.subrange(0, 2) =~= le_bytes_of(4 * v + 1, 2));
        assert(s[0] == le_bytes_of(4 * v + 1, 2)[0]);
        assert(le_bytes_of(4 * v + 1, 2)[0] == ((4 * v + 1) % 256) as u8);
        assert(((4 * v + 1) % 256) % 4 == 1) by (nonlinear_arith);
        assert((4 * v + 1) / 4 == v);
    } else if v < 0x4000_0000 {
        lemma_le_bytes_of_len(4 * v + 2, 4);
        lemma_le_val_le_bytes_of(4 * v + 2, 4);
        assert(s.subrange(0, 4) =~= le_bytes_of(4 * v + 2, 4));
        assert(s[0] == le_bytes_of(4 * v + 2, 4)[0]);
        assert(le_bytes_of(4 * v + 2, 4)[0] == ((4 * v + 2) % 256) as u8);
        assert(((4 * v + 2) % 256) % 4 == 2) by (nonlinear_arith);
        assert((4 * v + 2) / 4 == v);
    } else {
        lemma_le_bytes_of_len(v, 4);
        lemma_le_val_le_bytes_of(v, 4);
        assert(s[0] == 3);
        assert(s.subrange(1, 5) =~= le_bytes_of(v, 4));
    }
}

/// Appends the compact form of `v`.
pub fn put_compact(out: &mut Vec<u8>, v: u32)
    ensures
        final(out)@ == old(out)@ + compact_bytes(v as nat),
{
    proof {
        lemma_pow256_16();
    }
    if v < 64 {
        out.push((v as u8) * 4);
        assert(out@ =~= old(out)@ + compact_bytes(v as nat));
    } else if v < 16384 {
        put_le(out, 4 * (v as u128) + 1, 2);
    } else if v < 0x4000_0000 {
        put_le(out, 4 * (v as u128) + 2, 4);
    } else {
        out.push(3u8);
        put_le(out, v as u128, 4);
        assert(out@ =~= old(out)@ + compact_bytes(v as nat));
    }
}

/// Reads a compact integer at `pos`; the parse is exactly `dec_compact` of
/// the bytes from `pos` on.
pub fn get_compact(data: &[u8], pos: usize) -> (r: Result<(u32, usize), DecodeError>)
    requires
        pos <= data@.len(),
    ensures
        match r {
            Ok((v, q)) => {
                &&& dec_compact(data@.subrange(pos as int, data@.len() as int))
                    == Some(((v as nat), q - pos))
                &&& pos < q <= data@.len()
            },
            Err(e) => {
                &&& dec_compact(data@.subrange(pos as int, data@.len() as int)) is None
                &&& (e == DecodeError::Truncated || e == DecodeError::Malformed)
            },
        },
{
    let ghost tail = data@.subrange(pos as int, data@.len() as int);
    if pos >= data.len() {
        return Err(DecodeError::Truncated);
    }
    let b = data[pos];
    proof {
        assert(tail[0] == b);
        lemma_pow256_16();
    }
    let mode = b % 4;
    if mode == 0 {
        Ok((b as u32 / 4, pos + 1))
    } else if mode == 1 {
        if data.len() - pos < 2 {
            return Err(DecodeError::Truncated);
        }
        let x = get_le(data, pos, 2);
        proof {
            assert(tail.subrange(0, 2) =~= data@.subrange(pos as int, pos + 2));
            lemma_le_val_bound(tail.subrange(0, 2));
        }
        Ok(((x / 4) as u32, pos + 2))
    } else if mode == 2 {
        if data.len() - pos < 4 {
            return Err(DecodeError::Truncated);
        }
        let x = get_le(data, pos, 4);
        proof {
            assert(tail.subrange(0, 4) =~= data@.subrange(pos as int, pos + 4));
            lemma_le_val_bound(tail.subrange(0, 4));
        }
        Ok(((x / 4) as u32, pos + 4))
    } else {
        if b != 3 {
            return Err(DecodeError::Malformed);
        }
        if data.len() - pos < 5 {
            return Err(DecodeError::Truncated);
        }
        let x = get_le(data, pos + 1, 4);
        proof {
            assert(tail.subrange(1, 5) =~= data@.subrange(pos + 1, pos + 5));
            lemma_le_val_bound(tail.subrange(1, 5));
        }
        Ok((x as u32, pos + 5))
    }
}

/// Appends a run of raw bytes.
pub fn put_bytes(out: &mut Vec<u8>, data: &[u8])
    ensures
        final(out)@ == old(out)@ + data@,
{
    let mut i: usize = 0;
    while i < data.len()
        invariant
            i <= data@.len(),
            out@ == old(out)@ + data@.subrange(0, i as int),
        decreases data@.len() - i,
    {
        out.push(data[i]);
        assert(out@ =~= old(out)@ + data@.subrange(0, i + 1));
        i = i + 1;
    }
    assert(out@ =~= old(out)@ + data@);
}

/// A string on the wire: the compact byte length, then the UTF-8 bytes.
pub open spec fn enc_str(s: Seq<char>) -> Seq<u8> {
    compact_bytes(encode_utf8(s).len()) + encode_utf8(s)
}

/// The exact parse of a string from the front of `s`.
pub open spec fn dec_str(s: Seq<u8>) -> Option<(Seq<char>, int)> {
    match dec_compact(s) {
        None => None,
        Some((n, p)) => {
            if p + n <= s.len() && valid_utf8(s.subrange(p, p + n)) {
                Some((decode_utf8(s.subrange(p, p + n)), p + n))
            } else {
                None
            }
        },
    }
}

pub proof fn lemma_str_round_trip(s: Seq<char>, rest: Seq<u8>)
    requires
        encode_utf8(s).len() < 0x1_0000_0000,
    ensures
        dec_str(enc_str(s) + rest) == Some((s, enc_str(s).len() as int)),
{
    let bytes = encode_utf8(s);
    let whole = enc_str(s) + rest;
    lemma_compact_round_trip(bytes.len(), bytes + rest);
    assert(whole =~= compact_bytes(bytes.len()) + (bytes + rest));
    let p = compact_bytes(bytes.len()).len() as int;
    assert(whole.subrange(p, p + bytes.len()) =~= bytes);
    encode_utf8_valid_utf8(s);
    encode_utf8_decode_utf8(s);
}

/// Relies on `String::from_utf8`: it succeeds exactly on valid UTF-8 input
/// and returns the string whose UTF-8 encoding is that input.
#[verifier::external_body]
pub fn string_from_utf8(bytes: Vec<u8>) -> (r: Option<String>)
    ensures
        match r {
            Some(s) => valid_utf8(bytes@) && encode_utf8(s@) == bytes@,
            None => !valid_utf8(bytes@),
        },
{
    match String::from_utf8(bytes) {
        Ok(s) => Some(s),
        Err(_) => None,
    }
}

/// Relies on `char::from_u32`: it succeeds exactly on Unicode scalar values
/// and returns the character with that code.
#[verifier::external_body]
pub fn char_from_u32(u: u32) -> (r: Option<char>)
    ensures
        match r {
            Some(c) => is_scalar(u) && c as u32 == u,
            None => !is_scalar(u),
        },
{
    char::from_u32(u)
}


/// Relies on `String::push`: it appends exactly the one character.
#[verifier::external_body]
pub fn string_push(s: &mut String, c: char)
    ensures
        final(s)@ == old(s)@ + seq![c],
{
    s.push(c);
}

/// Appends the wire form of a string.
pub fn put_str(out: &mut Vec<u8>, s: &String)
    requires
        encode_utf8(s@).len() < 0x1_0000_0000,
    ensures
        final(out)@ == old(out)@ + enc_str(s@),
{
    let bytes = s.as_str().as_bytes();
    put_compact(out, bytes.len() as u32);
    put_bytes(out, bytes);
    assert(out@ =~= old(out)@ + enc_str(s@));
}

/// Reads a string at `pos`; the parse is exactly `dec_str` of the bytes from
/// `pos` on.
pub fn get_str(data: &[u8], pos: usize) -> (r: Result<(String, usize), DecodeError>)
    requires
        pos <= data@.len(),
    ensures
        match r {
            Ok((s, q)) => {
                &&& dec_str(data@.subrange(pos as int, data@.len() as int))
                    == Some((s@, q - pos))
                &&& pos < q <= data@.len()
            },
            Err(e) => dec_str(data@.subrange(pos as int, data@.len() as int)) is None,
        },
{
    let ghost tail = data@.subrange(pos as int, data@.len() as int);
    let (n, p) = match get_compact(data, pos) {
        Ok(v) => v,
        Err(e) => {
            return Err(e);
        },
    };
    let n_usize = n as usize;
    if n_usize > data.len() - p {
        proof {
            assert(tail.len() == data@.len() - pos);
        }
        return Err(DecodeError::Truncated);
    }
    let sub = vstd::slice::slice_subrange(data, p, p + n_usize);
    let ghost piece = tail.subrange(p - pos, p - pos + n);
    proof {
        assert(piece =~= data@.subrange(p as int, p + n));
    }
    let vec = vstd::slice::slice_to_vec(sub);
    match string_from_utf8(vec) {
        Some(s) => {
            proof {
                encode_utf8_decode_utf8(s@);
            }
            Ok((s, p + n_usize))
        },
        None => Err(DecodeError::Malformed),
    }
}

/// A boolean on the wire: one byte, zero or one.
pub open spec fn enc_bool(b: bool) -> Seq<u8> {
    if b {
        seq![1u8]
    } else {
        seq![0u8]
    }
}

pub open spec fn dec_bool(s: Seq<u8>) -> Option<(bool, int)> {
    if s.len() == 0 {
        None
    } else if s[0] == 0 {
        Some((false, 1))
    } else if s[0] == 1 {
        Some((true, 1))
    } else {
        None
    }
}

pub fn put_bool(out: &mut Vec<u8>, b: bool)
    ensures
        final(out)@ == old(out)@ + enc_bool(b),
{
    out.push(if b { 1u8 } else { 0u8 });
    assert(out@ =~= old(out)@ + enc_bool(b));
}

pub fn get_bool(data: &[u8], pos: usize) -> (r: Result<(bool, usize), DecodeError>)
    requires
        pos <= data@.len(),
    ensures
        match r {
            Ok((b, q)) => {
                &&& dec_bool(data@.subrange(pos as int, data@.len() as int))
                    == Some((b, q - pos))
                &&& pos < q <= data@.len()
            },
            Err(e) => dec_bool(data@.subrange(pos as int, data@.len() as int)) is None,
        },
{
    if pos >= data.len() {
        return Err(DecodeError::Truncated);
    }
    let b = data[pos];
    proof {
        assert(data@.subrange(pos as int, data@.len() as int)[0] == b);
    }
    if b == 0 {
        Ok((false, pos + 1))
    } else if b == 1 {
        Ok((true, pos + 1))
    } else {
        Err(DecodeError::Malformed)
    }
}

} // verus!
