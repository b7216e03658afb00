//! Encodings of the primitive and generic composite types: fixed-width
//! integers, `bool`, unit, `Option`, `Result`, and the unified call error.
//!
//! Integers travel as their little-endian byte sequence, one
//! [`RegistersAndStackEncoder::encode_u8`] call per byte, so the codec
//! never needs to know a field's width in advance.

use vstd::prelude::*;

use crate::api::SyscallEncodable;
use crate::error::{DecodeError, EncodeError, SyscallError};
use crate::registers_and_stack::RegistersAndStackEncoder;

verus! {

/// `v` as `n` little-endian bytes (low byte first).
pub open spec fn le_bytes(v: u128, n: nat) -> Seq<u8>
    decreases n,
{
    if n == 0 {
        Seq::empty()
    } else {
        seq![(v & 0xff) as u8] + le_bytes(v >> 8, (n - 1) as nat)
    }
}

/// The value a little-endian byte sequence denotes.
pub open spec fn le_value(s: Seq<u8>) -> u128
    decreases s.len(),
{
    if s.len() == 0 {
        0
    } else {
        (s[0] as u128) | (le_value(s.skip(1)) << 8)
    }
}

/// Parse an `n`-byte little-endian unsigned integer off the stream head.
pub open spec fn parse_le(s: Seq<u8>, n: nat) -> Option<(u128, int)> {
    if s.len() >= n {
        Some((le_value(s.take(n as int)), n as int))
    } else {
        None
    }
}

pub proof fn lemma_le_bytes_len(v: u128, n: nat)
    ensures
        le_bytes(v, n).len() == n,
    decreases n,
{
    if n > 0 {
        lemma_le_bytes_len(v >> 8, (n - 1) as nat);
    }
}

/// Reading back the bytes of `v` yields `v`, for values that fit.
pub proof fn lemma_le_value_of_le_bytes(v: u128, n: nat)
    requires
        n >= 16 || (v >> ((8 * n) as u128)) == 0,
    ensures
        le_value(le_bytes(v, n)) == v,
    decreases n,
{
    if n == 0 {
        assert((v >> 0) == v) by (bit_vector);
    } else {
        let tail = le_bytes(v >> 8, (n - 1) as nat);
        let s = seq![(v & 0xff) as u8] + tail;
        assert(s.skip(1) =~= tail);
        if n <= 16 {
            let nn = n as u128;
            assert(1 <= nn <= 16 ==> ((v >> 8) >> ((8 * (nn - 1)) as u128)) == (v >> ((8 * nn) as u128))) by (
            bit_vector);
        }
        if n == 16 {
            assert(((v >> 8) >> 120) == 0) by (bit_vector);
        }
        lemma_le_value_of_le_bytes(v >> 8, (n - 1) as nat);
        assert((((v & 0xff) as u8) as u128) | ((v >> 8) << 8) == v) by (bit_vector);
    }
}

/// One more byte on top: the bytes of `v` up to `n + 1` are the bytes up
/// to `n` with byte `n` of `v` appended.
pub proof fn lemma_le_bytes_snoc(v: u128, n: nat)
    requires
        n < 16,
    ensures
        le_bytes(v, n + 1) == le_bytes(v, n).push((((v >> ((8 * n) as u128)) & 0xff) as u8)),
    decreases n,
{
    if n == 0 {
        assert((v >> 0) == v) by (bit_vector);
        assert(le_bytes(v >> 8, 0) == Seq::<u8>::empty());
        assert(le_bytes(v, 1) =~= le_bytes(v, 0).push(((v & 0xff) as u8)));
    } else {
        lemma_le_bytes_snoc(v >> 8, (n - 1) as nat);
        let nn = n as u128;
        assert(1 <= nn <= 15 ==> ((v >> 8) >> ((8 * (nn - 1)) as u128)) == (v >> ((8 * nn) as u128))) by (bit_vector);
        assert(le_bytes(v, n + 1) =~= le_bytes(v, n).push(
            (((v >> ((8 * n) as u128)) & 0xff) as u8)));
    }
}

/// Byte `i` of the little-endian bytes of `v`.
pub proof fn lemma_le_bytes_index(v: u128, n: nat, i: int)
    requires
        0 <= i < n,
        n <= 16,
    ensures
        le_bytes(v, n)[i] == (((v >> ((8 * i) as u128)) & 0xff) as u8),
    decreases n,
{
    lemma_le_bytes_len(v, n);
    if i == 0 {
        assert((v >> 0) == v) by (bit_vector);
    } else {
        lemma_le_bytes_len(v >> 8, (n - 1) as nat);
        lemma_le_bytes_index(v >> 8, (n - 1) as nat, i - 1);
        let ii = i as u128;
        assert(1 <= ii <= 15 ==> ((v >> 8) >> ((8 * (ii - 1)) as u128)) == (v >> ((8 * ii)
            as u128))) by (bit_vector);
    }
}

/// Trailing zero bytes leave the denoted value unchanged.
pub proof fn lemma_le_value_trailing_zeros(s: Seq<u8>, k: nat)
    requires
        s.len() + k <= 16,
    ensures
        le_value(s + Seq::new(k, |i: int| 0u8)) == le_value(s),
    decreases k,
{
    if k == 0 {
        assert(s + Seq::new(0, |i: int| 0u8) =~= s);
    } else {
        assert((s + Seq::new(k, |i: int| 0u8)) =~= (s.push(0u8) + Seq::new(
            (k - 1) as nat,
            |i: int| 0u8,
        )));
        lemma_le_value_trailing_zeros(s.push(0u8), (k - 1) as nat);
        lemma_le_value_push(s, 0u8);
        let c = le_value(s);
        let ll = s.len() as u128;
        assert(ll <= 15 ==> (c | ((0u8 as u128) << ((8 * ll) as u128))) == c) by (bit_vector);
    }
}

/// Appending one byte raises the denoted value by that byte at the top.
pub proof fn lemma_le_value_push(s: Seq<u8>, b: u8)
    requires
        s.len() < 16,
    ensures
        le_value(s.push(b)) == le_value(s) | ((b as u128) << ((8 * s.len()) as u128)),
    decreases s.len(),
{
    if s.len() == 0 {
        let p = s.push(b);
        assert(s =~= Seq::<u8>::empty());
        assert(le_value(Seq::<u8>::empty()) == 0);
        assert(p.skip(1) =~= Seq::<u8>::empty());
        assert(p[0] == b);
        assert((b as u128) | ((0u128) << 8) == 0u128 | ((b as u128) << 0)) by (bit_vector);
    } else {
        let p = s.push(b);
        assert(p.skip(1) =~= s.skip(1).push(b));
        assert(p[0] == s[0]);
        lemma_le_value_push(s.skip(1), b);
        let a = s[0] as u128;
        let c = le_value(s.skip(1));
        let bb = b as u128;
        let ll = s.len() as u128;
        assert(1 <= ll <= 15 ==> (a | ((c | (bb << ((8 * (ll - 1)) as u128))) << 8)) == ((a | (c << 8)) | (bb
            << ((8 * ll) as u128)))) by (bit_vector);
    }
}

/// Append the low `n` bytes of `v`, little-endian, to the encoder.
pub fn encode_le_bytes(encoder: &mut RegistersAndStackEncoder, v: u128, n: usize) -> (r: Result<
    (),
    EncodeError,
>)
    requires
        old(encoder).wf(),
        old(encoder).is_encoding(),
        n <= 16,
    ensures
        final(encoder).wf(),
        final(encoder).is_encoding(),
        final(encoder).geom() == old(encoder).geom(),
        final(encoder).capacity() == old(encoder).capacity(),
        (r is Ok) <==> old(encoder).written().len() + n <= old(encoder).capacity(),
        r is Ok ==> final(encoder).written() == old(encoder).written() + le_bytes(v, n as nat),
        r is Err ==> r == Err::<(), EncodeError>(EncodeError::AllocationError),
    decreases n,
{
    let ghost w0 = encoder.written();
    let mut i: usize = 0;
    let mut cur = v;
    proof {
        assert(encoder.written() =~= w0 + le_bytes(v, 0));
        assert((v >> 0) == v) by (bit_vector);
    }
    while i < n
        invariant
            i <= n,
            n <= 16,
            encoder.wf(),
            encoder.is_encoding(),
            encoder.geom() == old(encoder).geom(),
            encoder.capacity() == old(encoder).capacity(),
            w0 == old(encoder).written(),
            encoder.written() == w0 + le_bytes(v, i as nat),
            w0.len() + i <= encoder.capacity(),
            cur == v >> ((8 * i) as u128),
        decreases n - i,
    {
        proof {
            lemma_le_bytes_len(v, i as nat);
        }
        let b = (cur & 0xff) as u8;
        match encoder.encode_u8(b) {
            Ok(()) => {},
            Err(e) => {
                proof {
                    lemma_le_bytes_len(v, n as nat);
                }
                return Err(e);
            },
        }
        proof {
            lemma_le_bytes_snoc(v, i as nat);
            assert((cur & 0xff) < 256) by (bit_vector);
            assert(encoder.written() =~= w0 + le_bytes(v, (i + 1) as nat));
            let ii = i as u128;
            assert(ii <= 15 ==> ((v >> ((8 * ii) as u128)) >> 8) == (v >> ((8 * (ii + 1)) as u128))) by (bit_vector);
        }
        cur = cur >> 8;
        i = i + 1;
    }
    proof {
        lemma_le_bytes_len(v, n as nat);
    }
    Ok(())
}

/// Read an `n`-byte little-endian unsigned integer off the stream.
pub fn decode_le_bytes(decoder: &mut RegistersAndStackEncoder, n: usize) -> (r: Result<
    u128,
    DecodeError,
>)
    requires
        old(decoder).wf(),
        !old(decoder).is_encoding(),
        n <= 16,
    ensures
        final(decoder).wf(),
        !final(decoder).is_encoding(),
        final(decoder).geom() == old(decoder).geom(),
        final(decoder).stream() == old(decoder).stream(),
        match parse_le(old(decoder).stream().skip(old(decoder).pos()), n as nat) {
            Some((v, m)) => r == Ok::<u128, DecodeError>(v) && final(decoder).pos() == old(
                decoder,
            ).pos() + m,
            None => r == Err::<u128, DecodeError>(DecodeError::InvalidData),
        },
{
    let ghost s = decoder.stream();
    let ghost p0 = decoder.pos();
    let mut acc: u128 = 0;
    let mut i: usize = 0;
    proof {
        assert(s.subrange(p0, p0) =~= Seq::<u8>::empty());
    }
    while i < n
        invariant
            i <= n,
            n <= 16,
            decoder.wf(),
            !decoder.is_encoding(),
            decoder.geom() == old(decoder).geom(),
            s == old(decoder).stream(),
            p0 == old(decoder).pos(),
            0 <= p0,
            decoder.stream() == s,
            decoder.pos() == p0 + i,
            p0 + i <= s.len(),
            acc == le_value(s.subrange(p0, p0 + i)),
        decreases n - i,
    {
        let b = match decoder.decode_u8() {
            Ok(b) => b,
            Err(e) => {
                proof {
                    assert(s.skip(p0).len() < n as nat);
                }
                return Err(e);
            },
        };
        proof {
            lemma_le_value_push(s.subrange(p0, p0 + i), b);
            assert(s.subrange(p0, p0 + i).push(b) =~= s.subrange(p0, p0 + i + 1));
        }
        acc = acc | ((b as u128) << (8 * i));
        i = i + 1;
    }
    proof {
        assert(s.skip(p0).take(n as int) =~= s.subrange(p0, p0 + n));
    }
    Ok(acc)
}

impl SyscallEncodable for u8 {
    open spec fn repr(&self) -> Seq<u8> {
        le_bytes(*self as u128, 1)
    }

    open spec fn parse(s: Seq<u8>) -> Option<(u8, int)> {
        match parse_le(s, 1) {
            Some((v, n)) => Some(((v as u8), n)),
            None => None,
        }
    }

    proof fn lemma_parse_repr(&self, rest: Seq<u8>) {
        let x = *self;
        let v = x as u128;
        lemma_le_bytes_len(v, 1);
        assert((self.repr() + rest).take(1) =~= le_bytes(v, 1));
        assert(((x as u128) >> 8) == 0) by (bit_vector);
        lemma_le_value_of_le_bytes(v, 1);
    }

    fn byte_len(&self) -> (n: usize) {
        proof {
            lemma_le_bytes_len(*self as u128, 1);
        }
        1
    }

    fn encode(&self, encoder: &mut RegistersAndStackEncoder) -> (r: Result<(), EncodeError>) {
        proof {
            lemma_le_bytes_len(*self as u128, 1);
        }
        encode_le_bytes(encoder, *self as u128, 1)
    }

    fn decode(decoder: &mut RegistersAndStackEncoder) -> (r: Result<u8, DecodeError>) {
        match decode_le_bytes(decoder, 1) {
            Ok(v) => Ok(#[verifier::truncate] (v as u8)),
            Err(e) => Err(e),
        }
    }
}

impl SyscallEncodable for u16 {
    open spec fn repr(&self) -> Seq<u8> {
        le_bytes(*self as u128, 2)
    }

    open spec fn parse(s: Seq<u8>) -> Option<(u16, int)> {
        match parse_le(s, 2) {
            Some((v, n)) => Some(((v as u16), n)),
            None => None,
        }
    }

    proof fn lemma_parse_repr(&self, rest: Seq<u8>) {
        let x = *self;
        let v = x as u128;
        lemma_le_bytes_len(v, 2);
        assert((self.repr() + rest).take(2) =~= le_bytes(v, 2));
        assert(((x as u128) >> 16) == 0) by (bit_vector);
        lemma_le_value_of_le_bytes(v, 2);
    }

    fn byte_len(&self) -> (n: usize) {
        proof {
            lemma_le_bytes_len(*self as u128, 2);
        }
        2
    }

    fn encode(&self, encoder: &mut RegistersAndStackEncoder) -> (r: Result<(), EncodeError>) {
        proof {
            lemma_le_bytes_len(*self as u128, 2);
        }
        encode_le_bytes(encoder, *self as u128, 2)
    }

    fn decode(decoder: &mut RegistersAndStackEncoder) -> (r: Result<u16, DecodeError>) {
        match decode_le_bytes(decoder, 2) {
            Ok(v) => Ok(#[verifier::truncate] (v as u16)),
            Err(e) => Err(e),
        }
    }
}

impl SyscallEncodable for u32 {
    open spec fn repr(&self) -> Seq<u8> {
        le_bytes(*self as u128, 4)
    }

    open spec fn parse(s: Seq<u8>) -> Option<(u32, int)> {
        match parse_le(s, 4) {
            Some((v, n)) => Some(((v as u32), n)),
            None => None,
        }
    }

    proof fn lemma_parse_repr(&self, rest: Seq<u8>) {
        let x = *self;
        let v = x as u128;
        lemma_le_bytes_len(v, 4);
        assert((self.repr() + rest).take(4) =~= le_bytes(v, 4));
        assert(((x as u128) >> 32) == 0) by (bit_vector);
        lemma_le_value_of_le_bytes(v, 4);
    }

    fn byte_len(&self) -> (n: usize) {
        proof {
            lemma_le_bytes_len(*self as u128, 4);
        }
        4
    }

    fn encode(&self, encoder: &mut RegistersAndStackEncoder) -> (r: Result<(), EncodeError>) {
        proof {
            lemma_le_bytes_len(*self as u128, 4);
        }
        encode_le_bytes(encoder, *self as u128, 4)
    }

    fn decode(decoder: &mut RegistersAndStackEncoder) -> (r: Result<u32, DecodeError>) {
        match decode_le_bytes(decoder, 4) {
            Ok(v) => Ok(#[verifier::truncate] (v as u32)),
            Err(e) => Err(e),
        }
    }
}

impl SyscallEncodable for u64 {
    open spec fn repr(&self) -> Seq<u8> {
        le_bytes(*self as u128, 8)
    }

    open spec fn parse(s: Seq<u8>) -> Option<(u64, int)> {
        match parse_le(s, 8) {
            Some((v, n)) => Some(((v as u64), n)),
            None => None,
        }
    }

    proof fn lemma_parse_repr(&self, rest: Seq<u8>) {
        let x = *self;
        let v = x as u128;
        lemma_le_bytes_len(v, 8);
        assert((self.repr() + rest).take(8) =~= le_bytes(v, 8));
        assert(((x as u128) >> 64) == 0) by (bit_vector);
        lemma_le_value_of_le_bytes(v, 8);
    }

    fn byte_len(&self) -> (n: usize) {
        proof {
            lemma_le_bytes_len(*self as u128, 8);
        }
        8
    }

    fn encode(&self, encoder: &mut RegistersAndStackEncoder) -> (r: Result<(), EncodeError>) {
        proof {
            lemma_le_bytes_len(*self as u128, 8);
        }
        encode_le_bytes(encoder, *self as u128, 8)
    }

    fn decode(decoder: &mut RegistersAndStackEncoder) -> (r: Result<u64, DecodeError>) {
        match decode_le_bytes(decoder, 8) {
            Ok(v) => Ok(#[verifier::truncate] (v as u64)),
            Err(e) => Err(e),
        }
    }
}

impl SyscallEncodable for u128 {
    open spec fn repr(&self) -> Seq<u8> {
        le_bytes(*self, 16)
    }

    open spec fn parse(s: Seq<u8>) -> Option<(u128, int)> {
        parse_le(s, 16)
    }

    proof fn lemma_parse_repr(&self, rest: Seq<u8>) {
        let v = *self;
        lemma_le_bytes_len(v, 16);
        assert((self.repr() + rest).take(16) =~= le_bytes(v, 16));
        lemma_le_value_of_le_bytes(v, 16);
    }

    fn byte_len(&self) -> (n: usize) {
        proof {
            lemma_le_bytes_len(*self, 16);
        }
        16
    }

    fn encode(&self, encoder: &mut RegistersAndStackEncoder) -> (r: Result<(), EncodeError>) {
        proof {
            lemma_le_bytes_len(*self, 16);
        }
        encode_le_bytes(encoder, *self, 16)
    }

    fn decode(decoder: &mut RegistersAndStackEncoder) -> (r: Result<u128, DecodeError>) {
        decode_le_bytes(decoder, 16)
    }
}

impl SyscallEncodable for i8 {
    open spec fn repr(&self) -> Seq<u8> {
        le_bytes((*self as u8) as u128, 1)
    }

    open spec fn parse(s: Seq<u8>) -> Option<(i8, int)> {
        match parse_le(s, 1) {
            Some((v, n)) => Some((((v as u8) as i8), n)),
            None => None,
        }
    }

    proof fn lemma_parse_repr(&self, rest: Seq<u8>) {
        let x = *self;
        let v = (x as u8) as u128;
        lemma_le_bytes_len(v, 1);
        assert((self.repr() + rest).take(1) =~= le_bytes(v, 1));
        assert((((x as u8) as u128) >> 8) == 0) by (bit_vector);
        lemma_le_value_of_le_bytes(v, 1);
        assert(((((x as u8) as u128) as u8) as i8) == x) by (bit_vector);
    }

    fn byte_len(&self) -> (n: usize) {
        proof {
            lemma_le_bytes_len((*self as u8) as u128, 1);
        }
        1
    }

    fn encode(&self, encoder: &mut RegistersAndStackEncoder) -> (r: Result<(), EncodeError>) {
        proof {
            lemma_le_bytes_len((*self as u8) as u128, 1);
        }
        encode_le_bytes(encoder, (#[verifier::truncate] (*self as u8)) as u128, 1)
    }

    fn decode(decoder: &mut RegistersAndStackEncoder) -> (r: Result<i8, DecodeError>) {
        match decode_le_bytes(decoder, 1) {
            Ok(v) => {
                let w = #[verifier::truncate] (v as u8);
                Ok(#[verifier::truncate] (w as i8))
            },
            Err(e) => Err(e),
        }
    }
}

impl SyscallEncodable for i16 {
    open spec fn repr(&self) -> Seq<u8> {
        le_bytes((*self as u16) as u128, 2)
    }

    open spec fn parse(s: Seq<u8>) -> Option<(i16, int)> {
        match parse_le(s, 2) {
            Some((v, n)) => Some((((v as u16) as i16), n)),
            None => None,
        }
    }

    proof fn lemma_parse_repr(&self, rest: Seq<u8>) {
        let x = *self;
        let v = (x as u16) as u128;
        lemma_le_bytes_len(v, 2);
        assert((self.repr() + rest).take(2) =~= le_bytes(v, 2));
        assert((((x as u16) as u128) >> 16) == 0) by (bit_vector);
        lemma_le_value_of_le_bytes(v, 2);
        assert(((((x as u16) as u128) as u16) as i16) == x) by (bit_vector);
    }

    fn byte_len(&self) -> (n: usize) {
        proof {
            lemma_le_bytes_len((*self as u16) as u128, 2);
        }
        2
    }

    fn encode(&self, encoder: &mut RegistersAndStackEncoder) -> (r: Result<(), EncodeError>) {
        proof {
            lemma_le_bytes_len((*self as u16) as u128, 2);
        }
        encode_le_bytes(encoder, (#[verifier::truncate] (*self as u16)) as u128, 2)
    }

    fn decode(decoder: &mut RegistersAndStackEncoder) -> (r: Result<i16, DecodeError>) {
        match decode_le_bytes(decoder, 2) {
            Ok(v) => {
                let w = #[verifier::truncate] (v as u16);
                Ok(#[verifier::truncate] (w as i16))
            },
            Err(e) => Err(e),
        }
    }
}

impl SyscallEncodable for i32 {
    open spec fn repr(&self) -> Seq<u8> {
        le_bytes((*self as u32) as u128, 4)
    }

    open spec fn parse(s: Seq<u8>) -> Option<(i32, int)> {
        match parse_le(s, 4) {
            Some((v, n)) => Some((((v as u32) as i32), n)),
            None => None,
        }
    }

    proof fn lemma_parse_repr(&self, rest: Seq<u8>) {
        let x = *self;
        let v = (x as u32) as u128;
        lemma_le_bytes_len(v, 4);
        assert((self.repr() + rest).take(4) =~= le_bytes(v, 4));
        assert((((x as u32) as u128) >> 32) == 0) by (bit_vector);
        lemma_le_value_of_le_bytes(v, 4);
        assert(((((x as u32) as u128) as u32) as i32) == x) by (bit_vector);
    }

    fn byte_len(&self) -> (n: usize) {
        proof {
            lemma_le_bytes_len((*self as u32) as u128, 4);
        }
        4
    }

    fn encode(&self, encoder: &mut RegistersAndStackEncoder) -> (r: Result<(), EncodeError>) {
        proof {
            lemma_le_bytes_len((*self as u32) as u128, 4);
        }
        encode_le_bytes(encoder, (#[verifier::truncate] (*self as u32)) as u128, 4)
    }

    fn decode(decoder: &mut RegistersAndStackEncoder) -> (r: Result<i32, DecodeError>) {
        match decode_le_bytes(decoder, 4) {
            Ok(v) => {
                let w = #[verifier::truncate] (v as u32);
                Ok(#[verifier::truncate] (w as i32))
            },
            Err(e) => Err(e),
        }
    }
}

impl SyscallEncodable for i64 {
    open spec fn repr(&self) -> Seq<u8> {
        le_bytes((*self as u64) as u128, 8)
    }

    open spec fn parse(s: Seq<u8>) -> Option<(i64, int)> {
        match parse_le(s, 8) {
            Some((v, n)) => Some((((v as u64) as i64), n)),
            None => None,
        }
    }

    proof fn lemma_parse_repr(&self, rest: Seq<u8>) {
        let x = *self;
        let v = (x as u64) as u128;
        lemma_le_bytes_len(v, 8);
        assert((self.repr() + rest).take(8) =~= le_bytes(v, 8));
        assert((((x as u64) as u128) >> 64) == 0) by (bit_vector);
        lemma_le_value_of_le_bytes(v, 8);
        assert(((((x as u64) as u128) as u64) as i64) == x) by (bit_vector);
    }

    fn byte_len(&self) -> (n: usize) {
        proof {
            lemma_le_bytes_len((*self as u64) as u128, 8);
        }
        8
    }

    fn encode(&self, encoder: &mut RegistersAndStackEncoder) -> (r: Result<(), EncodeError>) {
        proof {
            lemma_le_bytes_len((*self as u64) as u128, 8);
        }
        encode_le_bytes(encoder, (#[verifier::truncate] (*self as u64)) as u128, 8)
    }

    fn decode(decoder: &mut RegistersAndStackEncoder) -> (r: Result<i64, DecodeError>) {
        match decode_le_bytes(decoder, 8) {
            Ok(v) => {
                let w = #[verifier::truncate] (v as u64);
                Ok(#[verifier::truncate] (w as i64))
            },
            Err(e) => Err(e),
        }
    }
}

impl SyscallEncodable for i128 {
    open spec fn repr(&self) -> Seq<u8> {
        le_bytes(*self as u128, 16)
    }

    open spec fn parse(s: Seq<u8>) -> Option<(i128, int)> {
        match parse_le(s, 16) {
            Some((v, n)) => Some(((v as i128), n)),
            None => None,
        }
    }

    proof fn lemma_parse_repr(&self, rest: Seq<u8>) {
        let x = *self;
        let v = x as u128;
        lemma_le_bytes_len(v, 16);
        assert((self.repr() + rest).take(16) =~= le_bytes(v, 16));
        lemma_le_value_of_le_bytes(v, 16);
        assert(((x as u128) as i128) == x) by (bit_vector);
    }

    fn byte_len(&self) -> (n: usize) {
        proof {
            lemma_le_bytes_len(*self as u128, 16);
        }
        16
    }

    fn encode(&self, encoder: &mut RegistersAndStackEncoder) -> (r: Result<(), EncodeError>) {
        proof {
            lemma_le_bytes_len(*self as u128, 16);
        }
        encode_le_bytes(encoder, #[verifier::truncate] (*self as u128), 16)
    }

    fn decode(decoder: &mut RegistersAndStackEncoder) -> (r: Result<i128, DecodeError>) {
        match decode_le_bytes(decoder, 16) {
            Ok(v) => Ok(#[verifier::truncate] (v as i128)),
            Err(e) => Err(e),
        }
    }
}

impl SyscallEncodable for bool {
    open spec fn repr(&self) -> Seq<u8> {
        seq![if *self { 1u8 } else { 0u8 }]
    }

    open spec fn parse(s: Seq<u8>) -> Option<(bool, int)> {
        if s.len() >= 1 && (s[0] == 0 || s[0] == 1) {
            Some(((s[0] == 1), 1))
        } else {
            None
        }
    }

    proof fn lemma_parse_repr(&self, rest: Seq<u8>) {
        assert((self.repr() + rest)[0] == self.repr()[0]);
    }

    fn byte_len(&self) -> (n: usize) {
        1
    }

    fn encode(&self, encoder: &mut RegistersAndStackEncoder) -> (r: Result<(), EncodeError>) {
        let b: u8 = if *self {
            1
        } else {
            0
        };
        match encoder.encode_u8(b) {
            Ok(()) => {
                assert(final(encoder).written() =~= old(encoder).written() + self.repr());
                Ok(())
            },
            Err(e) => Err(e),
        }
    }

    fn decode(decoder: &mut RegistersAndStackEncoder) -> (r: Result<bool, DecodeError>) {
        match decoder.decode_u8() {
            Ok(0u8) => Ok(false),
            Ok(1u8) => Ok(true),
            Ok(_) => Err(DecodeError::InvalidData),
            Err(e) => Err(e),
        }
    }
}

impl SyscallEncodable for () {
    open spec fn repr(&self) -> Seq<u8> {
        Seq::empty()
    }

    open spec fn parse(s: Seq<u8>) -> Option<((), int)> {
        Some(((), 0))
    }

    proof fn lemma_parse_repr(&self, rest: Seq<u8>) {
    }

    fn byte_len(&self) -> (n: usize) {
        0
    }

    fn encode(&self, encoder: &mut RegistersAndStackEncoder) -> (r: Result<(), EncodeError>) {
        assert(final(encoder).written() =~= old(encoder).written() + self.repr());
        Ok(())
    }

    fn decode(decoder: &mut RegistersAndStackEncoder) -> (r: Result<(), DecodeError>) {
        Ok(())
    }
}

impl<T: SyscallEncodable> SyscallEncodable for Option<T> {
    open spec fn repr(&self) -> Seq<u8> {
        match self {
            None => seq![0u8],
            Some(v) => seq![1u8] + v.repr(),
        }
    }

    open spec fn parse(s: Seq<u8>) -> Option<(Option<T>, int)> {
        if s.len() < 1 {
            None
        } else if s[0] == 0 {
            Some((None, 1))
        } else if s[0] == 1 {
            match T::parse(s.skip(1)) {
                Some((v, n)) => Some((Some(v), 1 + n)),
                None => None,
            }
        } else {
            None
        }
    }

    proof fn lemma_parse_repr(&self, rest: Seq<u8>) {
        let s = self.repr() + rest;
        match self {
            None => {
                assert(s[0] == 0);
            },
            Some(v) => {
                assert(s[0] == 1);
                assert(s.skip(1) =~= v.repr() + rest);
                v.lemma_parse_repr(rest);
            },
        }
    }

    fn byte_len(&self) -> (n: usize) {
        match self {
            None => 1,
            Some(v) => 1 + v.byte_len(),
        }
    }

    fn encode(&self, encoder: &mut RegistersAndStackEncoder) -> (r: Result<(), EncodeError>) {
        match self {
            None => {
                match encoder.encode_u8(0) {
                    Ok(()) => {
                        assert(final(encoder).written() =~= old(encoder).written() + self.repr());
                        Ok(())
                    },
                    Err(e) => Err(e),
                }
            },
            Some(v) => {
                match encoder.encode_u8(1) {
                    Ok(()) => {},
                    Err(e) => {
                        return Err(e);
                    },
                }
                match v.encode(encoder) {
                    Ok(()) => {
                        assert(final(encoder).written() =~= old(encoder).written() + self.repr());
                        Ok(())
                    },
                    Err(e) => Err(e),
                }
            },
        }
    }

    fn decode(decoder: &mut RegistersAndStackEncoder) -> (r: Result<Option<T>, DecodeError>) {
        let ghost s = decoder.stream();
        let ghost p0 = decoder.pos();
        match decoder.decode_u8() {
            Ok(0u8) => Ok(None),
            Ok(1u8) => {
                proof { s.lemma_seq_skip_skip(p0); }
                assert(s.skip(p0).skip(1) =~= s.skip(p0 + 1));
                match T::decode(decoder) {
                    Ok(v) => Ok(Some(v)),
                    Err(e) => Err(e),
                }
            },
            Ok(_) => Err(DecodeError::InvalidData),
            Err(e) => Err(e),
        }
    }
}

impl<T: SyscallEncodable, E: SyscallEncodable> SyscallEncodable for Result<T, E> {
    open spec fn repr(&self) -> Seq<u8> {
        match self {
            Ok(v) => seq![0u8] + v.repr(),
            Err(e) => seq![1u8] + e.repr(),
        }
    }

    open spec fn parse(s: Seq<u8>) -> Option<(Result<T, E>, int)> {
        if s.len() < 1 {
            None
        } else if s[0] == 0 {
            match T::parse(s.skip(1)) {
                Some((v, n)) => Some((Ok(v), 1 + n)),
                None => None,
            }
        } else if s[0] == 1 {
            match E::parse(s.skip(1)) {
                Some((e, n)) => Some((Err(e), 1 + n)),
                None => None,
            }
        } else {
            None
        }
    }

    proof fn lemma_parse_repr(&self, rest: Seq<u8>) {
        let s = self.repr() + rest;
        match self {
            Ok(v) => {
                assert(s[0] == 0);
                assert(s.skip(1) =~= v.repr() + rest);
                v.lemma_parse_repr(rest);
            },
            Err(e) => {
                assert(s[0] == 1);
                assert(s.skip(1) =~= e.repr() + rest);
                e.lemma_parse_repr(rest);
            },
        }
    }

    fn byte_len(&self) -> (n: usize) {
        match self {
            Ok(v) => 1 + v.byte_len(),
            Err(e) => 1 + e.byte_len(),
        }
    }

    fn encode(&self, encoder: &mut RegistersAndStackEncoder) -> (r: Result<(), EncodeError>) {
        match self {
            Ok(v) => {
                match encoder.encode_u8(0) {
                    Ok(()) => {},
                    Err(e) => {
                        return Err(e);
                    },
                }
                match v.encode(encoder) {
                    Ok(()) => {
                        assert(final(encoder).written() =~= old(encoder).written() + self.repr());
                        Ok(())
                    },
                    Err(e) => Err(e),
                }
            },
            Err(err) => {
                match encoder.encode_u8(1) {
                    Ok(()) => {},
                    Err(e) => {
                        return Err(e);
                    },
                }
                match err.encode(encoder) {
                    Ok(()) => {
                        assert(final(encoder).written() =~= old(encoder).written() + self.repr());
                        Ok(())
                    },
                    Err(e) => Err(e),
                }
            },
        }
    }

    fn decode(decoder: &mut RegistersAndStackEncoder) -> (r: Result<Result<T, E>, DecodeError>) {
        let ghost s = decoder.stream();
        let ghost p0 = decoder.pos();
        match decoder.decode_u8() {
            Ok(0u8) => {
                proof { s.lemma_seq_skip_skip(p0); }
                assert(s.skip(p0).skip(1) =~= s.skip(p0 + 1));
                match T::decode(decoder) {
                    Ok(v) => Ok(Ok(v)),
                    Err(e) => Err(e),
                }
            },
            Ok(1u8) => {
                proof { s.lemma_seq_skip_skip(p0); }
                assert(s.skip(p0).skip(1) =~= s.skip(p0 + 1));
                match E::decode(decoder) {
                    Ok(e) => Ok(Err(e)),
                    Err(e) => Err(e),
                }
            },
            Ok(_) => Err(DecodeError::InvalidData),
            Err(e) => Err(e),
        }
    }
}

impl<E: SyscallEncodable> SyscallEncodable for SyscallError<E> {
    open spec fn repr(&self) -> Seq<u8> {
        match self {
            SyscallError::InvalidData => seq![0u8],
            SyscallError::InvalidNum => seq![1u8],
            SyscallError::AllocationError => seq![2u8],
            SyscallError::SyscallError(e) => seq![3u8] + e.repr(),
        }
    }

    open spec fn parse(s: Seq<u8>) -> Option<(SyscallError<E>, int)> {
        if s.len() < 1 {
            None
        } else if s[0] == 0 {
            Some((SyscallError::InvalidData, 1))
        } else if s[0] == 1 {
            Some((SyscallError::InvalidNum, 1))
        } else if s[0] == 2 {
            Some((SyscallError::AllocationError, 1))
        } else if s[0] == 3 {
            match E::parse(s.skip(1)) {
                Some((e, n)) => Some((SyscallError::SyscallError(e), 1 + n)),
                None => None,
            }
        } else {
            None
        }
    }

    proof fn lemma_parse_repr(&self, rest: Seq<u8>) {
        let s = self.repr() + rest;
        match self {
            SyscallError::SyscallError(e) => {
                assert(s[0] == 3);
                assert(s.skip(1) =~= e.repr() + rest);
                e.lemma_parse_repr(rest);
            },
            _ => {
                assert(s[0] == self.repr()[0]);
            },
        }
    }

    fn byte_len(&self) -> (n: usize) {
        match self {
            SyscallError::SyscallError(e) => 1 + e.byte_len(),
            _ => 1,
        }
    }

    fn encode(&self, encoder: &mut RegistersAndStackEncoder) -> (r: Result<(), EncodeError>) {
        match self {
            SyscallError::InvalidData => {
                match encoder.encode_u8(0) {
                    Ok(()) => {
                        assert(final(encoder).written() =~= old(encoder).written() + self.repr());
                        Ok(())
                    },
                    Err(e) => Err(e),
                }
            },
            SyscallError::InvalidNum => {
                match encoder.encode_u8(1) {
                    Ok(()) => {
                        assert(final(encoder).written() =~= old(encoder).written() + self.repr());
                        Ok(())
                    },
                    Err(e) => Err(e),
                }
            },
            SyscallError::AllocationError => {
                match encoder.encode_u8(2) {
                    Ok(()) => {
                        assert(final(encoder).written() =~= old(encoder).written() + self.repr());
                        Ok(())
                    },
                    Err(e) => Err(e),
                }
            },
            SyscallError::SyscallError(err) => {
                match encoder.encode_u8(3) {
                    Ok(()) => {},
                    Err(e) => {
                        return Err(e);
                    },
                }
                match err.encode(encoder) {
                    Ok(()) => {
                        assert(final(encoder).written() =~= old(encoder).written() + self.repr());
                        Ok(())
                    },
                    Err(e) => Err(e),
                }
            },
        }
    }

    fn decode(decoder: &mut RegistersAndStackEncoder) -> (r: Result<SyscallError<E>, DecodeError>) {
        let ghost s = decoder.stream();
        let ghost p0 = decoder.pos();
        match decoder.decode_u8() {
            Ok(0u8) => Ok(SyscallError::InvalidData),
            Ok(1u8) => Ok(SyscallError::InvalidNum),
            Ok(2u8) => Ok(SyscallError::AllocationError),
            Ok(3u8) => {
                proof { s.lemma_seq_skip_skip(p0); }
                assert(s.skip(p0).skip(1) =~= s.skip(p0 + 1));
                match E::decode(decoder) {
                    Ok(e) => Ok(SyscallError::SyscallError(e)),
                    Err(e) => Err(e),
                }
            },
            Ok(_) => Err(DecodeError::InvalidData),
            Err(e) => Err(e),
        }
    }
}

} // verus!
