//! The structural encoding contract and the call surface.
//!
//! [`SyscallEncodable`] is the recursive protocol every encodable type
//! implements: the type knows its exact byte representation ([`SyscallEncodable::repr`]),
//! the partial inverse ([`SyscallEncodable::parse`]), and proves that
//! parsing is the exact left inverse of encoding.  [`SyscallApi`] binds an
//! encodable type to a call number, a return type and an error type, and
//! carries the whole caller-side pipeline; [`SyscallFastApi`] is the
//! lighter-weight direct-conversion path for small fixed payloads.

use vstd::prelude::*;

use crate::abi::{Allocation, SyscallAbi, MAX_REGION};
use crate::error::{DecodeError, EncodeError, SyscallError};
use crate::registers_and_stack::{
    pad_stream, spill_len, stream_of, Geometry, RegisterAndStackData, RegistersAndStackEncoder,
};

verus! {

/// A type that can be pushed through the byte codec and pulled back out.
///
/// Every value owns an exact byte representation; encoding appends exactly
/// those bytes, decoding reads back exactly what `parse` says of the
/// stream, and `lemma_parse_repr` proves the round trip: for every value
/// and every continuation of the stream, `parse (repr v ++ rest) = Some (v, |repr v|)`.
pub trait SyscallEncodable: Sized {
    /// The exact byte sequence this value contributes to an encoded blob.
    spec fn repr(&self) -> Seq<u8>;

    /// The partial inverse of [`Self::repr`]: the value the byte stream
    /// begins with, if any, and how many bytes it occupies.
    spec fn parse(s: Seq<u8>) -> Option<(Self, int)>;

    /// Decoding is the exact left inverse of encoding: whatever follows,
    /// a stream that begins with this value's bytes parses back to it.
    proof fn lemma_parse_repr(&self, rest: Seq<u8>)
        ensures
            Self::parse(self.repr() + rest) == Some((*self, self.repr().len() as int)),
    ;

    /// The length of this value's encoding.
    fn byte_len(&self) -> (n: usize)
        requires
            self.repr().len() <= usize::MAX,
        ensures
            n as int == self.repr().len(),
    ;

    /// Append this value's bytes to the encoder.  Succeeds exactly when
    /// the encoder has room for all of them.
    fn encode(&self, encoder: &mut RegistersAndStackEncoder) -> (r: Result<(), EncodeError>)
        requires
            old(encoder).wf(),
            old(encoder).is_encoding(),
        ensures
            final(encoder).wf(),
            final(encoder).is_encoding(),
            final(encoder).geom() == old(encoder).geom(),
            final(encoder).capacity() == old(encoder).capacity(),
            (r is Ok) <==> old(encoder).written().len() + self.repr().len()
                <= old(encoder).capacity(),
            r is Ok ==> final(encoder).written() == old(encoder).written() + self.repr(),
            r is Err ==> r == Err::<(), EncodeError>(EncodeError::AllocationError),
    ;

    /// Read one value of this type from the decoder's current position:
    /// exactly what [`Self::parse`] says of the remaining stream.
    fn decode(decoder: &mut RegistersAndStackEncoder) -> (r: Result<Self, DecodeError>)
        requires
            old(decoder).wf(),
            !old(decoder).is_encoding(),
        ensures
            final(decoder).wf(),
            !final(decoder).is_encoding(),
            final(decoder).geom() == old(decoder).geom(),
            final(decoder).stream() == old(decoder).stream(),
            match Self::parse(old(decoder).stream().skip(old(decoder).pos())) {
                Some((v, n)) => r == Ok::<Self, DecodeError>(v)
                    && final(decoder).pos() == old(decoder).pos() + n,
                None => r == Err::<Self, DecodeError>(DecodeError::InvalidData),
            },
    ;
}

impl RegistersAndStackEncoder {
    /// Encode an item (delegates to the item's own protocol).
    pub fn encode<Source: SyscallEncodable>(&mut self, item: &Source) -> (r: Result<
        (),
        EncodeError,
    >)
        requires
            old(self).wf(),
            old(self).is_encoding(),
        ensures
            final(self).wf(),
            final(self).is_encoding(),
            final(self).geom() == old(self).geom(),
            final(self).capacity() == old(self).capacity(),
            (r is Ok) <==> old(self).written().len() + item.repr().len() <= old(self).capacity(),
            r is Ok ==> final(self).written() == old(self).written() + item.repr(),
            r is Err ==> r == Err::<(), EncodeError>(EncodeError::AllocationError),
    {
        item.encode(self)
    }

    /// Decode an item (delegates to the item's own protocol).
    pub fn decode<Target: SyscallEncodable>(&mut self) -> (r: Result<Target, DecodeError>)
        requires
            old(self).wf(),
            !old(self).is_encoding(),
        ensures
            final(self).wf(),
            !final(self).is_encoding(),
            final(self).geom() == old(self).geom(),
            final(self).stream() == old(self).stream(),
            match Target::parse(old(self).stream().skip(old(self).pos())) {
                Some((v, n)) => r == Ok::<Target, DecodeError>(v)
                    && final(self).pos() == old(self).pos() + n,
                None => r == Err::<Target, DecodeError>(DecodeError::InvalidData),
            },
    {
        Target::decode(self)
    }
}

/// What decoding a whole blob yields: the first value the stream parses
/// to, or `InvalidData` when it parses to none.
pub open spec fn spec_decode_value<T: SyscallEncodable>(s: Seq<u8>) -> Result<T, DecodeError> {
    match T::parse(s) {
        Some((v, n)) => Ok(v),
        None => Err(DecodeError::InvalidData),
    }
}

/// Encode one value into a fresh blob over the given geometry and
/// overflow region.  On success the blob's stream is exactly the value's
/// bytes zero-padded through the packed registers, and the overflow holds
/// exactly the bytes past the packed capacity; encoding fails exactly
/// when the value outgrows packed registers plus overflow region.
pub fn encode_value<T: SyscallEncodable>(
    geom: Geometry,
    allocation: Allocation,
    value: &T,
) -> (r: Result<RegisterAndStackData, EncodeError>)
    requires
        geom.wf(),
        allocation.wf(),
        allocation.spec_taken() == 0,
    ensures
        match r {
            Ok(d) => {
                &&& value.repr().len() <= geom.packed_capacity() + allocation.size()
                &&& d.regs@.len() == geom.nr_regs as int
                &&& stream_of(d, geom) == pad_stream(value.repr(), geom)
                &&& d.overflow@.len() == spill_len(value.repr().len() as int, geom)
                &&& d.overflow@.len() <= MAX_REGION as int
                &&& forall|q: int, b: int|
                    0 <= q < d.regs@.len() && 0 <= b < 16 && !(q < geom.nr_regs - 2
                        && b < geom.reg_bytes && q * geom.reg_bytes + b < value.repr().len())
                        ==> #[trigger] crate::registers_and_stack::reg_byte(d.regs@[q], b) == 0
            },
            Err(e) => e == EncodeError::AllocationError && value.repr().len()
                > geom.packed_capacity() + allocation.size(),
        },
{
    let mut encoder = RegistersAndStackEncoder::new_encode(geom, allocation);
    match encoder.encode(value) {
        Ok(()) => {
            assert(encoder.written() =~= value.repr());
            Ok(encoder.finish())
        },
        Err(e) => Err(e),
    }
}

/// The numeric value of each packed register of an encoded blob: every
/// register ahead of the two reserved slots holds exactly the
/// little-endian value of its slice of the padded stream.  Together with
/// the stream equation and the zeroness of the uncovered register bytes
/// from [`encode_value`], this pins every register of an encoded blob to
/// a concrete number.
pub proof fn lemma_packed_register_value(
    d: RegisterAndStackData,
    g: Geometry,
    w: Seq<u8>,
    q: int,
)
    requires
        g.wf(),
        d.regs@.len() == g.nr_regs as int,
        stream_of(d, g) == pad_stream(w, g),
        forall|q2: int, b2: int|
            0 <= q2 < d.regs@.len() && 0 <= b2 < 16 && !(q2 < g.nr_regs - 2 && b2 < g.reg_bytes
                && q2 * g.reg_bytes + b2 < w.len())
                ==> #[trigger] crate::registers_and_stack::reg_byte(d.regs@[q2], b2) == 0,
        0 <= q < g.nr_regs - 2,
    ensures
        d.regs@[q] == crate::primitives::le_value(
            pad_stream(w, g).subrange(
                q * g.reg_bytes as int,
                q * g.reg_bytes as int + g.reg_bytes as int,
            ),
        ),
{
    let rb = g.reg_bytes as int;
    let cap = g.packed_capacity();
    let p = pad_stream(w, g);
    let r = d.regs@[q];
    assert(q * rb + rb <= cap && q * rb >= 0) by (nonlinear_arith)
        requires 0 <= q, q + 1 <= g.nr_regs - 2, rb >= 1, cap == (g.nr_regs - 2) * rb;
    assert(p.len() >= cap);
    let seg = p.subrange(q * rb, q * rb + rb);
    let ext = seg + Seq::new((16 - rb) as nat, |i: int| 0u8);
    assert(seg.len() == rb);
    assert(ext.len() == 16);
    assert forall|i: int| 0 <= i < 16 implies ext[i] == crate::primitives::le_bytes(r as u128, 16)[i] by {
        crate::primitives::lemma_le_bytes_index(r, 16, i);
        if i < rb {
            let k = q * rb + i;
            assert(k < cap) by (nonlinear_arith)
                requires 0 <= i < rb, q * rb + rb <= cap, k == q * rb + i;
            vstd::arithmetic::div_mod::lemma_fundamental_div_mod_converse(k, rb, q, i);
            assert(stream_of(d, g)[k] == crate::registers_and_stack::reg_byte(d.regs@[q], i));
            assert(ext[i] == seg[i]);
            assert(seg[i] == p[k]);
        } else {
            assert(crate::registers_and_stack::reg_byte(d.regs@[q], i) == 0);
            assert(ext[i] == Seq::new((16 - rb) as nat, |j: int| 0u8)[i - rb]);
        }
    };
    crate::primitives::lemma_le_bytes_len(r, 16);
    assert(ext =~= crate::primitives::le_bytes(r, 16));
    crate::primitives::lemma_le_value_of_le_bytes(r, 16);
    crate::primitives::lemma_le_value_trailing_zeros(seg, (16 - rb) as nat);
}

/// Decode one value out of a blob.  The blob must have the geometry's
/// register count (a malformed blob is `InvalidData`); the result is
/// exactly what the blob's byte stream parses to.
pub fn decode_value<T: SyscallEncodable>(geom: Geometry, data: RegisterAndStackData) -> (r: Result<
    T,
    DecodeError,
>)
    requires
        geom.wf(),
    ensures
        data.regs@.len() == geom.nr_regs as int && data.overflow@.len() <= MAX_REGION as int
            ==> r == spec_decode_value::<T>(stream_of(data, geom)),
        !(data.regs@.len() == geom.nr_regs as int && data.overflow@.len() <= MAX_REGION as int)
            ==> r == Err::<T, DecodeError>(DecodeError::InvalidData),
{
    if data.regs.len() != geom.nr_regs {
        return Err(DecodeError::InvalidData);
    }
    if data.overflow.len() > MAX_REGION {
        return Err(DecodeError::InvalidData);
    }
    let ghost s = stream_of(data, geom);
    let mut decoder = RegistersAndStackEncoder::new_decode(geom, data);
    assert(decoder.stream().skip(0) =~= s);
    decoder.decode::<T>()
}

/// Round-trip law: for every encodable value and every continuation of
/// the stream, the bytes of the value parse back to the value itself.
pub proof fn lemma_round_trip<T: SyscallEncodable>(value: T, rest: Seq<u8>)
    ensures
        T::parse(value.repr() + rest) == Some((value, value.repr().len() as int)),
{
    value.lemma_parse_repr(rest);
}

/// decode ∘ encode == identity, executably: encoding a value and decoding
/// the resulting blob hands the value back whenever it fits the channel.
pub fn round_trip<T: SyscallEncodable>(geom: Geometry, allocation: Allocation, value: &T) -> (r:
    Option<T>)
    requires
        geom.wf(),
        allocation.wf(),
        allocation.spec_taken() == 0,
    ensures
        match r {
            Some(v) => v == *value && value.repr().len() <= geom.packed_capacity()
                + allocation.size(),
            None => value.repr().len() > geom.packed_capacity() + allocation.size(),
        },
{
    match encode_value(geom, allocation, value) {
        Ok(d) => {
            proof {
                let w = value.repr();
                if w.len() >= geom.packed_capacity() {
                    value.lemma_parse_repr(Seq::<u8>::empty());
                    assert(pad_stream(w, geom) =~= w + Seq::<u8>::empty());
                } else {
                    let pad = Seq::new((geom.packed_capacity() - w.len()) as nat, |i: int| 0u8);
                    value.lemma_parse_repr(pad);
                }
            }
            match decode_value::<T>(geom, d) {
                Ok(v) => Some(v),
                Err(_) => None,
            }
        },
        Err(_) => None,
    }
}

/// What the caller makes of a raw return stream: the reply is a
/// `Result` of the return type against the unified error, and a stream
/// that parses to none is an `InvalidData` failure.
pub open spec fn spec_ret_outcome<R: SyscallEncodable, E: SyscallEncodable>(s: Seq<u8>) -> Result<
    R,
    SyscallError<E>,
> {
    match <Result<R, SyscallError<E>> as SyscallEncodable>::parse(s) {
        Some((res, n)) => match res {
            Ok(v) => Ok(v),
            Err(se) => Err(se),
        },
        None => Err(SyscallError::InvalidData),
    }
}

/// Decode the raw return blob of a call into the caller's unified
/// result.  This is the verified half of the trap boundary: whatever blob
/// came back, the outcome is exactly what its stream parses to.
pub fn decode_ret<R: SyscallEncodable, E: SyscallEncodable>(
    geom: Geometry,
    data: RegisterAndStackData,
) -> (r: Result<R, SyscallError<E>>)
    requires
        geom.wf(),
    ensures
        data.regs@.len() == geom.nr_regs as int && data.overflow@.len() <= MAX_REGION as int
            ==> r == spec_ret_outcome::<R, E>(stream_of(data, geom)),
        !(data.regs@.len() == geom.nr_regs as int && data.overflow@.len() <= MAX_REGION as int)
            ==> r == Err::<R, SyscallError<E>>(SyscallError::InvalidData),
{
    match decode_value::<Result<R, SyscallError<E>>>(geom, data) {
        Ok(res) => match res {
            Ok(v) => Ok(v),
            Err(se) => Err(se),
        },
        Err(_) => Err(SyscallError::InvalidData),
    }
}

/// A front-facing call: an encodable type bound to a call number, a
/// return type and an error type.  `perform_call` walks the caller-side
/// pipeline: encode the arguments, cross the trap, decode the reply.
pub trait SyscallApi<A: SyscallAbi>: SyscallEncodable {
    /// The type returned by this call on success.
    type ReturnType: SyscallEncodable;

    /// The type returned by this call on error.
    type ErrorType: SyscallEncodable;

    spec fn spec_num() -> u64;

    /// The number of this call.  Must be unique within one dispatch table.
    fn num() -> (n: u64)
        ensures
            n == Self::spec_num(),
    ;

    /// Perform the call through the given ABI.  If encoding the arguments
    /// fails no trap is issued and the caller sees the allocation failure —
    /// which cannot happen to a value within the model's region bound,
    /// since the ABI grants the requested capacity.  Otherwise one trap
    /// round took place: the argument blob carried exactly this value's
    /// bytes, the reply satisfied the ABI's trap contract, and the outcome
    /// is exactly what the reply's stream parses to.
    fn perform_call(&self, abi: &A) -> (r: Result<
        Self::ReturnType,
        SyscallError<Self::ErrorType>,
    >)
        requires
            self.repr().len() <= usize::MAX,
        ensures
            ({
                ||| r == Err::<Self::ReturnType, SyscallError<Self::ErrorType>>(
                    SyscallError::AllocationError,
                )
                ||| exists|sent: RegisterAndStackData, got: RegisterAndStackData|
                    {
                        &&& #[trigger] abi.trap_reply_ok(Self::spec_num(), sent, got)
                        &&& stream_of(sent, abi.spec_geometry()) == pad_stream(
                            self.repr(),
                            abi.spec_geometry(),
                        )
                        &&& r == spec_ret_outcome::<Self::ReturnType, Self::ErrorType>(
                            stream_of(got, abi.spec_geometry()),
                        )
                    }
            }),
            self.repr().len() <= MAX_REGION as int ==> exists|
                sent: RegisterAndStackData,
                got: RegisterAndStackData,
            |
                {
                    &&& #[trigger] abi.trap_reply_ok(Self::spec_num(), sent, got)
                    &&& stream_of(sent, abi.spec_geometry()) == pad_stream(
                        self.repr(),
                        abi.spec_geometry(),
                    )
                    &&& r == spec_ret_outcome::<Self::ReturnType, Self::ErrorType>(
                        stream_of(got, abi.spec_geometry()),
                    )
                },
    {
        let g = abi.geometry();
        let len = self.byte_len();
        let allocation = abi.with_alloc(len);
        match encode_value(g, allocation, self) {
            Ok(args) => {
                let ret = abi.syscall_impl(Self::num(), args);
                let ghost sent = args;
                let ghost got = ret;
                let r = decode_ret::<Self::ReturnType, Self::ErrorType>(g, ret);
                proof {
                    assert(abi.trap_reply_ok(Self::spec_num(), sent, got) && stream_of(sent, g)
                        == pad_stream(self.repr(), g) && r == spec_ret_outcome::<
                        Self::ReturnType,
                        Self::ErrorType,
                    >(stream_of(got, g)));
                }
                r
            },
            Err(_) => {
                // The region covered the request, so only a value past the
                // model's region bound can fail to encode.
                assert(self.repr().len() > MAX_REGION as int);
                Err(SyscallError::AllocationError)
            },
        }
    }
}

/// Direct two-way conversion between a type and the raw blob, bypassing
/// the byte codec entirely: the fast path for small fixed payloads.
pub trait FastEncodable: Sized {
    /// The blob this value converts to, pinned down by its register and
    /// overflow contents.
    spec fn args_match(self, d: RegisterAndStackData) -> bool;

    spec fn spec_from_args(d: RegisterAndStackData) -> Self;

    /// Convert to the raw blob.
    fn to_args(self) -> (d: RegisterAndStackData)
        ensures
            self.args_match(d),
    ;

    /// Convert a raw blob back.
    fn from_args(d: RegisterAndStackData) -> (r: Self)
        ensures
            r == Self::spec_from_args(d),
    ;
}

/// The fast call surface: per-type direct conversions in place of the
/// general byte codec, for calls where per-byte overhead is unacceptable.
pub trait SyscallFastApi<A: SyscallAbi>: FastEncodable {
    type ReturnType: FastEncodable;

    spec fn spec_num() -> u64;

    /// The number of this call.  Must be unique within one dispatch table.
    fn num() -> (n: u64)
        ensures
            n == Self::spec_num(),
    ;

    /// Perform the call: convert, cross the trap, convert back.  One trap
    /// round took place — the argument blob was this value's direct
    /// conversion, the reply satisfied the ABI's trap contract — and the
    /// result is the reply's direct conversion.
    fn perform_call(self, abi: &A) -> (r: Self::ReturnType)
        ensures
            exists|sent: RegisterAndStackData, got: RegisterAndStackData|
                {
                    &&& #[trigger] abi.trap_reply_ok(Self::spec_num(), sent, got)
                    &&& self.args_match(sent)
                    &&& got.regs@.len() == abi.spec_geometry().nr_regs as int
                    &&& r == Self::ReturnType::spec_from_args(got)
                },
    {
        let args = self.to_args();
        let ghost sent = args;
        let ret = abi.syscall_impl(Self::num(), args);
        let ghost got = ret;
        let r = Self::ReturnType::from_args(ret);
        proof {
            assert(abi.trap_reply_ok(Self::spec_num(), sent, got) && self.args_match(sent)
                && got.regs@.len() == abi.spec_geometry().nr_regs as int && r
                == Self::ReturnType::spec_from_args(got));
        }
        r
    }
}

} // verus!
