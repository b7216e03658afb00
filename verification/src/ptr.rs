//! Address-only references to user memory.
//!
//! A [`UserPointer`] names a remote memory location without granting any
//! access to it: it encodes as the raw address alone, never the pointee
//! bytes, and a [`UserSlice`] adds an element count.  Dereferencing is
//! out of the engine's hands entirely: it requires an explicit
//! verification step supplied by the trusted side of the boundary.
//! Addresses are modelled as 64-bit values.

use core::marker::PhantomData;

use vstd::prelude::*;

use crate::api::SyscallEncodable;
use crate::error::{DecodeError, EncodeError};
use crate::primitives::{le_bytes, lemma_le_bytes_len, lemma_le_value_of_le_bytes, parse_le};
use crate::registers_and_stack::RegistersAndStackEncoder;

verus! {

/// A pointer into user memory: a raw address, typed by what it claims to
/// point at, with no way to reach the pointee through it.
#[derive(Copy, Debug, PartialEq, Eq, PartialOrd, Ord, Hash)]
pub struct UserPointer<T> {
    raw: u64,
    _pd: PhantomData<T>,
}

impl<T> Clone for UserPointer<T> {
    fn clone(&self) -> (r: Self)
        ensures
            r == *self,
    {
        UserPointer { raw: self.raw, _pd: PhantomData }
    }
}

impl<T> UserPointer<T> {
    /// The raw address this pointer names.
    pub closed spec fn addr(self) -> u64 {
        self.raw
    }

    /// Construct a new user pointer to the given address.
    pub fn new(addr: u64) -> (p: Self)
        ensures
            p.addr() == addr,
    {
        Self { raw: addr, _pd: PhantomData }
    }

    /// Construct a new null user pointer.
    pub fn new_null() -> (p: Self)
        ensures
            p.addr() == 0,
    {
        Self { raw: 0, _pd: PhantomData }
    }

    /// Is this a null user pointer?
    pub fn is_null(&self) -> (r: bool)
        ensures
            r == (self.addr() == 0),
    {
        self.raw == 0
    }

    /// The raw address, for the trusted side's verification step: the
    /// engine itself never dereferences it.
    pub fn address(&self) -> (a: u64)
        ensures
            a == self.addr(),
    {
        self.raw
    }
}

impl<T> SyscallEncodable for UserPointer<T> {
    open spec fn repr(&self) -> Seq<u8> {
        le_bytes(self.addr() as u128, 8)
    }

    closed spec fn parse(s: Seq<u8>) -> Option<(UserPointer<T>, int)> {
        match parse_le(s, 8) {
            Some((v, n)) => Some((UserPointer { raw: (v as u64), _pd: PhantomData }, n)),
            None => None,
        }
    }

    proof fn lemma_parse_repr(&self, rest: Seq<u8>) {
        let x = self.addr();
        let v = x as u128;
        lemma_le_bytes_len(v, 8);
        assert((self.repr() + rest).take(8) =~= le_bytes(v, 8));
        assert(((x as u128) >> 64) == 0) by (bit_vector);
        lemma_le_value_of_le_bytes(v, 8);
    }

    fn byte_len(&self) -> (n: usize) {
        proof {
            lemma_le_bytes_len(self.addr() as u128, 8);
        }
        8
    }

    fn encode(&self, encoder: &mut RegistersAndStackEncoder) -> (r: Result<(), EncodeError>) {
        proof {
            lemma_le_bytes_len(self.addr() as u128, 8);
        }
        let addr = self.raw;
        crate::primitives::encode_le_bytes(encoder, addr as u128, 8)
    }

    fn decode(decoder: &mut RegistersAndStackEncoder) -> (r: Result<UserPointer<T>, DecodeError>) {
        match crate::primitives::decode_le_bytes(decoder, 8) {
            Ok(v) => Ok(UserPointer { raw: #[verifier::truncate] (v as u64), _pd: PhantomData }),
            Err(e) => Err(e),
        }
    }
}

/// A slice of user memory: an address plus an element count, encoded as
/// exactly those two values and never the contents.
#[derive(Copy, Debug, PartialEq, Eq, PartialOrd, Ord, Hash)]
pub struct UserSlice<T> {
    ptr: UserPointer<T>,
    len: u64,
}

impl<T> Clone for UserSlice<T> {
    fn clone(&self) -> (r: Self)
        ensures
            r == *self,
    {
        UserSlice { ptr: self.ptr.clone(), len: self.len }
    }
}

impl<T> UserSlice<T> {
    /// The address of the first element.
    pub closed spec fn addr(self) -> u64 {
        self.ptr.addr()
    }

    /// The element count.
    pub closed spec fn spec_len(self) -> u64 {
        self.len
    }

    /// Construct a new user slice from a user pointer and length.
    pub fn from_parts(ptr: UserPointer<T>, len: u64) -> (s: Self)
        ensures
            s.addr() == ptr.addr(),
            s.spec_len() == len,
    {
        Self { ptr, len }
    }

    /// Get the length of the slice.
    pub fn len(&self) -> (n: u64)
        ensures
            n == self.spec_len(),
    {
        self.len
    }

    /// Is this slice empty?
    pub fn is_empty(&self) -> (r: bool)
        ensures
            r == (self.spec_len() == 0),
    {
        self.len == 0
    }

    /// The raw address of the first element, for the trusted side's
    /// verification step: the engine itself never dereferences it.
    pub fn address(&self) -> (a: u64)
        ensures
            a == self.addr(),
    {
        self.ptr.address()
    }
}

impl<T> SyscallEncodable for UserSlice<T> {
    open spec fn repr(&self) -> Seq<u8> {
        le_bytes(self.addr() as u128, 8) + le_bytes(self.spec_len() as u128, 8)
    }

    closed spec fn parse(s: Seq<u8>) -> Option<(UserSlice<T>, int)> {
        match UserPointer::<T>::parse(s) {
            Some((p, n)) => match parse_le(s.skip(n), 8) {
                Some((l, m)) => Some((UserSlice { ptr: p, len: (l as u64) }, n + m)),
                None => None,
            },
            None => None,
        }
    }

    proof fn lemma_parse_repr(&self, rest: Seq<u8>) {
        let l = self.spec_len() as u128;
        let tail = le_bytes(l, 8) + rest;
        lemma_le_bytes_len(self.ptr.addr() as u128, 8);
        lemma_le_bytes_len(l, 8);
        assert((self.repr() + rest) =~= self.ptr.repr() + tail);
        self.ptr.lemma_parse_repr(tail);
        assert((self.ptr.repr() + tail).skip(8) =~= tail);
        assert(tail.take(8) =~= le_bytes(l, 8));
        assert(((self.spec_len() as u128) >> 64) == 0) by {
            let x = self.spec_len();
            assert(((x as u128) >> 64) == 0) by (bit_vector);
        };
        lemma_le_value_of_le_bytes(l, 8);
    }

    fn byte_len(&self) -> (n: usize) {
        proof {
            lemma_le_bytes_len(self.ptr.addr() as u128, 8);
            lemma_le_bytes_len(self.spec_len() as u128, 8);
        }
        16
    }

    fn encode(&self, encoder: &mut RegistersAndStackEncoder) -> (r: Result<(), EncodeError>) {
        proof {
            lemma_le_bytes_len(self.ptr.addr() as u128, 8);
            lemma_le_bytes_len(self.spec_len() as u128, 8);
        }
        match self.ptr.encode(encoder) {
            Ok(()) => {},
            Err(e) => {
                return Err(e);
            },
        }
        let l = self.len;
        match crate::primitives::encode_le_bytes(encoder, l as u128, 8) {
            Ok(()) => {
                assert(final(encoder).written() =~= old(encoder).written() + self.repr());
                Ok(())
            },
            Err(e) => Err(e),
        }
    }

    fn decode(decoder: &mut RegistersAndStackEncoder) -> (r: Result<UserSlice<T>, DecodeError>) {
        let ghost s = decoder.stream();
        let ghost p0 = decoder.pos();
        let p = match UserPointer::<T>::decode(decoder) {
            Ok(p) => p,
            Err(e) => {
                return Err(e);
            },
        };
        proof {
            lemma_le_bytes_len(p.addr() as u128, 8);
            assert(s.skip(p0).skip(8) =~= s.skip(p0 + 8));
        }
        match crate::primitives::decode_le_bytes(decoder, 8) {
            Ok(l) => Ok(UserSlice { ptr: p, len: #[verifier::truncate] (l as u64) }),
            Err(e) => Err(e),
        }
    }
}

} // verus!
