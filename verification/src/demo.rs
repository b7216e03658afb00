//! A sample call surface exercising the whole engine: a handful of
//! encodable types whose implementations are written exactly as the
//! derivation layer would generate them, a fast-path call, a loopback
//! ABI over a 6×64-bit register convention, and the dispatch table that
//! routes their calls.

use vstd::prelude::*;

use crate::abi::{Allocation, SyscallAbi, MAX_REGION};
use crate::api::{
    decode_value, encode_value, spec_decode_value, FastEncodable, SyscallApi, SyscallEncodable,
    SyscallFastApi,
};
use crate::error::{DecodeError, EncodeError, SyscallError};
use crate::primitives::{le_bytes, lemma_le_bytes_len, lemma_le_value_of_le_bytes, parse_le};
use crate::ptr::{UserPointer, UserSlice};
use crate::registers_and_stack::{
    pad_stream, reg_byte, stream_of, Geometry, RegisterAndStackData, RegistersAndStackEncoder,
};
use crate::shape::{shape_repr, shape_repr_list, ShapeValue, ValueList};
use crate::table::SyscallTable;

verus! {

/// The register convention the sample surface runs over: six 64-bit
/// registers, the last two reserved for overflow bookkeeping.
pub open spec fn demo_geometry() -> Geometry {
    Geometry { nr_regs: 6, reg_bytes: 8 }
}

/// A unit struct: encodes to nothing.
#[derive(Clone, Copy, Debug, PartialEq, Eq, Structural)]
pub struct Unit;

impl SyscallEncodable for Unit {
    open spec fn repr(&self) -> Seq<u8> {
        Seq::empty()
    }

    open spec fn parse(s: Seq<u8>) -> Option<(Unit, int)> {
        Some((Unit, 0))
    }

    proof fn lemma_parse_repr(&self, rest: Seq<u8>) {
    }

    fn byte_len(&self) -> (n: usize) {
        0
    }

    fn encode(&self, encoder: &mut RegistersAndStackEncoder) -> (r: Result<(), EncodeError>) {
        assert(final(encoder).written() =~= old(encoder).written() + self.repr());
        Ok(())
    }

    fn decode(decoder: &mut RegistersAndStackEncoder) -> (r: Result<Unit, DecodeError>) {
        Ok(Unit)
    }
}

/// The successful return type of the sample call: another unit struct.
#[derive(Clone, Copy, Debug, PartialEq, Eq, Structural)]
pub struct FooRet;

impl SyscallEncodable for FooRet {
    open spec fn repr(&self) -> Seq<u8> {
        Seq::empty()
    }

    open spec fn parse(s: Seq<u8>) -> Option<(FooRet, int)> {
        Some((FooRet, 0))
    }

    proof fn lemma_parse_repr(&self, rest: Seq<u8>) {
    }

    fn byte_len(&self) -> (n: usize) {
        0
    }

    fn encode(&self, encoder: &mut RegistersAndStackEncoder) -> (r: Result<(), EncodeError>) {
        assert(final(encoder).written() =~= old(encoder).written() + self.repr());
        Ok(())
    }

    fn decode(decoder: &mut RegistersAndStackEncoder) -> (r: Result<FooRet, DecodeError>) {
        Ok(FooRet)
    }
}

/// The application-level error type of the sample call: a one-variant
/// enum, encoded as its `u64` discriminant alone.
#[derive(Clone, Copy, Debug, PartialEq, Eq, Structural)]
pub enum SimpleErr {
    Sad,
}

impl SyscallEncodable for SimpleErr {
    open spec fn repr(&self) -> Seq<u8> {
        le_bytes(0, 8)
    }

    open spec fn parse(s: Seq<u8>) -> Option<(SimpleErr, int)> {
        match parse_le(s, 8) {
            Some((d, n)) => if d == 0 {
                Some((SimpleErr::Sad, n))
            } else {
                None
            },
            None => None,
        }
    }

    proof fn lemma_parse_repr(&self, rest: Seq<u8>) {
        lemma_le_bytes_len(0, 8);
        assert((self.repr() + rest).take(8) =~= le_bytes(0, 8));
        assert((0u128 >> 64) == 0) by (bit_vector);
        lemma_le_value_of_le_bytes(0, 8);
    }

    fn byte_len(&self) -> (n: usize) {
        proof {
            lemma_le_bytes_len(0, 8);
        }
        8
    }

    fn encode(&self, encoder: &mut RegistersAndStackEncoder) -> (r: Result<(), EncodeError>) {
        proof {
            lemma_le_bytes_len(0, 8);
        }
        crate::primitives::encode_le_bytes(encoder, 0, 8)
    }

    fn decode(decoder: &mut RegistersAndStackEncoder) -> (r: Result<SimpleErr, DecodeError>) {
        match crate::primitives::decode_le_bytes(decoder, 8) {
            Ok(0u128) => Ok(SimpleErr::Sad),
            Ok(_) => Err(DecodeError::InvalidData),
            Err(e) => Err(e),
        }
    }
}

/// An enum with a unit variant, a tuple variant and a struct-like
/// variant: encoded as the `u64` declaration index of the variant, then
/// that variant's fields in order.
#[derive(Clone, Copy, Debug, PartialEq, Eq, Structural)]
pub enum FooOpts {
    A,
    B(u32, bool),
    C { x: u32, y: u16 },
}

impl SyscallEncodable for FooOpts {
    open spec fn repr(&self) -> Seq<u8> {
        match self {
            FooOpts::A => le_bytes(0, 8),
            FooOpts::B(x0, x1) => le_bytes(1, 8) + x0.repr() + x1.repr(),
            FooOpts::C { x, y } => le_bytes(2, 8) + x.repr() + y.repr(),
        }
    }

    open spec fn parse(s: Seq<u8>) -> Option<(FooOpts, int)> {
        match parse_le(s, 8) {
            Some((d, n)) => if d == 0 {
                Some((FooOpts::A, 8))
            } else if d == 1 {
                match u32::parse(s.skip(8)) {
                    Some((x0, n0)) => match bool::parse(s.skip(8 + n0)) {
                        Some((x1, n1)) => Some((FooOpts::B(x0, x1), 8 + n0 + n1)),
                        None => None,
                    },
                    None => None,
                }
            } else if d == 2 {
                match u32::parse(s.skip(8)) {
                    Some((x, n0)) => match u16::parse(s.skip(8 + n0)) {
                        Some((y, n1)) => Some((FooOpts::C { x, y }, 8 + n0 + n1)),
                        None => None,
                    },
                    None => None,
                }
            } else {
                None
            },
            None => None,
        }
    }

    proof fn lemma_parse_repr(&self, rest: Seq<u8>) {
        let s = self.repr() + rest;
        match self {
            FooOpts::A => {
                lemma_le_bytes_len(0, 8);
                assert(s.take(8) =~= le_bytes(0, 8));
                assert((0u128 >> 64) == 0) by (bit_vector);
                lemma_le_value_of_le_bytes(0, 8);
            },
            FooOpts::B(x0, x1) => {
                lemma_le_bytes_len(1, 8);
                assert(s.take(8) =~= le_bytes(1, 8));
                assert((1u128 >> 64) == 0) by (bit_vector);
                lemma_le_value_of_le_bytes(1, 8);
                let tail0 = x0.repr() + (x1.repr() + rest);
                assert(s.skip(8) =~= tail0);
                x0.lemma_parse_repr(x1.repr() + rest);
                assert(s.skip(12int) =~= x1.repr() + rest);
                x1.lemma_parse_repr(rest);
            },
            FooOpts::C { x, y } => {
                lemma_le_bytes_len(2, 8);
                assert(s.take(8) =~= le_bytes(2, 8));
                assert((2u128 >> 64) == 0) by (bit_vector);
                lemma_le_value_of_le_bytes(2, 8);
                assert(s.skip(8) =~= x.repr() + (y.repr() + rest));
                x.lemma_parse_repr(y.repr() + rest);
                assert(s.skip(12int) =~= y.repr() + rest);
                y.lemma_parse_repr(rest);
            },
        }
    }

    fn byte_len(&self) -> (n: usize) {
        proof {
            lemma_le_bytes_len(0, 8);
            lemma_le_bytes_len(1, 8);
            lemma_le_bytes_len(2, 8);
        }
        match self {
            FooOpts::A => 8,
            FooOpts::B(x0, x1) => 8 + x0.byte_len() + x1.byte_len(),
            FooOpts::C { x, y } => 8 + x.byte_len() + y.byte_len(),
        }
    }

    fn encode(&self, encoder: &mut RegistersAndStackEncoder) -> (r: Result<(), EncodeError>) {
        match self {
            FooOpts::A => {
                proof {
                    lemma_le_bytes_len(0, 8);
                }
                crate::primitives::encode_le_bytes(encoder, 0, 8)
            },
            FooOpts::B(x0, x1) => {
                proof {
                    lemma_le_bytes_len(1, 8);
                }
                match crate::primitives::encode_le_bytes(encoder, 1, 8) {
                    Ok(()) => {},
                    Err(e) => {
                        return Err(e);
                    },
                }
                match x0.encode(encoder) {
                    Ok(()) => {},
                    Err(e) => {
                        return Err(e);
                    },
                }
                match x1.encode(encoder) {
                    Ok(()) => {
                        assert(final(encoder).written() =~= old(encoder).written() + self.repr());
                        Ok(())
                    },
                    Err(e) => Err(e),
                }
            },
            FooOpts::C { x, y } => {
                proof {
                    lemma_le_bytes_len(2, 8);
                }
                match crate::primitives::encode_le_bytes(encoder, 2, 8) {
                    Ok(()) => {},
                    Err(e) => {
                        return Err(e);
                    },
                }
                match x.encode(encoder) {
                    Ok(()) => {},
                    Err(e) => {
                        return Err(e);
                    },
                }
                match y.encode(encoder) {
                    Ok(()) => {
                        assert(final(encoder).written() =~= old(encoder).written() + self.repr());
                        Ok(())
                    },
                    Err(e) => Err(e),
                }
            },
        }
    }

    fn decode(decoder: &mut RegistersAndStackEncoder) -> (r: Result<FooOpts, DecodeError>) {
        let ghost s = decoder.stream();
        let ghost p0 = decoder.pos();
        let d = match crate::primitives::decode_le_bytes(decoder, 8) {
            Ok(d) => d,
            Err(e) => {
                return Err(e);
            },
        };
        proof {
            vstd::seq_lib::lemma_seq_skip_of_skip(s, p0, 8);
        }
        if d == 0 {
            Ok(FooOpts::A)
        } else if d == 1 {
            let x0 = match u32::decode(decoder) {
                Ok(x0) => x0,
                Err(e) => {
                    return Err(e);
                },
            };
            proof {
                vstd::seq_lib::lemma_seq_skip_of_skip(s, p0 + 8, 4);
                vstd::seq_lib::lemma_seq_skip_of_skip(s, p0, 12int);
                assert(s.skip(p0).skip(12int) =~= s.skip(p0 + 8).skip(4));
            }
            match bool::decode(decoder) {
                Ok(x1) => Ok(FooOpts::B(x0, x1)),
                Err(e) => Err(e),
            }
        } else if d == 2 {
            let x = match u32::decode(decoder) {
                Ok(x) => x,
                Err(e) => {
                    return Err(e);
                },
            };
            proof {
                vstd::seq_lib::lemma_seq_skip_of_skip(s, p0 + 8, 4);
                vstd::seq_lib::lemma_seq_skip_of_skip(s, p0, 12int);
                assert(s.skip(p0).skip(12int) =~= s.skip(p0 + 8).skip(4));
            }
            match u16::decode(decoder) {
                Ok(y) => Ok(FooOpts::C { x, y }),
                Err(e) => Err(e),
            }
        } else {
            Err(DecodeError::InvalidData)
        }
    }
}

/// A tuple struct: its fields in declaration order, no discriminant.
#[derive(Clone, Copy, Debug, PartialEq, Eq, Structural)]
pub struct FooOpts2(pub u16, pub bool);

impl SyscallEncodable for FooOpts2 {
    open spec fn repr(&self) -> Seq<u8> {
        self.0.repr() + self.1.repr()
    }

    open spec fn parse(s: Seq<u8>) -> Option<(FooOpts2, int)> {
        match u16::parse(s) {
            Some((x0, n0)) => match bool::parse(s.skip(n0)) {
                Some((x1, n1)) => Some((FooOpts2(x0, x1), n0 + n1)),
                None => None,
            },
            None => None,
        }
    }

    proof fn lemma_parse_repr(&self, rest: Seq<u8>) {
        let s = self.repr() + rest;
        assert(s =~= self.0.repr() + (self.1.repr() + rest));
        self.0.lemma_parse_repr(self.1.repr() + rest);
        assert(s.skip(2) =~= self.1.repr() + rest);
        self.1.lemma_parse_repr(rest);
    }

    fn byte_len(&self) -> (n: usize) {
        self.0.byte_len() + self.1.byte_len()
    }

    fn encode(&self, encoder: &mut RegistersAndStackEncoder) -> (r: Result<(), EncodeError>) {
        match self.0.encode(encoder) {
            Ok(()) => {},
            Err(e) => {
                return Err(e);
            },
        }
        match self.1.encode(encoder) {
            Ok(()) => {
                assert(final(encoder).written() =~= old(encoder).written() + self.repr());
                Ok(())
            },
            Err(e) => Err(e),
        }
    }

    fn decode(decoder: &mut RegistersAndStackEncoder) -> (r: Result<FooOpts2, DecodeError>) {
        let ghost s = decoder.stream();
        let ghost p0 = decoder.pos();
        let x0 = match u16::decode(decoder) {
            Ok(x0) => x0,
            Err(e) => {
                return Err(e);
            },
        };
        proof {
            vstd::seq_lib::lemma_seq_skip_of_skip(s, p0, 2);
        }
        match bool::decode(decoder) {
            Ok(x1) => Ok(FooOpts2(x0, x1)),
            Err(e) => Err(e),
        }
    }
}

/// The sample argument type: a nested mix of every basic shape, with
/// fields encoded in declaration order and no padding.
#[derive(Clone, Copy, Debug, PartialEq, Eq)]
pub struct Foo {
    pub x: u16,
    pub opts1: FooOpts,
    pub y: u64,
    pub a: Option<u64>,
    pub b: u64,
    pub u: (),
    pub unit: Unit,
    pub c: Result<u64, bool>,
    pub opts: FooOpts,
}

impl Default for Foo {
    fn default() -> (r: Self)
        ensures
            r == (Foo {
                x: 0,
                opts1: FooOpts::A,
                y: 0,
                a: None,
                b: 0,
                u: (),
                unit: Unit,
                c: Ok(0),
                opts: FooOpts::A,
            }),
    {
        Foo {
            x: 0,
            opts1: FooOpts::A,
            y: 0,
            a: None,
            b: 0,
            u: (),
            unit: Unit,
            c: Ok(0),
            opts: FooOpts::A,
        }
    }
}

impl SyscallEncodable for Foo {
    open spec fn repr(&self) -> Seq<u8> {
        self.x.repr() + self.opts1.repr() + self.y.repr() + self.a.repr() + self.b.repr()
            + self.u.repr() + self.unit.repr() + self.c.repr() + self.opts.repr()
    }

    open spec fn parse(s: Seq<u8>) -> Option<(Foo, int)> {
        match u16::parse(s) {
            None => None,
            Some((x, n0)) => match FooOpts::parse(s.skip(n0)) {
                None => None,
                Some((opts1, n1)) => match u64::parse(s.skip(n0 + n1)) {
                    None => None,
                    Some((y, n2)) => match <Option<u64> as SyscallEncodable>::parse(
                        s.skip(n0 + n1 + n2),
                    ) {
                        None => None,
                        Some((a, n3)) => match u64::parse(s.skip(n0 + n1 + n2 + n3)) {
                            None => None,
                            Some((b, n4)) => match <Result<u64, bool> as SyscallEncodable>::parse(
                                s.skip(n0 + n1 + n2 + n3 + n4),
                            ) {
                                None => None,
                                Some((c, n5)) => match FooOpts::parse(
                                    s.skip(n0 + n1 + n2 + n3 + n4 + n5),
                                ) {
                                    None => None,
                                    Some((opts, n6)) => Some(
                                        (
                                            Foo {
                                                x,
                                                opts1,
                                                y,
                                                a,
                                                b,
                                                u: (),
                                                unit: Unit,
                                                c,
                                                opts,
                                            },
                                            n0 + n1 + n2 + n3 + n4 + n5 + n6,
                                        ),
                                    ),
                                },
                            },
                        },
                    },
                },
            },
        }
    }

    #[verifier::rlimit(100)]
    proof fn lemma_parse_repr(&self, rest: Seq<u8>) {
        let s = self.repr() + rest;
        let t6 = self.opts.repr() + rest;
        let t5 = self.c.repr() + t6;
        let t4 = self.b.repr() + t5;
        let t3 = self.a.repr() + t4;
        let t2 = self.y.repr() + t3;
        let t1 = self.opts1.repr() + t2;
        assert(s =~= self.x.repr() + t1);
        self.x.lemma_parse_repr(t1);
        let n0 = self.x.repr().len() as int;
        assert(s.skip(n0) =~= t1);
        self.opts1.lemma_parse_repr(t2);
        let n1 = self.opts1.repr().len() as int;
        assert(s.skip(n0 + n1) =~= t2);
        self.y.lemma_parse_repr(t3);
        let n2 = self.y.repr().len() as int;
        assert(s.skip(n0 + n1 + n2) =~= t3);
        self.a.lemma_parse_repr(t4);
        let n3 = self.a.repr().len() as int;
        assert(s.skip(n0 + n1 + n2 + n3) =~= t4);
        self.b.lemma_parse_repr(t5);
        let n4 = self.b.repr().len() as int;
        assert(s.skip(n0 + n1 + n2 + n3 + n4) =~= t5);
        self.c.lemma_parse_repr(t6);
        let n5 = self.c.repr().len() as int;
        assert(s.skip(n0 + n1 + n2 + n3 + n4 + n5) =~= t6);
        self.opts.lemma_parse_repr(rest);
    }

    fn byte_len(&self) -> (n: usize) {
        self.x.byte_len() + self.opts1.byte_len() + self.y.byte_len() + self.a.byte_len()
            + self.b.byte_len() + self.c.byte_len() + self.opts.byte_len()
    }

    fn encode(&self, encoder: &mut RegistersAndStackEncoder) -> (r: Result<(), EncodeError>) {
        match self.x.encode(encoder) {
            Ok(()) => {},
            Err(e) => {
                return Err(e);
            },
        }
        match self.opts1.encode(encoder) {
            Ok(()) => {},
            Err(e) => {
                return Err(e);
            },
        }
        match self.y.encode(encoder) {
            Ok(()) => {},
            Err(e) => {
                return Err(e);
            },
        }
        match self.a.encode(encoder) {
            Ok(()) => {},
            Err(e) => {
                return Err(e);
            },
        }
        match self.b.encode(encoder) {
            Ok(()) => {},
            Err(e) => {
                return Err(e);
            },
        }
        match self.u.encode(encoder) {
            Ok(()) => {},
            Err(e) => {
                return Err(e);
            },
        }
        match self.unit.encode(encoder) {
            Ok(()) => {},
            Err(e) => {
                return Err(e);
            },
        }
        match self.c.encode(encoder) {
            Ok(()) => {},
            Err(e) => {
                return Err(e);
            },
        }
        match self.opts.encode(encoder) {
            Ok(()) => {
                assert(final(encoder).written() =~= old(encoder).written() + self.repr());
                Ok(())
            },
            Err(e) => Err(e),
        }
    }

    #[verifier::rlimit(100)]
    fn decode(decoder: &mut RegistersAndStackEncoder) -> (r: Result<Foo, DecodeError>) {
        let ghost s = decoder.stream();
        let ghost p0 = decoder.pos();
        let x = match u16::decode(decoder) {
            Ok(v) => v,
            Err(e) => {
                return Err(e);
            },
        };
        let ghost m0 = decoder.pos() - p0;
        proof {
            vstd::seq_lib::lemma_seq_skip_of_skip(s, p0, m0);
        }
        let opts1 = match FooOpts::decode(decoder) {
            Ok(v) => v,
            Err(e) => {
                return Err(e);
            },
        };
        let ghost m1 = decoder.pos() - p0;
        proof {
            vstd::seq_lib::lemma_seq_skip_of_skip(s, p0, m1);
        }
        let y = match u64::decode(decoder) {
            Ok(v) => v,
            Err(e) => {
                return Err(e);
            },
        };
        let ghost m2 = decoder.pos() - p0;
        proof {
            vstd::seq_lib::lemma_seq_skip_of_skip(s, p0, m2);
        }
        let a = match <Option<u64> as SyscallEncodable>::decode(decoder) {
            Ok(v) => v,
            Err(e) => {
                return Err(e);
            },
        };
        let ghost m3 = decoder.pos() - p0;
        proof {
            vstd::seq_lib::lemma_seq_skip_of_skip(s, p0, m3);
        }
        let b = match u64::decode(decoder) {
            Ok(v) => v,
            Err(e) => {
                return Err(e);
            },
        };
        let ghost m4 = decoder.pos() - p0;
        proof {
            vstd::seq_lib::lemma_seq_skip_of_skip(s, p0, m4);
        }
        let u = match <() as SyscallEncodable>::decode(decoder) {
            Ok(v) => v,
            Err(e) => {
                return Err(e);
            },
        };
        let unit = match Unit::decode(decoder) {
            Ok(v) => v,
            Err(e) => {
                return Err(e);
            },
        };
        let c = match <Result<u64, bool> as SyscallEncodable>::decode(decoder) {
            Ok(v) => v,
            Err(e) => {
                return Err(e);
            },
        };
        let ghost m5 = decoder.pos() - p0;
        proof {
            vstd::seq_lib::lemma_seq_skip_of_skip(s, p0, m5);
        }
        let opts = match FooOpts::decode(decoder) {
            Ok(v) => v,
            Err(e) => {
                return Err(e);
            },
        };
        Ok(Foo { x, opts1, y, a, b, u, unit, c, opts })
    }
}

/// A struct carrying a user pointer: the address round-trips, the
/// pointee never travels.
#[derive(Clone, Copy, Debug, PartialEq, Eq)]
pub struct PtrTest {
    pub ptr: UserPointer<u32>,
}

impl SyscallEncodable for PtrTest {
    open spec fn repr(&self) -> Seq<u8> {
        self.ptr.repr()
    }

    open spec fn parse(s: Seq<u8>) -> Option<(PtrTest, int)> {
        match <UserPointer<u32> as SyscallEncodable>::parse(s) {
            Some((p, n)) => Some((PtrTest { ptr: p }, n)),
            None => None,
        }
    }

    proof fn lemma_parse_repr(&self, rest: Seq<u8>) {
        self.ptr.lemma_parse_repr(rest);
    }

    fn byte_len(&self) -> (n: usize) {
        self.ptr.byte_len()
    }

    fn encode(&self, encoder: &mut RegistersAndStackEncoder) -> (r: Result<(), EncodeError>) {
        self.ptr.encode(encoder)
    }

    fn decode(decoder: &mut RegistersAndStackEncoder) -> (r: Result<PtrTest, DecodeError>) {
        match <UserPointer<u32> as SyscallEncodable>::decode(decoder) {
            Ok(p) => Ok(PtrTest { ptr: p }),
            Err(e) => Err(e),
        }
    }
}

/// A struct carrying a user slice: address and element count round-trip,
/// the contents never travel.
#[derive(Clone, Copy, Debug, PartialEq, Eq)]
pub struct SliceTest {
    pub ptr: UserSlice<u32>,
}

impl SyscallEncodable for SliceTest {
    open spec fn repr(&self) -> Seq<u8> {
        self.ptr.repr()
    }

    open spec fn parse(s: Seq<u8>) -> Option<(SliceTest, int)> {
        match <UserSlice<u32> as SyscallEncodable>::parse(s) {
            Some((p, n)) => Some((SliceTest { ptr: p }, n)),
            None => None,
        }
    }

    proof fn lemma_parse_repr(&self, rest: Seq<u8>) {
        self.ptr.lemma_parse_repr(rest);
    }

    fn byte_len(&self) -> (n: usize) {
        self.ptr.byte_len()
    }

    fn encode(&self, encoder: &mut RegistersAndStackEncoder) -> (r: Result<(), EncodeError>) {
        self.ptr.encode(encoder)
    }

    fn decode(decoder: &mut RegistersAndStackEncoder) -> (r: Result<SliceTest, DecodeError>) {
        match <UserSlice<u32> as SyscallEncodable>::decode(decoder) {
            Ok(p) => Ok(SliceTest { ptr: p }),
            Err(e) => Err(e),
        }
    }
}

/// The fast-path argument type: two integers carried in the first two
/// registers directly, never through the byte codec.
#[derive(Clone, Copy, Debug, PartialEq, Eq, Structural)]
pub struct Bar {
    pub x: u32,
    pub y: u32,
}

impl FastEncodable for Bar {
    open spec fn args_match(self, d: RegisterAndStackData) -> bool {
        &&& d.regs@ == seq![self.x as u128, self.y as u128, 0u128, 0u128, 0u128, 0u128]
        &&& d.overflow@ == Seq::<u8>::empty()
    }

    open spec fn spec_from_args(d: RegisterAndStackData) -> Bar {
        if d.regs@.len() >= 2 {
            Bar { x: d.regs@[0] as u32, y: d.regs@[1] as u32 }
        } else {
            Bar { x: 0, y: 0 }
        }
    }

    fn to_args(self) -> (d: RegisterAndStackData) {
        let mut regs: Vec<u128> = Vec::new();
        regs.push(self.x as u128);
        regs.push(self.y as u128);
        regs.push(0);
        regs.push(0);
        regs.push(0);
        regs.push(0);
        let d = RegisterAndStackData { regs, overflow: Vec::new() };
        assert(d.regs@ =~= seq![self.x as u128, self.y as u128, 0u128, 0u128, 0u128, 0u128]);
        assert(d.overflow@ =~= Seq::<u8>::empty());
        d
    }

    fn from_args(d: RegisterAndStackData) -> (r: Bar) {
        if d.regs.len() >= 2 {
            let r0 = d.regs[0];
            let r1 = d.regs[1];
            Bar {
                x: #[verifier::truncate] (r0 as u32),
                y: #[verifier::truncate] (r1 as u32),
            }
        } else {
            Bar { x: 0, y: 0 }
        }
    }
}

/// The fast-path return type: one flag in the first register.
#[derive(Clone, Copy, Debug, PartialEq, Eq, Structural)]
pub struct Baz {
    pub a: bool,
}

impl FastEncodable for Baz {
    open spec fn args_match(self, d: RegisterAndStackData) -> bool {
        &&& d.regs@ == seq![
            if self.a {
                1u128
            } else {
                0u128
            },
            0u128,
            0u128,
            0u128,
            0u128,
            0u128,
        ]
        &&& d.overflow@ == Seq::<u8>::empty()
    }

    open spec fn spec_from_args(d: RegisterAndStackData) -> Baz {
        if d.regs@.len() >= 1 {
            Baz { a: d.regs@[0] != 0 }
        } else {
            Baz { a: false }
        }
    }

    fn to_args(self) -> (d: RegisterAndStackData) {
        let mut regs: Vec<u128> = Vec::new();
        let first: u128 = if self.a {
            1
        } else {
            0
        };
        regs.push(first);
        regs.push(0);
        regs.push(0);
        regs.push(0);
        regs.push(0);
        regs.push(0);
        let d = RegisterAndStackData { regs, overflow: Vec::new() };
        assert(d.regs@ =~= seq![first, 0u128, 0u128, 0u128, 0u128, 0u128]);
        assert(d.overflow@ =~= Seq::<u8>::empty());
        d
    }

    fn from_args(d: RegisterAndStackData) -> (r: Baz) {
        if d.regs.len() >= 1 {
            let r0 = d.regs[0];
            Baz { a: r0 != 0 }
        } else {
            Baz { a: false }
        }
    }
}

/// Fast-path round trip: converting a `Bar` to its blob and back yields
/// the same value, with the byte codec never involved.
pub proof fn lemma_bar_fast_round_trip(b: Bar, d: RegisterAndStackData)
    requires
        b.args_match(d),
    ensures
        Bar::spec_from_args(d) == b,
{
}

/// Fast-path round trip for the return side.
pub proof fn lemma_baz_fast_round_trip(b: Baz, d: RegisterAndStackData)
    requires
        b.args_match(d),
    ensures
        Baz::spec_from_args(d) == b,
{
}

/// What the table replies to the registered byte-codec call: the
/// handler's result when the argument blob is well-formed and decodes,
/// the invalid-data error otherwise.
pub open spec fn foo_reply(args: RegisterAndStackData) -> Result<FooRet, SyscallError<SimpleErr>> {
    if args.regs@.len() == 6 && args.overflow@.len() <= MAX_REGION as int {
        match spec_decode_value::<Foo>(stream_of(args, demo_geometry())) {
            Ok(foo) => Ok(FooRet),
            Err(e) => Err(SyscallError::InvalidData),
        }
    } else {
        Err(SyscallError::InvalidData)
    }
}

/// What the sample table replies to one incoming call: the encoded
/// handler result for the registered byte-codec call, the fast reply
/// blob for the fast call, and the encoded invalid-number error for
/// everything else.
pub open spec fn demo_reply_ok(num: u64, args: RegisterAndStackData, r: RegisterAndStackData) -> bool {
    &&& r.regs@.len() == demo_geometry().nr_regs as int
    &&& r.overflow@.len() <= MAX_REGION as int
    &&& num == 1 ==> stream_of(r, demo_geometry()) == pad_stream(
        foo_reply(args).repr(),
        demo_geometry(),
    )
    &&& num == 2 ==> (Baz { a: false }).args_match(r)
    &&& num != 1 && num != 2 ==> stream_of(r, demo_geometry()) == pad_stream(
        (Err::<(), SyscallError<()>>(SyscallError::InvalidNum)).repr(),
        demo_geometry(),
    )
}

/// The sample dispatch table: call number 1 is `Foo` through the byte
/// codec, call number 2 is the fast `Bar` call, and any other number is
/// answered with an encoded `InvalidNum` error blob, never a panic.
pub struct NullHandler;

impl NullHandler {
    /// Route one incoming call to its pipeline.  Exactly one handler
    /// claims each number: number 1 decodes a `Foo`, runs its handler
    /// (which returns `FooRet`), and encodes the reply; number 2 converts
    /// through the fast path; everything else is the invalid-number
    /// error, encoded on the return channel.
    pub fn dispatch(&self, num: u64, args: RegisterAndStackData) -> (r: RegisterAndStackData)
        ensures
            demo_reply_ok(num, args, r),
    {
        let g = Geometry { nr_regs: 6, reg_bytes: 8 };
        if num == 1 {
            let res: Result<FooRet, SyscallError<SimpleErr>> = match decode_value::<Foo>(g, args) {
                Ok(_foo) => Ok(FooRet),
                Err(_) => Err(SyscallError::InvalidData),
            };
            let alloc = Allocation::null();
            match encode_value(g, alloc, &res) {
                Ok(d) => d,
                Err(_) => {
                    proof {
                        assert(res.repr().len() <= 2);
                        assert(false);
                    }
                    RegisterAndStackData { regs: Vec::new(), overflow: Vec::new() }
                },
            }
        } else if num == 2 {
            let _bar = Bar::from_args(args);
            let ret = Baz { a: false };
            ret.to_args()
        } else {
            let res: Result<(), SyscallError<()>> = Err(SyscallError::InvalidNum);
            let alloc = Allocation::null();
            match encode_value(g, alloc, &res) {
                Ok(d) => d,
                Err(_) => {
                    proof {
                        assert(res.repr().len() <= 2);
                        assert(false);
                    }
                    RegisterAndStackData { regs: Vec::new(), overflow: Vec::new() }
                },
            }
        }
    }
}

/// The two-field packing scenario: a product of two 32-bit fields
/// carrying 8 and 9.  Its eight bytes fit the packed registers of the
/// 6×64-bit convention with no overflow.
pub open spec fn two_field_scenario() -> ShapeValue {
    ShapeValue::Product {
        fields: Box::new(
            ValueList::Cons(
                ShapeValue::UInt { bytes: 4, value: 8 },
                Box::new(
                    ValueList::Cons(
                        ShapeValue::UInt { bytes: 4, value: 9 },
                        Box::new(ValueList::Nil),
                    ),
                ),
            ),
        ),
    }
}

/// Concrete register contents of the two-field scenario: any blob whose
/// stream carries the scenario's encoding — as
/// [`crate::shape::encode_shaped_value`] ensures — holds exactly
/// 0x0000000900000008 in its first register: both fields packed, low
/// field in the low bytes.
pub proof fn lemma_two_field_scenario_register(d: RegisterAndStackData)
    requires
        d.regs@.len() == 6,
        stream_of(d, demo_geometry()) == pad_stream(
            shape_repr(two_field_scenario()),
            demo_geometry(),
        ),
        forall|q: int, b: int|
            0 <= q < d.regs@.len() && 0 <= b < 16 && !(q < demo_geometry().nr_regs - 2
                && b < demo_geometry().reg_bytes && q * demo_geometry().reg_bytes + b
                < shape_repr(two_field_scenario()).len())
                ==> #[trigger] reg_byte(d.regs@[q], b) == 0,
    ensures
        d.regs@[0] == 0x0000000900000008u128,
{
    let g = demo_geometry();
    let w = shape_repr(two_field_scenario());
    let big: u128 = 0x0000000900000008;
    lemma_le_bytes_len(8, 4);
    lemma_le_bytes_len(9, 4);
    lemma_le_bytes_len(big, 8);
    let v1 = ShapeValue::UInt { bytes: 4, value: 8 };
    let v2 = ShapeValue::UInt { bytes: 4, value: 9 };
    assert(shape_repr(v1) == le_bytes(8, 4));
    assert(shape_repr(v2) == le_bytes(9, 4));
    assert(shape_repr_list(ValueList::Nil) == Seq::<u8>::empty());
    assert(shape_repr_list(ValueList::Cons(v2, Box::new(ValueList::Nil))) == shape_repr(v2)
        + shape_repr_list(ValueList::Nil));
    assert(shape_repr_list(
        ValueList::Cons(v1, Box::new(ValueList::Cons(v2, Box::new(ValueList::Nil)))),
    ) == shape_repr(v1) + (shape_repr(v2) + shape_repr_list(ValueList::Nil)));
    assert(w =~= le_bytes(8, 4) + le_bytes(9, 4));
    assert forall|i: int| 0 <= i < 8 implies w[i] == le_bytes(big, 8)[i] by {
        crate::primitives::lemma_le_bytes_index(big, 8, i);
        if i < 4 {
            crate::primitives::lemma_le_bytes_index(8, 4, i);
            let ii = i as u128;
            assert(ii < 4 ==> ((8u128 >> ((8 * ii) as u128)) & 0xff) == ((0x0000000900000008u128
                >> ((8 * ii) as u128)) & 0xff)) by (bit_vector);
        } else {
            crate::primitives::lemma_le_bytes_index(9, 4, i - 4);
            let ii = i as u128;
            assert(4 <= ii < 8 ==> ((9u128 >> ((8 * (ii - 4)) as u128)) & 0xff) == ((
            0x0000000900000008u128 >> ((8 * ii) as u128)) & 0xff)) by (bit_vector);
        }
    };
    assert(w =~= le_bytes(big, 8));
    assert((0x0000000900000008u128 >> 64) == 0) by (bit_vector);
    lemma_le_value_of_le_bytes(big, 8);
    crate::api::lemma_packed_register_value(d, g, w, 0);
    assert(pad_stream(w, g).subrange(0, 8) =~= w);
}

/// Dispatch correctness, caller's view: the reply the table builds for
/// a decodable `Foo` call is read back on the caller side as exactly the
/// handler's successful result.
pub proof fn lemma_dispatch_foo_reply(args: RegisterAndStackData, r: RegisterAndStackData)
    requires
        args.regs@.len() == 6,
        args.overflow@.len() <= MAX_REGION as int,
        <Foo as SyscallEncodable>::parse(stream_of(args, demo_geometry())) is Some,
        stream_of(r, demo_geometry()) == pad_stream(foo_reply(args).repr(), demo_geometry()),
    ensures
        crate::api::spec_ret_outcome::<FooRet, SimpleErr>(stream_of(r, demo_geometry())) == Ok::<
            FooRet,
            SyscallError<SimpleErr>,
        >(FooRet),
{
    let g = demo_geometry();
    let reply = foo_reply(args);
    assert(reply == Ok::<FooRet, SyscallError<SimpleErr>>(FooRet));
    let w = reply.repr();
    assert(w =~= seq![0u8]);
    let pad = Seq::new((g.packed_capacity() - w.len()) as nat, |i: int| 0u8);
    reply.lemma_parse_repr(pad);
    assert(pad_stream(w, g) =~= w + pad);
}

/// Dispatch correctness for an unregistered number, caller's view: the
/// invalid-number reply blob is read back as exactly `InvalidNum`.  The
/// table encodes it with unit payload types, but the bytes are the same
/// ones the caller's own return and error types parse.
pub proof fn lemma_dispatch_unknown_reply(r: RegisterAndStackData)
    requires
        stream_of(r, demo_geometry()) == pad_stream(
            (Err::<(), SyscallError<()>>(SyscallError::InvalidNum)).repr(),
            demo_geometry(),
        ),
    ensures
        crate::api::spec_ret_outcome::<FooRet, SimpleErr>(stream_of(r, demo_geometry())) == Err::<
            FooRet,
            SyscallError<SimpleErr>,
        >(SyscallError::InvalidNum),
{
    let g = demo_geometry();
    let wire = (Err::<(), SyscallError<()>>(SyscallError::InvalidNum)).repr();
    let typed: Result<FooRet, SyscallError<SimpleErr>> = Err(SyscallError::InvalidNum);
    assert(wire =~= seq![1u8, 1u8]);
    assert(typed.repr() =~= seq![1u8, 1u8]);
    let pad = Seq::new((g.packed_capacity() - 2) as nat, |i: int| 0u8);
    typed.lemma_parse_repr(pad);
    assert(pad_stream(wire, g) =~= typed.repr() + pad);
}

/// A loopback ABI over the 6×64-bit convention: allocation is a fresh
/// owned region, the return channel never spills, and the trap routes
/// straight into the sample dispatch table.
pub struct NullAbi {
    pub handler: NullHandler,
}

impl Default for NullAbi {
    fn default() -> (r: Self)
        ensures
            r == (NullAbi { handler: NullHandler }),
    {
        NullAbi { handler: NullHandler }
    }
}

impl SyscallAbi for NullAbi {
    open spec fn spec_geometry(&self) -> Geometry {
        demo_geometry()
    }

    open spec fn spec_granted_capacity(&self, size: usize) -> int {
        if size <= MAX_REGION {
            size as int
        } else {
            MAX_REGION as int
        }
    }

    open spec fn trap_reply_ok(&self, num: u64, args: RegisterAndStackData, r: RegisterAndStackData) -> bool {
        demo_reply_ok(num, args, r)
    }

    fn geometry(&self) -> (g: Geometry) {
        Geometry { nr_regs: 6, reg_bytes: 8 }
    }

    fn with_alloc(&self, size: usize) -> (a: Allocation) {
        if size > MAX_REGION {
            Allocation::with_capacity(MAX_REGION)
        } else {
            Allocation::with_capacity(size)
        }
    }

    fn kernel_alloc(&self, _size: usize) -> (a: Allocation) {
        Allocation::null()
    }

    fn syscall_impl(&self, num: u64, args: RegisterAndStackData) -> (r: RegisterAndStackData) {
        self.handler.dispatch(num, args)
    }

    fn unrecoverable_encoding_failure(&self) {
    }
}

impl SyscallTable<NullAbi> for NullHandler {
    open spec fn reply_ok(&self, num: u64, arg: RegisterAndStackData, r: RegisterAndStackData) -> bool {
        demo_reply_ok(num, arg, r)
    }

    fn handle_call(&self, num: u64, arg: RegisterAndStackData) -> RegisterAndStackData {
        self.dispatch(num, arg)
    }
}

impl SyscallApi<NullAbi> for Foo {
    type ReturnType = FooRet;

    type ErrorType = SimpleErr;

    open spec fn spec_num() -> u64 {
        1
    }

    fn num() -> (n: u64) {
        proof {
            assert(<Foo as SyscallApi<NullAbi>>::spec_num() == 1);
        }
        1
    }
}

impl SyscallFastApi<NullAbi> for Bar {
    type ReturnType = Baz;

    open spec fn spec_num() -> u64 {
        2
    }

    fn num() -> (n: u64) {
        proof {
            assert(<Bar as SyscallFastApi<NullAbi>>::spec_num() == 2);
        }
        2
    }
}

} // verus!
