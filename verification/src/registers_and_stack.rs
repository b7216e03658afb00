//! The register/stack codec: packs an encoded value byte-by-byte into a
//! small register file, spilling to the overflow allocation once the
//! packed registers are exhausted.  Somewhat slow, but it can encode all
//! the basic types, and its byte stream model is proved reversible.

use vstd::prelude::*;

use crate::abi::{Allocation, MAX_REGION};
use crate::error::{DecodeError, EncodeError};

verus! {

/// The register geometry of one calling convention: how many register
/// slots the trap carries and how many bytes each holds.  Both are
/// construction-time constants shared by encoder and decoder.
#[derive(Debug, Clone, Copy, PartialEq, Eq, Structural)]
pub struct Geometry {
    /// Number of register slots crossing the trap boundary.
    pub nr_regs: usize,
    /// Width of one register in bytes (4, 8 or 16).
    pub reg_bytes: usize,
}

impl Geometry {
    pub open spec fn wf(self) -> bool {
        &&& 2 <= self.nr_regs <= 64
        &&& (self.reg_bytes == 4 || self.reg_bytes == 8 || self.reg_bytes == 16)
        &&& 0 <= self.packed_capacity()
    }

    /// How many bytes pack directly into registers.  The last two register
    /// slots are reserved for overflow bookkeeping: one for the overflow
    /// base, one kept free for at least one pointer under maximal packing
    /// pressure.
    pub open spec fn packed_capacity(self) -> int {
        (self.nr_regs - 2) * self.reg_bytes
    }

    /// Exec mirror of [`Self::packed_capacity`].
    pub fn packed_capacity_bytes(self) -> (n: usize)
        requires
            self.wf(),
        ensures
            n as int == self.packed_capacity(),
    {
        (self.nr_regs - 2) * self.reg_bytes
    }

    /// Geometry with `nr_regs` slots of register type `R`.
    pub fn for_register<R: AllowedRegisterType>(nr_regs: usize) -> (g: Geometry)
        requires
            2 <= nr_regs <= 64,
        ensures
            g.wf(),
            g.nr_regs == nr_regs,
            g.reg_bytes == R::spec_reg_bytes(),
    {
        let g = Geometry { nr_regs, reg_bytes: R::reg_bytes() };
        assert(0 <= (g.nr_regs - 2) * g.reg_bytes) by (nonlinear_arith)
            requires 2 <= g.nr_regs, 1 <= g.reg_bytes;
        g
    }
}

/// An allowed register type for the codec: one of the fixed-width
/// unsigned integers a trap convention can carry in one slot.
pub trait AllowedRegisterType {
    spec fn spec_reg_bytes() -> usize;

    /// Width of this register type in bytes.
    fn reg_bytes() -> (n: usize)
        ensures
            n == Self::spec_reg_bytes(),
            n == 4 || n == 8 || n == 16,
    ;
}

impl AllowedRegisterType for u32 {
    open spec fn spec_reg_bytes() -> usize {
        4
    }

    fn reg_bytes() -> usize {
        4
    }
}

impl AllowedRegisterType for u64 {
    open spec fn spec_reg_bytes() -> usize {
        8
    }

    fn reg_bytes() -> usize {
        8
    }
}

impl AllowedRegisterType for u128 {
    open spec fn spec_reg_bytes() -> usize {
        16
    }

    fn reg_bytes() -> usize {
        16
    }
}

/// The encoded argument/return blob: the ordered register file, plus the
/// overflow bytes that spilled past it.  Register slots are held widened
/// to 128 bits; a geometry with narrower registers only ever uses the low
/// `reg_bytes` bytes of each slot.  The overflow register of the original
/// convention holds a base address; since this model cannot follow raw
/// addresses, the blob carries the pointed-to bytes themselves, which must
/// stay intact until the receiver finishes decoding.
#[derive(Debug, Clone, PartialEq, Eq)]
pub struct RegisterAndStackData {
    pub regs: Vec<u128>,
    pub overflow: Vec<u8>,
}

/// Byte `i` (little-endian) of one widened register slot.
pub open spec fn reg_byte(r: u128, i: int) -> u8 {
    ((r >> (8 * i) as u128) & 0xff) as u8
}

/// The abstract byte stream an encoded blob carries: the packed register
/// bytes in slot order, then the overflow bytes.  This is the sequence the
/// decoder reads back, and the sense in which encoding is reversible.
pub open spec fn stream_of(d: RegisterAndStackData, g: Geometry) -> Seq<u8> {
    Seq::new((g.packed_capacity() + d.overflow.len()) as nat, |k: int|
        if k < g.packed_capacity() {
            reg_byte(d.regs@[k / g.reg_bytes as int], k % g.reg_bytes as int)
        } else {
            d.overflow@[k - g.packed_capacity()]
        })
}

/// `w` padded with zero bytes up to the packed register capacity: the
/// stream a finished encode yields when the value did not fill every
/// packed register.
pub open spec fn pad_stream(w: Seq<u8>, g: Geometry) -> Seq<u8> {
    if w.len() >= g.packed_capacity() {
        w
    } else {
        w + Seq::new((g.packed_capacity() - w.len()) as nat, |i: int| 0u8)
    }
}

/// How many bytes of a `len`-byte value spill past the packed registers.
pub open spec fn spill_len(len: int, g: Geometry) -> int {
    if len > g.packed_capacity() {
        len - g.packed_capacity()
    } else {
        0
    }
}

proof fn lemma_zero_reg_byte(b: int)
    requires
        0 <= b < 16,
    ensures
        reg_byte(0, b) == 0,
{
    let bb = b as u64;
    assert(bb < 16 ==> ((0u128 >> ((8 * bb) as u128)) & 0xff) == 0) by (bit_vector);
}

proof fn lemma_byte_mask_bound(x: u128)
    ensures
        x & 0xff < 256,
{
    assert(x & 0xff < 256) by (bit_vector);
}

/// Packing a byte into position `b` of a register whose byte `b` is still
/// zero sets exactly that byte and leaves every other byte alone.
proof fn lemma_reg_set_byte(x: u128, v: u8, b: u64)
    requires
        b < 16,
        reg_byte(x, b as int) == 0,
    ensures
        reg_byte(x | ((v as u128) << ((8 * b) as u128)), b as int) == v,
        forall|j: int| 0 <= j < 16 && j != b as int
            ==> reg_byte(x | ((v as u128) << ((8 * b) as u128)), j) == reg_byte(x, j),
{
    let y = x | ((v as u128) << ((8 * b) as u128));
    assert((x >> ((8 * b) as u128)) & 0xff < 256) by (bit_vector);
    assert(((x >> ((8 * b) as u128)) & 0xff) == 0);
    assert(b < 16 && ((x >> ((8 * b) as u128)) & 0xff) == 0 ==> (((x | ((v as u128) << ((8 * b)
        as u128))) >> ((8 * b) as u128)) & 0xff) == v as u128) by (bit_vector);
    assert(reg_byte(y, b as int) == ((y >> ((8 * b) as u128)) & 0xff) as u8);
    assert forall|j: int| 0 <= j < 16 && j != b as int implies reg_byte(y, j) == reg_byte(x, j) by {
        let jj = j as u64;
        assert(b < 16 && jj < 16 && jj != b ==> (((x | ((v as u128) << ((8 * b) as u128))) >> ((8
            * jj) as u128)) & 0xff) == ((x >> ((8 * jj) as u128)) & 0xff)) by (bit_vector);
    };
}

/// Decomposition of a packed byte position into register slot and byte
/// index inside the slot.
proof fn lemma_packed_index(k: int, rb: int, slots: int)
    requires
        1 <= rb <= 16,
        0 <= k < slots * rb,
        0 <= slots,
    ensures
        0 <= k / rb < slots,
        0 <= k % rb < rb,
        k == (k / rb) * rb + k % rb,
{
    vstd::arithmetic::div_mod::lemma_fundamental_div_mod(k, rb);
    assert(0 <= k % rb < rb) by (nonlinear_arith)
        requires rb >= 1, k >= 0;
    assert(0 <= k / rb) by (nonlinear_arith)
        requires rb >= 1, k >= 0;
    assert(k / rb < slots) by (nonlinear_arith)
        requires rb >= 1, k < slots * rb, k == (k / rb) * rb + k % rb, 0 <= k % rb, 0 <= k / rb;
}

/// The codec: one engine with an encode mode and a decode mode.  Encoding
/// starts from a fresh zeroed register file and a live allocation and
/// appends bytes; decoding starts from a previously produced blob and
/// reads the identical byte stream back in the same order.
pub struct RegistersAndStackEncoder {
    geom: Geometry,
    regs: Vec<u128>,
    overflow: Vec<u8>,
    alloc: Allocation,
    cursor: usize,
    encoding: bool,
}

impl RegistersAndStackEncoder {
    pub closed spec fn geom(self) -> Geometry {
        self.geom
    }

    pub closed spec fn is_encoding(self) -> bool {
        self.encoding
    }

    /// Total number of bytes one encode through this encoder can hold:
    /// the packed register bytes plus the overflow region.
    pub closed spec fn capacity(self) -> int {
        self.geom.packed_capacity() + self.alloc.size()
    }

    /// The byte stream appended so far (encode mode).
    pub closed spec fn written(self) -> Seq<u8> {
        Seq::new(self.cursor as nat, |k: int|
            if k < self.geom.packed_capacity() {
                reg_byte(self.regs@[k / self.geom.reg_bytes as int], k % self.geom.reg_bytes as int)
            } else {
                self.alloc.bytes()[k - self.geom.packed_capacity()]
            })
    }

    /// The byte stream being read (decode mode).
    pub closed spec fn stream(self) -> Seq<u8> {
        Seq::new((self.geom.packed_capacity() + self.overflow.len()) as nat, |k: int|
            if k < self.geom.packed_capacity() {
                reg_byte(self.regs@[k / self.geom.reg_bytes as int], k % self.geom.reg_bytes as int)
            } else {
                self.overflow@[k - self.geom.packed_capacity()]
            })
    }

    /// The read cursor (decode mode).
    pub closed spec fn pos(self) -> int {
        self.cursor as int
    }

    /// Every register byte outside the written packed prefix is still
    /// zero: the reserved slots, the widened high bytes, and everything
    /// at or past the cursor.
    spec fn zeros_outside(self) -> bool {
        forall|q: int, b: int|
            0 <= q < self.regs.len() && 0 <= b < 16 && !(q < self.geom.nr_regs - 2
                && b < self.geom.reg_bytes && q * self.geom.reg_bytes + b < self.cursor)
                ==> #[trigger] reg_byte(self.regs@[q], b) == 0
    }

    pub closed spec fn inv(self) -> bool {
        &&& self.geom.wf()
        &&& self.regs.len() == self.geom.nr_regs
        &&& if self.encoding {
            &&& self.overflow.len() == 0
            &&& self.alloc.wf()
            &&& self.cursor as int <= self.capacity()
            &&& self.alloc.spec_taken() == spill_len(self.cursor as int, self.geom)
            &&& self.zeros_outside()
        } else {
            &&& self.alloc.size() == 0
            &&& self.overflow.len() <= MAX_REGION
            &&& self.cursor as int <= self.geom.packed_capacity() + self.overflow.len()
        }
    }

    pub open spec fn wf(self) -> bool {
        &&& self.inv()
        &&& self.geom().wf()
        &&& self.is_encoding() ==> self.written().len() <= self.capacity()
        &&& self.is_encoding() ==> self.geom().packed_capacity() <= self.capacity()
        &&& !self.is_encoding() ==> 0 <= self.pos() <= self.stream().len()
        &&& !self.is_encoding() ==> self.geom().packed_capacity() <= self.stream().len()
    }

    /// Make a new encoder, ready to encode into a fresh zeroed register
    /// file with `allocation` as the overflow region.
    pub fn new_encode(geom: Geometry, allocation: Allocation) -> (e: Self)
        requires
            geom.wf(),
            allocation.wf(),
            allocation.spec_taken() == 0,
        ensures
            e.wf(),
            e.is_encoding(),
            e.geom() == geom,
            e.written() == Seq::<u8>::empty(),
            e.capacity() == geom.packed_capacity() + allocation.size(),
    {
        let mut regs: Vec<u128> = Vec::new();
        let mut i: usize = 0;
        while i < geom.nr_regs
            invariant
                i <= geom.nr_regs,
                regs@ == Seq::new(i as nat, |j: int| 0u128),
            decreases geom.nr_regs - i,
        {
            regs.push(0u128);
            assert(regs@ =~= Seq::new((i + 1) as nat, |j: int| 0u128));
            i = i + 1;
        }
        let e = Self { geom, regs, overflow: Vec::new(), alloc: allocation, cursor: 0, encoding: true };
        assert(e.zeros_outside()) by {
            assert forall|q: int, b: int| 0 <= q < e.regs.len() && 0 <= b < 16
                implies #[trigger] reg_byte(e.regs@[q], b) == 0 by {
                lemma_zero_reg_byte(b);
            };
        };
        assert(e.written() =~= Seq::<u8>::empty());
        e
    }

    /// Make a new decoder over a previously produced blob.  Decoding never
    /// spills further; it only reads the bytes already present.
    pub fn new_decode(geom: Geometry, decode_data: RegisterAndStackData) -> (e: Self)
        requires
            geom.wf(),
            decode_data.regs@.len() == geom.nr_regs as int,
            decode_data.overflow@.len() <= MAX_REGION as int,
        ensures
            e.wf(),
            !e.is_encoding(),
            e.geom() == geom,
            e.pos() == 0,
            e.stream() == stream_of(decode_data, geom),
    {
        let e = Self {
            geom,
            regs: decode_data.regs,
            overflow: decode_data.overflow,
            alloc: Allocation::null(),
            cursor: 0,
            encoding: false,
        };
        assert(e.stream() =~= stream_of(decode_data, geom));
        e
    }

    /// Append one byte to the encoded stream: pack it into the current
    /// register while the packed slots last, spill it to the overflow
    /// region after that.  Fails exactly when the total capacity is spent.
    pub fn encode_u8(&mut self, item: u8) -> (r: Result<(), EncodeError>)
        requires
            old(self).wf(),
            old(self).is_encoding(),
        ensures
            final(self).wf(),
            final(self).is_encoding(),
            final(self).geom() == old(self).geom(),
            final(self).capacity() == old(self).capacity(),
            (r is Ok) <==> old(self).written().len() < old(self).capacity(),
            r is Ok ==> final(self).written() == old(self).written().push(item),
            r is Err ==> r == Err::<(), EncodeError>(EncodeError::AllocationError)
                && final(self).written() == old(self).written(),
    {
        let rb = self.geom.reg_bytes;
        let cap = self.geom.packed_capacity_bytes();
        let ghost g = self.geom;
        let ghost rbi = g.reg_bytes as int;
        let ghost capi = g.packed_capacity();
        if self.cursor < cap {
            let q = self.cursor / rb;
            let b = self.cursor % rb;
            proof {
                lemma_packed_index(self.cursor as int, rbi, g.nr_regs - 2);
                assert(reg_byte(old(self).regs@[q as int], b as int) == 0);
            }
            let reg = self.regs[q];
            let updated = reg | ((item as u128) << ((8 * b) as u128));
            proof {
                lemma_reg_set_byte(reg, item, b as u64);
            }
            self.regs[q] = updated;
            self.cursor = self.cursor + 1;
            proof {
                let prev = *old(self);
                let cur = prev.cursor as int;
                assert forall|k: int| 0 <= k < self.cursor as int
                    implies self.written()[k] == prev.written().push(item)[k] by {
                    lemma_packed_index(k, rbi, g.nr_regs - 2);
                    let kq = k / rbi;
                    let kb = k % rbi;
                    if kq == q as int {
                        if k == cur {
                            assert(kb == b as int) by (nonlinear_arith)
                                requires
                                    k == kq * rbi + kb,
                                    cur == q as int * rbi + b as int,
                                    kq == q as int,
                                    k == cur,
                            ;
                        } else {
                            assert(kb != b as int) by (nonlinear_arith)
                                requires
                                    k == kq * rbi + kb,
                                    cur == q as int * rbi + b as int,
                                    kq == q as int,
                                    k != cur,
                            ;
                        }
                    } else {
                        assert(self.regs@[kq] == prev.regs@[kq]);
                    }
                };
                assert(self.written() =~= prev.written().push(item));
                assert forall|q2: int, b2: int|
                    0 <= q2 < self.regs.len() && 0 <= b2 < 16 && !(q2 < g.nr_regs - 2
                        && b2 < g.reg_bytes && q2 * rbi + b2 < self.cursor as int)
                    implies #[trigger] reg_byte(self.regs@[q2], b2) == 0 by {
                    assert(reg_byte(prev.regs@[q2], b2) == 0);
                    if q2 == q as int {
                        assert(!(q2 == q as int && b2 == b as int));
                        assert(reg_byte(self.regs@[q2], b2) == reg_byte(prev.regs@[q2], b2));
                    } else {
                        assert(self.regs@[q2] == prev.regs@[q2]);
                    }
                };
            }
            Ok(())
        } else {
            let ok = self.alloc.spill_byte(item);
            if ok {
                self.cursor = self.cursor + 1;
                proof {
                    let prev = *old(self);
                    assert forall|k: int| 0 <= k < self.cursor as int
                        implies self.written()[k] == prev.written().push(item)[k] by {
                        if k >= capi {
                            assert(prev.alloc.spec_taken() == prev.cursor as int - capi);
                            assert(prev.alloc.spec_taken() < prev.alloc.size());
                            if k == prev.cursor as int {
                                assert(self.alloc.bytes()[k - capi] == item);
                            } else {
                                assert(self.alloc.bytes()[k - capi] == prev.alloc.bytes()[k - capi]);
                            }
                        } else {
                            assert(self.regs@ == prev.regs@);
                        }
                    };
                    assert(self.written() =~= prev.written().push(item));
                }
                Ok(())
            } else {
                assert(self.written() =~= old(self).written());
                Err(EncodeError::AllocationError)
            }
        }
    }

    /// An optional, best-effort hint of the total encoded size, made
    /// before the first spill.  This encoder takes its overflow region
    /// fully sized up front, so the hint changes nothing.
    pub fn size_hint(&mut self, size: usize)
        requires
            old(self).wf(),
        ensures
            *final(self) == *old(self),
    {
        let _ = size;
    }

    /// Read the next byte of the stream: the exact mirror of
    /// [`Self::encode_u8`].  Fails exactly when the stream is exhausted.
    pub fn decode_u8(&mut self) -> (r: Result<u8, DecodeError>)
        requires
            old(self).wf(),
            !old(self).is_encoding(),
        ensures
            final(self).wf(),
            !final(self).is_encoding(),
            final(self).geom() == old(self).geom(),
            final(self).stream() == old(self).stream(),
            (r is Ok) <==> old(self).pos() < old(self).stream().len(),
            r is Ok ==> r == Ok::<u8, DecodeError>(old(self).stream()[old(self).pos()])
                && final(self).pos() == old(self).pos() + 1,
            r is Err ==> r == Err::<u8, DecodeError>(DecodeError::InvalidData)
                && final(self).pos() == old(self).pos(),
    {
        let rb = self.geom.reg_bytes;
        let cap = self.geom.packed_capacity_bytes();
        if self.cursor < cap {
            let q = self.cursor / rb;
            let b = self.cursor % rb;
            proof {
                lemma_packed_index(self.cursor as int, rb as int, self.geom.nr_regs - 2);
            }
            let reg = self.regs[q];
            let masked = (reg >> ((8 * b) as u128)) & 0xff;
            proof {
                lemma_byte_mask_bound(reg >> ((8 * b) as u128));
            }
            let byte = masked as u8;
            self.cursor = self.cursor + 1;
            assert(final(self).stream() =~= old(self).stream());
            Ok(byte)
        } else {
            let off = self.cursor - cap;
            if off < self.overflow.len() {
                let byte = self.overflow[off];
                self.cursor = self.cursor + 1;
                assert(final(self).stream() =~= old(self).stream());
                Ok(byte)
            } else {
                Err(DecodeError::InvalidData)
            }
        }
    }

    /// Finish encoding: hand back the accumulated register file together
    /// with whatever spilled to the overflow region.  The blob's stream is
    /// exactly the written bytes, zero-padded through the packed registers.
    pub fn finish(self) -> (d: RegisterAndStackData)
        requires
            self.wf(),
            self.is_encoding(),
        ensures
            d.regs@.len() == self.geom().nr_regs as int,
            d.overflow@.len() == spill_len(self.written().len() as int, self.geom()),
            d.overflow@.len() <= MAX_REGION as int,
            stream_of(d, self.geom()) == pad_stream(self.written(), self.geom()),
            forall|q: int, b: int|
                0 <= q < d.regs@.len() && 0 <= b < 16 && !(q < self.geom().nr_regs - 2
                    && b < self.geom().reg_bytes && q * self.geom().reg_bytes + b < self.written().len())
                    ==> #[trigger] reg_byte(d.regs@[q], b) == 0,
    {
        let ghost prev = self;
        let Self { geom, regs, overflow: _, alloc, cursor, encoding: _ } = self;
        let ghost g = geom;
        let ghost rbi = g.reg_bytes as int;
        let ghost capi = g.packed_capacity();
        let spilled = alloc.into_spilled();
        let d = RegisterAndStackData { regs, overflow: spilled };
        proof {
            let s = stream_of(d, g);
            let p = pad_stream(prev.written(), g);
            assert(s.len() == p.len());
            assert forall|k: int| 0 <= k < s.len() implies s[k] == p[k] by {
                if k < capi {
                    lemma_packed_index(k, rbi, g.nr_regs - 2);
                    if k >= prev.cursor as int {
                        assert(reg_byte(prev.regs@[k / rbi], k % rbi) == 0);
                    }
                } else {
                    assert(d.overflow@[k - capi] == prev.alloc.bytes()[k - capi]);
                }
            };
            assert(s =~= p);
        }
        d
    }
}

} // verus!
