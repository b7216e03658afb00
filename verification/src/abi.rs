//! The overflow allocation and the ABI abstraction.
//!
//! An [`Allocation`] is a bounds-checked bump cursor over one byte region,
//! used as overflow storage when an encoded value does not fit in the
//! register file.  The [`SyscallAbi`] trait parameterizes the engine over a
//! concrete calling convention: register geometry, allocation strategy and
//! the raw trap invocation.

use vstd::prelude::*;

use crate::registers_and_stack::{Geometry, RegisterAndStackData, RegistersAndStackEncoder};

verus! {

/// Upper bound on the size of one overflow region, so that cursor
/// arithmetic over `capacity = packed bytes + region size` stays inside
/// a machine word on every supported architecture.
pub const MAX_REGION: usize = 0x7fff0000;

/// An allocation performed for storing encoded values: a bump cursor over
/// one backing byte region.  A null allocation stands in where an ABI
/// guarantees no overflow is ever needed.
pub struct Allocation {
    buf: Vec<u8>,
    taken: usize,
    null: bool,
}

/// The padding that aligns `taken` up to the next multiple of `align`.
pub open spec fn align_pad(taken: int, align: int) -> int {
    (align - taken % align) % align
}

impl Allocation {
    /// True for the null (zero-capacity placeholder) allocation.
    pub closed spec fn spec_is_null(&self) -> bool {
        self.null
    }

    /// The capacity of the backing region in bytes.
    pub closed spec fn size(&self) -> int {
        self.buf.len() as int
    }

    /// How many bytes of the region have been handed out so far.
    pub closed spec fn spec_taken(&self) -> int {
        self.taken as int
    }

    /// The contents of the backing region.
    pub closed spec fn bytes(&self) -> Seq<u8> {
        self.buf@
    }

    pub open spec fn wf(&self) -> bool {
        &&& self.spec_taken() <= self.size()
        &&& self.size() <= MAX_REGION as int
        &&& self.bytes().len() == self.size()
        &&& self.spec_is_null() ==> self.size() == 0
    }

    /// Create a new null allocation.
    pub fn null() -> (a: Self)
        ensures
            a.wf(),
            a.spec_is_null(),
            a.size() == 0,
            a.spec_taken() == 0,
    {
        Self { buf: Vec::new(), taken: 0, null: true }
    }

    /// Create an allocation over a fresh zeroed region of `size` bytes.
    pub fn with_capacity(size: usize) -> (a: Self)
        requires
            size <= MAX_REGION,
        ensures
            a.wf(),
            !a.spec_is_null(),
            a.size() == size as int,
            a.spec_taken() == 0,
            a.bytes() == Seq::new(size as nat, |i: int| 0u8),
    {
        let mut buf: Vec<u8> = Vec::new();
        let mut i: usize = 0;
        while i < size
            invariant
                i <= size,
                buf@ == Seq::new(i as nat, |j: int| 0u8),
            decreases size - i,
        {
            buf.push(0u8);
            assert(buf@ =~= Seq::new((i + 1) as nat, |j: int| 0u8));
            i = i + 1;
        }
        Self { buf, taken: 0, null: false }
    }

    /// Is this a null allocation?
    pub fn is_null(&self) -> (r: bool)
        ensures
            r == self.spec_is_null(),
    {
        self.null
    }

    /// Reserve the next `size` bytes at an offset aligned to `align`,
    /// advancing the cursor past any alignment padding.  Returns the offset
    /// of the reserved range, or `None` when the region is null, the
    /// alignment cannot be satisfied, or too little room remains.  Ranges
    /// handed out by successive calls never overlap.
    pub fn reserve(&mut self, size: usize, align: usize) -> (r: Option<usize>)
        requires
            old(self).wf(),
            align >= 1,
        ensures
            final(self).wf(),
            final(self).spec_is_null() == old(self).spec_is_null(),
            final(self).size() == old(self).size(),
            final(self).bytes() == old(self).bytes(),
            (r is Some) <==> !old(self).spec_is_null() && old(self).spec_taken()
                + align_pad(old(self).spec_taken(), align as int) + size as int <= old(self).size(),
            match r {
                Some(off) => {
                    &&& off as int == old(self).spec_taken()
                        + align_pad(old(self).spec_taken(), align as int)
                    &&& off as int % align as int == 0
                    &&& off as int + size as int <= final(self).size()
                    &&& final(self).spec_taken() == off as int + size as int
                },
                None => final(self).spec_taken() == old(self).spec_taken(),
            },
    {
        if self.null {
            return None;
        }
        let rem = self.taken % align;
        let pad = if rem == 0 { 0 } else { align - rem };
        assert(pad as int == align_pad(self.taken as int, align as int)) by {
            let t = self.taken as int;
            let a = align as int;
            if rem == 0 {
                assert(a % a == 0) by (nonlinear_arith)
                    requires a >= 1;
            } else {
                assert(0 < a - t % a < a ==> (a - t % a) % a == a - t % a) by (nonlinear_arith)
                    requires a >= 1;
            }
        };
        let aligned = match self.taken.checked_add(pad) {
            Some(a) => a,
            None => {
                return None;
            },
        };
        let end = match aligned.checked_add(size) {
            Some(e) => e,
            None => {
                return None;
            },
        };
        if end > self.buf.len() {
            return None;
        }
        let off = aligned;
        self.taken = end;
        assert(off as int % align as int == 0) by {
            let t = old(self).spec_taken();
            let a = align as int;
            assert((t - t % a) % a == 0 && (t + (a - t % a)) % a == 0) by (nonlinear_arith)
                requires a >= 1, 0 <= t;
        };
        Some(off)
    }

    /// Spill one byte past the cursor, as the codec does once the packed
    /// registers are exhausted.  Fails exactly when no room is left.
    pub(crate) fn spill_byte(&mut self, b: u8) -> (r: bool)
        requires
            old(self).wf(),
        ensures
            final(self).wf(),
            final(self).spec_is_null() == old(self).spec_is_null(),
            final(self).size() == old(self).size(),
            r <==> !old(self).spec_is_null() && old(self).spec_taken() < old(self).size(),
            r ==> final(self).spec_taken() == old(self).spec_taken() + 1
                && final(self).bytes() == old(self).bytes().update(old(self).spec_taken(), b),
            !r ==> final(self).spec_taken() == old(self).spec_taken()
                && final(self).bytes() == old(self).bytes(),
    {
        match self.reserve(1, 1) {
            Some(off) => {
                self.buf[off] = b;
                true
            },
            None => false,
        }
    }

    /// Consume the allocation and hand back the bytes spilled so far, in
    /// the order they were reserved.
    pub(crate) fn into_spilled(self) -> (v: Vec<u8>)
        requires
            self.wf(),
        ensures
            v@ == self.bytes().subrange(0, self.spec_taken()),
    {
        let taken = self.taken;
        let mut buf = self.buf;
        buf.truncate(taken);
        buf
    }
}

/// Reservation never hands out overlapping memory: a later range starts
/// at or past the end of an earlier one — `reserve` leaves the cursor at
/// `off + size` and starts the next range at or past the cursor — so no
/// byte belongs to both.
pub proof fn lemma_reserved_ranges_disjoint(off1: int, size1: int, off2: int, size2: int, k: int)
    requires
        off1 + size1 <= off2,
        off1 <= k < off1 + size1,
    ensures
        !(off2 <= k < off2 + size2),
{
}

/// The parameterization of the engine over one concrete calling
/// convention: register geometry, how overflow memory is found on each
/// side of the boundary, and the raw trap itself.  The engine is verified
/// against this contract alone; a concrete ABI implements it.
pub trait SyscallAbi: Sized {
    spec fn spec_geometry(&self) -> Geometry;

    /// The overflow capacity this ABI grants for a request of `size`
    /// bytes.  It covers the request, clamped only by the model's region
    /// bound, so a value whose encoding fits the channel always finds
    /// room.
    spec fn spec_granted_capacity(&self, size: usize) -> int;

    /// What this ABI's trap can hand back for one call.  A real trap
    /// promises nothing beyond the blob's shape; a loopback ABI can tie
    /// the reply to its table here.
    spec fn trap_reply_ok(&self, num: u64, args: RegisterAndStackData, r: RegisterAndStackData) -> bool;

    /// The register geometry shared by the encoder and the decoder of
    /// every call made through this ABI.
    fn geometry(&self) -> (g: Geometry)
        ensures
            g == self.spec_geometry(),
            g.wf(),
    ;

    /// Acquire the overflow region backing one argument encode.  The
    /// region is fresh — nothing has been reserved from it — and covers
    /// the requested size, up to the model's region bound.
    fn with_alloc(&self, size: usize) -> (a: Allocation)
        ensures
            a.wf(),
            a.spec_taken() == 0,
            a.size() == self.spec_granted_capacity(size),
            a.size() >= if size <= MAX_REGION {
                size as int
            } else {
                MAX_REGION as int
            },
    ;

    /// Acquire the overflow region for encoding a return value on the
    /// receiving side.  May be the null allocation when the return channel
    /// never needs overflow.
    fn kernel_alloc(&self, size: usize) -> (a: Allocation)
        ensures
            a.wf(),
            a.spec_taken() == 0,
    ;

    /// The raw trap: transmit the call number and argument blob, hand back
    /// the return blob.  Beyond the blob's shape, whatever
    /// [`Self::trap_reply_ok`] states holds of the reply; whoever decodes
    /// it must cope with every such value.
    fn syscall_impl(&self, num: u64, args: RegisterAndStackData) -> (r: RegisterAndStackData)
        ensures
            r.regs@.len() == self.spec_geometry().nr_regs as int,
            r.overflow@.len() <= MAX_REGION as int,
            self.trap_reply_ok(num, args, r),
    ;

    /// Policy hook invoked when encoding a return value itself fails: a
    /// failure while reporting failure, terminal for the single call.
    fn unrecoverable_encoding_failure(&self);

    /// Create a new encoder for arguments.
    fn arg_encoder(&self, alloc: Allocation) -> (e: RegistersAndStackEncoder)
        requires
            alloc.wf(),
            alloc.spec_taken() == 0,
        ensures
            e.wf(),
            e.is_encoding(),
            e.geom() == self.spec_geometry(),
            e.written() == Seq::<u8>::empty(),
            e.capacity() == self.spec_geometry().packed_capacity() + alloc.size(),
    {
        RegistersAndStackEncoder::new_encode(self.geometry(), alloc)
    }

    /// Create a new decoder for arguments.
    fn arg_decoder(&self, data: RegisterAndStackData) -> (e: RegistersAndStackEncoder)
        requires
            data.regs@.len() == self.spec_geometry().nr_regs as int,
            data.overflow@.len() <= MAX_REGION as int,
        ensures
            e.wf(),
            !e.is_encoding(),
            e.geom() == self.spec_geometry(),
            e.pos() == 0,
            e.stream() == crate::registers_and_stack::stream_of(data, self.spec_geometry()),
    {
        RegistersAndStackEncoder::new_decode(self.geometry(), data)
    }

    /// Create a new encoder for return values.
    fn ret_encoder(&self, alloc: Allocation) -> (e: RegistersAndStackEncoder)
        requires
            alloc.wf(),
            alloc.spec_taken() == 0,
        ensures
            e.wf(),
            e.is_encoding(),
            e.geom() == self.spec_geometry(),
            e.written() == Seq::<u8>::empty(),
            e.capacity() == self.spec_geometry().packed_capacity() + alloc.size(),
    {
        RegistersAndStackEncoder::new_encode(self.geometry(), alloc)
    }

    /// Create a new decoder for return values.
    fn ret_decoder(&self, data: RegisterAndStackData) -> (e: RegistersAndStackEncoder)
        requires
            data.regs@.len() == self.spec_geometry().nr_regs as int,
            data.overflow@.len() <= MAX_REGION as int,
        ensures
            e.wf(),
            !e.is_encoding(),
            e.geom() == self.spec_geometry(),
            e.pos() == 0,
            e.stream() == crate::registers_and_stack::stream_of(data, self.spec_geometry()),
    {
        RegistersAndStackEncoder::new_decode(self.geometry(), data)
    }
}

} // verus!
