//! Type-safe encoding of strongly-typed values into the fixed-width
//! register/stack arguments of a system-call boundary, and back.
//!
//! The core pieces:
//! * [`abi`]: the bump [`abi::Allocation`] over an overflow region, and the
//!   [`abi::SyscallAbi`] trait that parameterizes register geometry,
//!   allocation strategy and the raw trap invocation.
//! * [`registers_and_stack`]: the byte-granular codec that packs an encoded
//!   value into a small register file and spills the rest to the overflow
//!   region, with a proved-reversible byte stream model.
//! * [`api`]: the [`api::SyscallEncodable`] contract (every value knows its
//!   exact byte representation and its parse function, and decoding is the
//!   proved left inverse of encoding), plus the call surface
//!   [`api::SyscallApi`] and [`api::SyscallFastApi`].
//! * [`shape`]: the structural encode/decode procedures for arbitrary
//!   product and sum shapes, as the derivation layer would generate them.
//! * [`ptr`]: address-only references to user memory, the one sanctioned way
//!   to name out-of-band data.
//! * [`table`]: routing an incoming call number to its handler pipeline.

pub mod abi;
pub mod api;
pub mod demo;
pub mod error;
pub mod primitives;
pub mod ptr;
pub mod registers_and_stack;
pub mod shape;
pub mod table;
