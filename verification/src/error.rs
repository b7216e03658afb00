//! The error taxonomy of the encoding engine and the call surface.

use vstd::prelude::*;

verus! {

/// Errors that can occur while encoding a value.
#[derive(Debug, Clone, Copy, PartialEq, PartialOrd, Ord, Eq, Hash, Structural)]
pub enum EncodeError {
    /// The overflow region could not supply enough memory for this value.
    AllocationError,
    /// A raw value could not be narrowed into a register-width value.
    PrimitiveError,
}

/// Errors that can occur while decoding a value.
#[derive(Debug, Clone, Copy, PartialEq, PartialOrd, Ord, Eq, Hash, Structural)]
pub enum DecodeError {
    /// The bytes were impossible to decode into the requested type.
    InvalidData,
    /// The number of the call was not recognized.
    InvalidNum,
}

/// The unified error a caller receives from a call: every encode and decode
/// failure, and the callee's own application-level error, folded into one type.
#[derive(Debug, Clone, Copy, PartialEq, Eq, Hash)]
pub enum SyscallError<E> {
    /// Bytes did not correspond to any valid discriminant or value.
    InvalidData,
    /// No handler is registered for the call number.
    InvalidNum,
    /// The overflow region could not satisfy an allocation.
    AllocationError,
    /// The callee's handler returned an error of the call's declared error type.
    SyscallError(E),
}

impl<E> From<EncodeError> for SyscallError<E> {
    fn from(value: EncodeError) -> (r: Self) {
        match value {
            EncodeError::AllocationError => SyscallError::AllocationError,
            EncodeError::PrimitiveError => SyscallError::InvalidData,
        }
    }
}

impl<E> vstd::std_specs::convert::FromSpecImpl<EncodeError> for SyscallError<E> {
    open spec fn obeys_from_spec() -> bool {
        true
    }

    open spec fn from_spec(t: EncodeError) -> Self {
        match t {
            EncodeError::AllocationError => SyscallError::AllocationError,
            EncodeError::PrimitiveError => SyscallError::InvalidData,
        }
    }
}

impl<E> From<DecodeError> for SyscallError<E> {
    fn from(value: DecodeError) -> (r: Self) {
        match value {
            DecodeError::InvalidData => SyscallError::InvalidData,
            DecodeError::InvalidNum => SyscallError::InvalidNum,
        }
    }
}

impl<E> vstd::std_specs::convert::FromSpecImpl<DecodeError> for SyscallError<E> {
    open spec fn obeys_from_spec() -> bool {
        true
    }

    open spec fn from_spec(t: DecodeError) -> Self {
        match t {
            DecodeError::InvalidData => SyscallError::InvalidData,
            DecodeError::InvalidNum => SyscallError::InvalidNum,
        }
    }
}

} // verus!
