//! The dispatch table: routing an incoming `(number, raw arguments)`
//! pair to the correct decode → handler → encode pipeline.
//!
//! A table holds no mutable state; it is the match over the call numbers
//! bound at construction time.  Exactly one handler may claim a given
//! number; an unregistered number is answered with an encoded
//! `InvalidNum` error blob, never a panic.

use vstd::prelude::*;

use crate::abi::SyscallAbi;
use crate::api::{decode_value, SyscallEncodable};
use crate::error::SyscallError;
use crate::registers_and_stack::{stream_of, Geometry, RegisterAndStackData};

verus! {

/// A function for handling incoming calls, before decoding: the whole
/// kernel-side entry point of one call table.
pub trait SyscallTable<A: SyscallAbi> {
    /// What this table replies to one incoming call.
    spec fn reply_ok(&self, num: u64, arg: RegisterAndStackData, r: RegisterAndStackData) -> bool;

    /// Handle one incoming call: find the handler registered for `num`,
    /// decode `arg` into its type, run it, and encode its reply.
    fn handle_call(&self, num: u64, arg: RegisterAndStackData) -> (r: RegisterAndStackData)
        ensures
            self.reply_ok(num, arg, r),
    ;
}

/// Callee side of one registered call, generically: decode the incoming
/// arguments into the registered type, invoke the handler once on the
/// decoded value, and fold its error into the unified taxonomy.
/// Arguments that do not decode never reach the handler; they become the
/// invalid-data error, exactly as the dispatch pipeline does for each
/// registered type.
pub fn with_handler<T: SyscallEncodable, R, E, F: FnOnce(u64, T) -> Result<R, E>>(
    geom: Geometry,
    num: u64,
    args: RegisterAndStackData,
    call: F,
) -> (r: Result<R, SyscallError<E>>)
    requires
        geom.wf(),
        forall|t: T| call.requires((num, t)),
    ensures
        ({
            let shape_ok = args.regs@.len() == geom.nr_regs as int && args.overflow@.len()
                <= crate::abi::MAX_REGION as int;
            &&& shape_ok ==> match T::parse(stream_of(args, geom)) {
                Some((t, n)) => exists|res: Result<R, E>|
                    #[trigger] call.ensures((num, t), res) && r == (match res {
                        Ok(v) => Ok::<R, SyscallError<E>>(v),
                        Err(e) => Err::<R, SyscallError<E>>(SyscallError::SyscallError(e)),
                    }),
                None => r == Err::<R, SyscallError<E>>(SyscallError::InvalidData),
            }
            &&& !shape_ok ==> r == Err::<R, SyscallError<E>>(SyscallError::InvalidData)
        }),
{
    match decode_value::<T>(geom, args) {
        Ok(t) => {
            let res = call(num, t);
            match res {
                Ok(v) => Ok(v),
                Err(e) => Err(SyscallError::SyscallError(e)),
            }
        },
        Err(_) => Err(SyscallError::InvalidData),
    }
}

} // verus!
