use syscall_encode::abi::Allocation;
use syscall_encode::api::{
    decode_ret, decode_value, encode_value, FastEncodable, SyscallEncodable, SyscallFastApi,
};
use syscall_encode::demo::{Bar, Baz, Foo, FooOpts, FooRet, NullAbi, NullHandler, SimpleErr};
use syscall_encode::error::{DecodeError, EncodeError, SyscallError};
use syscall_encode::registers_and_stack::{Geometry, RegisterAndStackData};
use syscall_encode::table::with_handler;

fn demo_geometry() -> Geometry {
    Geometry { nr_regs: 6, reg_bytes: 8 }
}

/// Dispatching number 1 with an encoded Foo invokes exactly the Foo
/// handler and returns its encoded successful result.
#[test]
fn dispatch_registered_call() {
    let g = demo_geometry();
    let foo = Foo::default();
    let alloc = Allocation::with_capacity(foo.byte_len());
    let args = encode_value(g, alloc, &foo).unwrap();
    let handler = NullHandler;
    let ret = handler.dispatch(1, args);
    let r: Result<FooRet, SyscallError<SimpleErr>> = decode_ret(g, ret);
    assert_eq!(r, Ok(FooRet));
}

/// Dispatching an unregistered number returns an encoded InvalidNum
/// error, not a panic.
#[test]
fn dispatch_unregistered_call() {
    let g = demo_geometry();
    let foo = Foo::default();
    let alloc = Allocation::with_capacity(foo.byte_len());
    let args = encode_value(g, alloc, &foo).unwrap();
    let handler = NullHandler;
    let ret = handler.dispatch(99, args);
    let r: Result<FooRet, SyscallError<SimpleErr>> = decode_ret(g, ret);
    assert_eq!(r, Err(SyscallError::InvalidNum));
}

/// Dispatching the fast number converts through the fast path and
/// returns the fast handler's reply blob.
#[test]
fn dispatch_fast_call() {
    let handler = NullHandler;
    let ret = handler.dispatch(2, Bar { x: 32, y: 1 }.to_args());
    assert_eq!(Baz::from_args(ret), Baz { a: false });
}

/// Arguments whose enum discriminant is out of range make the handler
/// reply with the encoded invalid-data error.
#[test]
fn dispatch_undecodable_arguments() {
    let g = demo_geometry();
    // Foo's first field is two bytes; its enum field's u64 discriminant
    // follows at byte 2.  Plant discriminant 3 there: one past the
    // variant count.
    let args = RegisterAndStackData { regs: vec![3u128 << 16, 0, 0, 0, 0, 0], overflow: Vec::new() };
    let handler = NullHandler;
    let ret = handler.dispatch(1, args);
    let r: Result<FooRet, SyscallError<SimpleErr>> = decode_ret(g, ret);
    assert_eq!(r, Err(SyscallError::InvalidData));
}

/// The fast path round-trips Bar{x:32,y:1} to Baz{a:false} through the
/// loopback ABI without the general byte codec.
#[test]
fn fast_call_reply() {
    let abi = NullAbi::default();
    let bar = Bar { x: 32, y: 1 };
    let r = bar.perform_call(&abi);
    assert_eq!(r, Baz { a: false });
}

/// Fast conversions are each other's inverses on the blob they produce.
#[test]
fn fast_conversion_round_trip() {
    let bar = Bar { x: 0xdead, y: 0xbeef };
    assert_eq!(Bar::from_args(bar.to_args()), bar);
    let baz = Baz { a: true };
    assert_eq!(Baz::from_args(baz.to_args()), baz);
}

/// Encoding past the whole capacity (no usable packed registers, empty
/// overflow region) fails with the allocation error and issues nothing.
#[test]
fn allocation_error_on_exhausted_capacity() {
    let tiny = Geometry { nr_regs: 2, reg_bytes: 8 };
    let r = encode_value(tiny, Allocation::with_capacity(0), &1u64);
    assert_eq!(r, Err(EncodeError::AllocationError));
    // With an overflow region the same geometry carries the value.
    let d = encode_value(tiny, Allocation::with_capacity(8), &1u64).unwrap();
    assert_eq!(d.overflow.len(), 8);
    assert_eq!(decode_value::<u64>(tiny, d), Ok(1));
}

/// A blob whose register file does not match the geometry is invalid.
#[test]
fn malformed_blob_rejected() {
    let g = demo_geometry();
    let blob = RegisterAndStackData { regs: vec![0, 0], overflow: Vec::new() };
    assert_eq!(decode_value::<u64>(g, blob), Err(DecodeError::InvalidData));
}

/// An enum discriminant past the variant count is invalid data for the
/// statically typed enums too.
#[test]
fn static_enum_invalid_discriminant() {
    let g = demo_geometry();
    let blob = RegisterAndStackData { regs: vec![99, 0, 0, 0, 0, 0], overflow: Vec::new() };
    assert_eq!(decode_value::<FooOpts>(g, blob), Err(DecodeError::InvalidData));
    let blob = RegisterAndStackData { regs: vec![1, 0, 0, 0, 0, 0], overflow: Vec::new() };
    assert_eq!(decode_value::<FooOpts>(g, blob), Ok(FooOpts::B(0, false)));
}

/// A truncated stream is invalid data, not a partial value.
#[test]
fn exhausted_stream_rejected() {
    let tiny = Geometry { nr_regs: 2, reg_bytes: 8 };
    // No packed capacity and no overflow: there is nothing to read.
    let blob = RegisterAndStackData { regs: vec![0, 0], overflow: Vec::new() };
    assert_eq!(decode_value::<u64>(tiny, blob), Err(DecodeError::InvalidData));
}

/// An unrecognized discriminant of the unified error type is a decode
/// failure, never a silently defaulted variant; the declared
/// discriminants still decode to their variants.
#[test]
fn unified_error_invalid_discriminant() {
    let g = demo_geometry();
    let blob = RegisterAndStackData { regs: vec![7, 0, 0, 0, 0, 0], overflow: Vec::new() };
    let r = decode_value::<SyscallError<SimpleErr>>(g, blob);
    assert_eq!(r, Err(DecodeError::InvalidData));
    let blob = RegisterAndStackData { regs: vec![0, 0, 0, 0, 0, 0], overflow: Vec::new() };
    let r = decode_value::<SyscallError<SimpleErr>>(g, blob);
    assert_eq!(r, Ok(SyscallError::InvalidData));
    let blob = RegisterAndStackData { regs: vec![2, 0, 0, 0, 0, 0], overflow: Vec::new() };
    let r = decode_value::<SyscallError<SimpleErr>>(g, blob);
    assert_eq!(r, Ok(SyscallError::AllocationError));
}

/// The unified error type round-trips through the codec like everything
/// else.
#[test]
fn unified_error_round_trip() {
    let g = demo_geometry();
    let items: Vec<SyscallError<SimpleErr>> = vec![
        SyscallError::InvalidData,
        SyscallError::InvalidNum,
        SyscallError::AllocationError,
        SyscallError::SyscallError(SimpleErr::Sad),
    ];
    for item in items {
        let alloc = Allocation::with_capacity(16);
        let encoded = encode_value(g, alloc, &item).unwrap();
        let decoded: SyscallError<SimpleErr> = decode_value(g, encoded).unwrap();
        assert_eq!(decoded, item);
    }
}

/// The generic callee-side pipeline: decode, invoke the handler once,
/// fold its error into the unified taxonomy.
#[test]
fn callee_pipeline() {
    let g = demo_geometry();
    let foo = Foo::default();
    let alloc = Allocation::with_capacity(foo.byte_len());
    let args = encode_value(g, alloc, &foo).unwrap();
    let r: Result<FooRet, SyscallError<SimpleErr>> =
        with_handler(g, 1, args, |_n, _foo: Foo| Ok(FooRet));
    assert_eq!(r, Ok(FooRet));

    let alloc = Allocation::with_capacity(foo.byte_len());
    let args = encode_value(g, alloc, &foo).unwrap();
    let r: Result<FooRet, SyscallError<SimpleErr>> =
        with_handler(g, 1, args, |_n, _foo: Foo| Err(SimpleErr::Sad));
    assert_eq!(r, Err(SyscallError::SyscallError(SimpleErr::Sad)));

    // Arguments that do not decode never reach the handler.
    let bad = RegisterAndStackData { regs: vec![3u128 << 16, 0, 0, 0, 0, 0], overflow: Vec::new() };
    let r: Result<FooRet, SyscallError<SimpleErr>> =
        with_handler(g, 1, bad, |_n, _foo: Foo| Ok(FooRet));
    assert_eq!(r, Err(SyscallError::InvalidData));
}
