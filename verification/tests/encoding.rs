use syscall_encode::abi::Allocation;
use syscall_encode::api::{
    decode_value, encode_value, round_trip, SyscallApi, SyscallEncodable, SyscallFastApi,
};
use syscall_encode::demo::{Bar, Foo, FooOpts, FooRet, NullAbi, PtrTest, SliceTest, Unit};
use syscall_encode::ptr::{UserPointer, UserSlice};
use syscall_encode::registers_and_stack::Geometry;

fn demo_geometry() -> Geometry {
    Geometry { nr_regs: 6, reg_bytes: 8 }
}

fn random_opts() -> FooOpts {
    if rand::random() {
        FooOpts::B(rand::random(), rand::random())
    } else if rand::random() {
        FooOpts::C { x: rand::random(), y: rand::random() }
    } else {
        FooOpts::A
    }
}

fn new_random_foo() -> Foo {
    Foo {
        x: rand::random(),
        opts1: random_opts(),
        y: rand::random(),
        a: if rand::random() { Some(rand::random()) } else { None },
        b: rand::random(),
        u: (),
        unit: Unit,
        c: if rand::random() { Ok(rand::random()) } else { Err(rand::random()) },
        opts: random_opts(),
    }
}

fn assert_round_trip<T: SyscallEncodable + PartialEq + Copy + std::fmt::Debug>(item: T) {
    let g = demo_geometry();
    let alloc = Allocation::with_capacity(item.byte_len());
    let encoded = encode_value(g, alloc, &item).unwrap();
    let decoded: T = decode_value(g, encoded).unwrap();
    assert_eq!(decoded, item);
}

#[test]
fn full() {
    let abi = NullAbi::default();
    let foo = new_random_foo();
    let res = foo.perform_call(&abi).unwrap();
    assert_eq!(res, FooRet);
}

#[test]
fn encoding() {
    for _ in 0..100 {
        let foo = new_random_foo();
        assert_round_trip(foo);
    }
}

#[test]
fn test_user_pointer() {
    let item = PtrTest { ptr: UserPointer::new(0x1000) };
    let g = demo_geometry();
    let alloc = Allocation::with_capacity(item.byte_len());
    let encoded = encode_value(g, alloc, &item).unwrap();
    let decoded: PtrTest = decode_value(g, encoded).unwrap();
    assert_eq!(decoded, item);
    assert!(!decoded.ptr.is_null());
    assert_eq!(decoded.ptr.address(), 0x1000);
    assert_eq!(decoded.ptr, item.ptr);
}

#[test]
fn test_user_slice() {
    let item = SliceTest { ptr: UserSlice::from_parts(UserPointer::new(0x2000), 1) };
    let g = demo_geometry();
    let alloc = Allocation::with_capacity(item.byte_len());
    let encoded = encode_value(g, alloc, &item).unwrap();
    let decoded: SliceTest = decode_value(g, encoded).unwrap();
    assert_eq!(decoded, item);
    assert_eq!(decoded.ptr.len(), 1);
    assert_eq!(decoded.ptr.address(), 0x2000);
    assert!(!decoded.ptr.is_empty());
}

#[test]
fn test_fast() {
    let abi = NullAbi::default();
    let bar = Bar { x: 32, y: 1 };
    let _r = bar.perform_call(&abi);
}

#[test]
fn primitive_round_trips() {
    assert_round_trip(0u8);
    assert_round_trip(0xabu8);
    assert_round_trip(0xbeefu16);
    assert_round_trip(0xdead_beefu32);
    assert_round_trip(0x0102_0304_0506_0708u64);
    assert_round_trip(u128::MAX);
    assert_round_trip(-1i8);
    assert_round_trip(-2i16);
    assert_round_trip(i32::MIN);
    assert_round_trip(-5i64);
    assert_round_trip(i128::MIN);
    assert_round_trip(true);
    assert_round_trip(false);
    assert_round_trip(());
    assert_round_trip(Some(7u64));
    assert_round_trip(None::<u64>);
    assert_round_trip(Ok::<u64, bool>(9));
    assert_round_trip(Err::<u64, bool>(true));
    assert_round_trip(UserPointer::<u32>::new_null());
    assert_round_trip(UserSlice::<u32>::from_parts(UserPointer::new(64), 3));
}

#[test]
fn little_endian_packing_exact() {
    // A u32 occupies the low four bytes of the first register, low byte
    // first, so the register's numeric value equals the integer itself.
    let g = demo_geometry();
    let d = encode_value(g, Allocation::with_capacity(0), &0xa1b2_c3d4u32).unwrap();
    assert_eq!(d.regs[0], 0xa1b2_c3d4u128);
    assert!(d.overflow.is_empty());
    // Two fields pack back to back: 0xbeef in bytes 0..2, the flag byte
    // at byte 2.
    let pair = syscall_encode::demo::FooOpts2(0xbeef, true);
    let d = encode_value(g, Allocation::with_capacity(0), &pair).unwrap();
    assert_eq!(d.regs[0], 0xbeefu128 | (1u128 << 16));
}

/// The verified round-trip function agrees with the piecewise pipeline.
#[test]
fn verified_round_trip() {
    let g = demo_geometry();
    let foo = new_random_foo();
    let r = round_trip(g, Allocation::with_capacity(64), &foo);
    assert_eq!(r, Some(foo));
    // Too small a channel reports failure rather than a mangled value.
    let tiny = Geometry { nr_regs: 2, reg_bytes: 8 };
    let r = round_trip(tiny, Allocation::with_capacity(0), &1u64);
    assert_eq!(r, None);
}
