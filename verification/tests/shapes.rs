use syscall_encode::abi::Allocation;
use syscall_encode::registers_and_stack::{Geometry, RegisterAndStackData};
use syscall_encode::shape::{
    check_ty_allowed, decode_shaped_value, encode_shaped_value, round_trip_shaped, ShapeList,
    ShapeValue, TypeShape, ValueList, VariantList,
};
use syscall_encode::error::DecodeError;

fn demo_geometry() -> Geometry {
    Geometry { nr_regs: 6, reg_bytes: 8 }
}

fn values(items: Vec<ShapeValue>) -> ValueList {
    let mut list = ValueList::Nil;
    for v in items.into_iter().rev() {
        list = ValueList::Cons(v, Box::new(list));
    }
    list
}

fn shapes(items: Vec<TypeShape>) -> ShapeList {
    let mut list = ShapeList::Nil;
    for t in items.into_iter().rev() {
        list = ShapeList::Cons(t, Box::new(list));
    }
    list
}

fn variants(items: Vec<ShapeList>) -> VariantList {
    let mut list = VariantList::Nil;
    for v in items.into_iter().rev() {
        list = VariantList::Cons(v, Box::new(list));
    }
    list
}

fn byte_value(b: u8) -> ShapeValue {
    ShapeValue::UInt { bytes: 1, value: b as u128 }
}

fn byte_product(n: usize) -> ShapeValue {
    let mut items = Vec::new();
    for i in 0..n {
        items.push(byte_value((i % 251) as u8));
    }
    ShapeValue::Product { fields: Box::new(values(items)) }
}

fn byte_product_shape(n: usize) -> TypeShape {
    let mut items = Vec::new();
    for _ in 0..n {
        items.push(TypeShape::UInt { bytes: 1 });
    }
    TypeShape::Product { fields: Box::new(shapes(items)) }
}

/// Register packing boundary: a value exactly at the packed register
/// capacity (4 usable 64-bit registers = 32 bytes) does not spill; one
/// byte more forces exactly one spilled byte.
#[test]
fn register_packing_boundary() {
    let g = demo_geometry();
    let at_cap = byte_product(32);
    let d = encode_shaped_value(g, Allocation::with_capacity(64), &at_cap).unwrap();
    assert!(d.overflow.is_empty());
    let decoded = decode_shaped_value(g, d, &byte_product_shape(32)).unwrap();
    assert_eq!(decoded, byte_product(32));

    let over_cap = byte_product(33);
    let d = encode_shaped_value(g, Allocation::with_capacity(64), &over_cap).unwrap();
    assert_eq!(d.overflow.len(), 1);
    let decoded = decode_shaped_value(g, d, &byte_product_shape(33)).unwrap();
    assert_eq!(decoded, byte_product(33));
}

/// Discriminant ordering: for variants declared in order [A, B, C],
/// encoding the second produces discriminant 1, whatever each variant
/// carries.  The discriminant is the first eight bytes, i.e. the whole
/// first register here.
#[test]
fn discriminant_ordering() {
    let g = demo_geometry();
    let value = ShapeValue::Sum {
        index: 1,
        fields: Box::new(values(vec![ShapeValue::Bool { value: true }])),
    };
    let d = encode_shaped_value(g, Allocation::with_capacity(16), &value).unwrap();
    assert_eq!(d.regs[0], 1u128);
}

/// Invalid discriminant rejection: a discriminant at or past the variant
/// count decodes to the invalid-data error, never a default variant.
#[test]
fn invalid_discriminant_rejection() {
    let g = demo_geometry();
    let three_variants = TypeShape::Sum {
        variants: Box::new(variants(vec![ShapeList::Nil, ShapeList::Nil, ShapeList::Nil])),
    };
    let blob = RegisterAndStackData { regs: vec![3, 0, 0, 0, 0, 0], overflow: Vec::new() };
    let r = decode_shaped_value(g, blob, &three_variants);
    assert_eq!(r, Err(DecodeError::InvalidData));

    let blob = RegisterAndStackData { regs: vec![99, 0, 0, 0, 0, 0], overflow: Vec::new() };
    let r = decode_shaped_value(g, blob, &three_variants);
    assert_eq!(r, Err(DecodeError::InvalidData));

    // In range, the same blob decodes fine.
    let blob = RegisterAndStackData { regs: vec![2, 0, 0, 0, 0, 0], overflow: Vec::new() };
    let r = decode_shaped_value(g, blob, &three_variants).unwrap();
    assert_eq!(r, ShapeValue::Sum { index: 2, fields: Box::new(ValueList::Nil) });
}

/// A bool byte other than 0 or 1 is invalid data.
#[test]
fn invalid_bool_rejection() {
    let g = demo_geometry();
    let blob = RegisterAndStackData { regs: vec![2, 0, 0, 0, 0, 0], overflow: Vec::new() };
    let r = decode_shaped_value(g, blob, &TypeShape::Bool);
    assert_eq!(r, Err(DecodeError::InvalidData));
}

/// Concrete scenario: a two-u32 struct with x=8, y=9 round-trips through
/// the 6×64-bit convention with zero overflow usage; an eight-u64 tuple
/// struct with values 1..=8 forces overflow, since 64 bytes exceed the
/// four usable packed registers.
#[test]
fn packing_scenarios() {
    let g = demo_geometry();
    let foo = ShapeValue::Product {
        fields: Box::new(values(vec![
            ShapeValue::UInt { bytes: 4, value: 8 },
            ShapeValue::UInt { bytes: 4, value: 9 },
        ])),
    };
    let foo_shape = TypeShape::Product {
        fields: Box::new(shapes(vec![
            TypeShape::UInt { bytes: 4 },
            TypeShape::UInt { bytes: 4 },
        ])),
    };
    let d = encode_shaped_value(g, Allocation::with_capacity(64), &foo).unwrap();
    assert!(d.overflow.is_empty());
    assert_eq!(d.regs[0], 8u128 | (9u128 << 32));
    let decoded = decode_shaped_value(g, d, &foo_shape).unwrap();
    assert_eq!(decoded, foo);

    let mut wide_values = Vec::new();
    let mut wide_shapes = Vec::new();
    for i in 1..=8u64 {
        wide_values.push(ShapeValue::UInt { bytes: 8, value: i as u128 });
        wide_shapes.push(TypeShape::UInt { bytes: 8 });
    }
    let wide = ShapeValue::Product { fields: Box::new(values(wide_values)) };
    let wide_shape = TypeShape::Product { fields: Box::new(shapes(wide_shapes)) };
    let d = encode_shaped_value(g, Allocation::with_capacity(64), &wide).unwrap();
    assert_eq!(d.overflow.len(), 32);
    let decoded = decode_shaped_value(g, d, &wide_shape).unwrap();
    assert_eq!(decoded, wide);
}

/// Round trip of a deeply nested value covering every supported shape.
#[test]
fn nested_shape_round_trip() {
    let g = demo_geometry();
    let inner = ShapeValue::Product {
        fields: Box::new(values(vec![
            ShapeValue::UInt { bytes: 2, value: 0x1234 },
            ShapeValue::SInt { bytes: 4, bits: (-7i32 as u32) as u128 },
            ShapeValue::Bool { value: true },
            ShapeValue::Unit,
        ])),
    };
    let value = ShapeValue::Product {
        fields: Box::new(values(vec![
            ShapeValue::Sum { index: 0, fields: Box::new(values(vec![inner])) },
            ShapeValue::OptionVal {
                inner: Some(Box::new(ShapeValue::UInt { bytes: 8, value: 42 })),
            },
            ShapeValue::OptionVal { inner: None },
            ShapeValue::ResultVal {
                is_ok: false,
                inner: Box::new(ShapeValue::Bool { value: false }),
            },
            ShapeValue::Pointer { addr: 0xdead_0000 },
            ShapeValue::SliceRef { addr: 0xbeef_0000, count: 12 },
        ])),
    };
    let inner_shape = ShapeList::Cons(
        TypeShape::UInt { bytes: 2 },
        Box::new(ShapeList::Cons(
            TypeShape::SInt { bytes: 4 },
            Box::new(ShapeList::Cons(
                TypeShape::Bool,
                Box::new(ShapeList::Cons(TypeShape::Unit, Box::new(ShapeList::Nil))),
            )),
        )),
    );
    let shape = TypeShape::Product {
        fields: Box::new(shapes(vec![
            TypeShape::Sum {
                variants: Box::new(variants(vec![shapes(vec![TypeShape::Product {
                    fields: Box::new(inner_shape),
                }])])),
            },
            TypeShape::OptionOf { inner: Box::new(TypeShape::UInt { bytes: 8 }) },
            TypeShape::OptionOf { inner: Box::new(TypeShape::UInt { bytes: 8 }) },
            TypeShape::ResultOf {
                ok: Box::new(TypeShape::UInt { bytes: 1 }),
                err: Box::new(TypeShape::Bool),
            },
            TypeShape::Pointer,
            TypeShape::SliceRef,
        ])),
    };
    let d = encode_shaped_value(g, Allocation::with_capacity(256), &value).unwrap();
    let decoded = decode_shaped_value(g, d, &shape).unwrap();
    assert_eq!(decoded, value);
}

/// The derivation layer rejects raw pointers, references, bare slices,
/// trait objects and the rest, recursively, and empty sums; it accepts
/// the encodable shapes.
#[test]
fn shape_validation() {
    assert!(!check_ty_allowed(&TypeShape::RawPointer));
    assert!(!check_ty_allowed(&TypeShape::Reference));
    assert!(!check_ty_allowed(&TypeShape::RawSlice));
    assert!(!check_ty_allowed(&TypeShape::TraitObject));
    assert!(!check_ty_allowed(&TypeShape::ImplTrait));
    assert!(!check_ty_allowed(&TypeShape::Inferred));
    assert!(!check_ty_allowed(&TypeShape::MacroType));
    assert!(!check_ty_allowed(&TypeShape::Never));
    assert!(!check_ty_allowed(&TypeShape::BareFn));
    assert!(!check_ty_allowed(&TypeShape::Product {
        fields: Box::new(shapes(vec![TypeShape::UInt { bytes: 4 }, TypeShape::Reference])),
    }));
    assert!(!check_ty_allowed(&TypeShape::UInt { bytes: 3 }));
    assert!(!check_ty_allowed(&TypeShape::Sum { variants: Box::new(VariantList::Nil) }));
    assert!(check_ty_allowed(&TypeShape::Product {
        fields: Box::new(shapes(vec![
            TypeShape::UInt { bytes: 4 },
            TypeShape::OptionOf { inner: Box::new(TypeShape::Pointer) },
            TypeShape::Sum {
                variants: Box::new(variants(vec![ShapeList::Nil, shapes(vec![TypeShape::Bool])])),
            },
        ])),
    }));
}

/// The verified round-trip function agrees: whenever the value fits,
/// it comes back unchanged; when the channel is too small it reports so.
#[test]
fn verified_round_trip_shaped() {
    let g = demo_geometry();
    let value = byte_product(16);
    let shape = byte_product_shape(16);
    let r = round_trip_shaped(g, Allocation::with_capacity(8), &value, &shape);
    assert_eq!(r, Some(byte_product(16)));
    let big = byte_product(48);
    let big_shape = byte_product_shape(48);
    let r = round_trip_shaped(g, Allocation::with_capacity(8), &big, &big_shape);
    assert_eq!(r, None);
    let r = round_trip_shaped(g, Allocation::with_capacity(16), &big, &big_shape);
    assert_eq!(r, Some(byte_product(48)));
}
