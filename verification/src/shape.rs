//! The structural encode/decode procedures for declared type shapes.
//!
//! The derivation layer is, abstractly, a pure function from a type's
//! declared shape — its ordered field list, or its ordered variant list —
//! to an encode and a decode procedure.  This module carries that
//! function as verified logic: a [`TypeShape`] describes a declared type,
//! [`check_ty_allowed`] rejects the shapes that must never be encoded
//! (raw pointers, references, trait objects, and the rest), and
//! [`encode_shaped`] / [`decode_shaped`] walk a value of any allowed
//! shape through the codec exactly as a derived implementation would:
//! fields in declaration order with no padding, and every sum headed by
//! a `u64` discriminant equal to the zero-based declaration index of its
//! variant.

use vstd::prelude::*;

use crate::abi::{Allocation, MAX_REGION};
use crate::error::{DecodeError, EncodeError};
use crate::primitives::{
    le_bytes, le_value, lemma_le_bytes_len, lemma_le_value_of_le_bytes, parse_le,
};
use crate::registers_and_stack::{
    pad_stream, spill_len, stream_of, Geometry, RegisterAndStackData, RegistersAndStackEncoder,
};

verus! {

/// The declared shape of a type, as the derivation layer sees it: an
/// ordered field list for products, an ordered variant list for sums,
/// and a tag for every kind of type the boundary refuses.
#[derive(Debug, PartialEq, Eq)]
pub enum TypeShape {
    /// Fixed-width unsigned integer of 1, 2, 4, 8 or 16 bytes.
    UInt { bytes: usize },
    /// Fixed-width signed integer, carried as its two's-complement bytes.
    SInt { bytes: usize },
    Bool,
    Unit,
    /// Struct or tuple: fields in declaration order, no discriminant.
    Product { fields: Box<ShapeList> },
    /// Enum: variants in declaration order, each with its own field list.
    Sum { variants: Box<VariantList> },
    OptionOf { inner: Box<TypeShape> },
    ResultOf { ok: Box<TypeShape>, err: Box<TypeShape> },
    /// A user-pointer wrapper: the raw address, never the pointee.
    Pointer,
    /// A user-slice wrapper: the raw address plus the element count.
    SliceRef,
    /// The shapes the derivation step must reject before generating code.
    RawPointer,
    Reference,
    RawSlice,
    TraitObject,
    ImplTrait,
    Inferred,
    MacroType,
    Never,
    BareFn,
}

/// An ordered list of field shapes.
#[derive(Debug, PartialEq, Eq)]
pub enum ShapeList {
    Nil,
    Cons(TypeShape, Box<ShapeList>),
}

/// An ordered list of variants, each carrying its field shapes.
#[derive(Debug, PartialEq, Eq)]
pub enum VariantList {
    Nil,
    Cons(ShapeList, Box<VariantList>),
}

/// A value of some declared shape.
#[derive(Debug, PartialEq, Eq)]
pub enum ShapeValue {
    UInt { bytes: usize, value: u128 },
    /// A signed field, carried as its two's-complement bit pattern; the
    /// statically typed integer encodings give the signed view.
    SInt { bytes: usize, bits: u128 },
    Bool { value: bool },
    Unit,
    Product { fields: Box<ValueList> },
    /// A sum value: the zero-based declaration index of its variant and
    /// that variant's field values.
    Sum { index: u64, fields: Box<ValueList> },
    OptionVal { inner: Option<Box<ShapeValue>> },
    ResultVal { is_ok: bool, inner: Box<ShapeValue> },
    Pointer { addr: u64 },
    SliceRef { addr: u64, count: u64 },
}

/// An ordered list of field values.
#[derive(Debug, PartialEq, Eq)]
pub enum ValueList {
    Nil,
    Cons(ShapeValue, Box<ValueList>),
}

pub open spec fn valid_width(bytes: usize) -> bool {
    bytes == 1 || bytes == 2 || bytes == 4 || bytes == 8 || bytes == 16
}

/// A `bytes`-byte field can carry `value`.
pub open spec fn fits_width(value: u128, bytes: usize) -> bool {
    bytes >= 16 || (value >> ((8 * bytes) as u128)) == 0
}

pub open spec fn variants_len(l: VariantList) -> nat
    decreases l,
{
    match l {
        VariantList::Nil => 0,
        VariantList::Cons(_, rest) => 1 + variants_len(*rest),
    }
}

/// The field list of variant `i` (zero-based declaration order).
pub open spec fn variant_at(l: VariantList, i: int) -> ShapeList
    decreases l,
{
    match l {
        VariantList::Nil => ShapeList::Nil,
        VariantList::Cons(fields, rest) => if i == 0 {
            fields
        } else {
            variant_at(*rest, i - 1)
        },
    }
}

/// The shapes the derivation layer accepts: everything except the
/// rejected kinds, with valid widths, recursively, and no empty sums.
pub open spec fn shape_allowed(t: TypeShape) -> bool
    decreases t,
{
    match t {
        TypeShape::UInt { bytes } => valid_width(bytes),
        TypeShape::SInt { bytes } => valid_width(bytes),
        TypeShape::Bool => true,
        TypeShape::Unit => true,
        TypeShape::Product { fields } => shape_list_allowed(*fields),
        TypeShape::Sum { variants } => variants_len(*variants) >= 1 && variants_allowed(*variants),
        TypeShape::OptionOf { inner } => shape_allowed(*inner),
        TypeShape::ResultOf { ok, err } => shape_allowed(*ok) && shape_allowed(*err),
        TypeShape::Pointer => true,
        TypeShape::SliceRef => true,
        _ => false,
    }
}

pub open spec fn shape_list_allowed(l: ShapeList) -> bool
    decreases l,
{
    match l {
        ShapeList::Nil => true,
        ShapeList::Cons(t, rest) => shape_allowed(t) && shape_list_allowed(*rest),
    }
}

pub open spec fn variants_allowed(l: VariantList) -> bool
    decreases l,
{
    match l {
        VariantList::Nil => true,
        VariantList::Cons(fields, rest) => shape_list_allowed(fields) && variants_allowed(*rest),
    }
}

/// A value has a given shape.
pub open spec fn conforms(v: ShapeValue, t: TypeShape) -> bool
    decreases v,
{
    match v {
        ShapeValue::UInt { bytes, value } => t == (TypeShape::UInt { bytes }) && valid_width(bytes)
            && fits_width(value, bytes),
        ShapeValue::SInt { bytes, bits } => t == (TypeShape::SInt { bytes }) && valid_width(bytes)
            && fits_width(bits, bytes),
        ShapeValue::Bool { value } => t == TypeShape::Bool,
        ShapeValue::Unit => t == TypeShape::Unit,
        ShapeValue::Product { fields } => match t {
            TypeShape::Product { fields: ts } => conforms_list(*fields, *ts),
            _ => false,
        },
        ShapeValue::Sum { index, fields } => match t {
            TypeShape::Sum { variants } => index < variants_len(*variants) && conforms_list(
                *fields,
                variant_at(*variants, index as int),
            ),
            _ => false,
        },
        ShapeValue::OptionVal { inner } => match t {
            TypeShape::OptionOf { inner: it } => match inner {
                Some(b) => conforms(*b, *it),
                None => true,
            },
            _ => false,
        },
        ShapeValue::ResultVal { is_ok, inner } => match t {
            TypeShape::ResultOf { ok, err } => conforms(
                *inner,
                if is_ok {
                    *ok
                } else {
                    *err
                },
            ),
            _ => false,
        },
        ShapeValue::Pointer { addr } => t == TypeShape::Pointer,
        ShapeValue::SliceRef { addr, count } => t == TypeShape::SliceRef,
    }
}

pub open spec fn conforms_list(vs: ValueList, ts: ShapeList) -> bool
    decreases vs,
{
    match vs {
        ValueList::Nil => ts == ShapeList::Nil,
        ValueList::Cons(v, vrest) => match ts {
            ShapeList::Cons(t, trest) => conforms(v, t) && conforms_list(*vrest, *trest),
            ShapeList::Nil => false,
        },
    }
}

/// The exact byte sequence a shaped value encodes to: fields in
/// declaration order, sums headed by their `u64` discriminant,
/// `Option` and `Result` by one discriminant byte, unit by nothing.
pub open spec fn shape_repr(v: ShapeValue) -> Seq<u8>
    decreases v,
{
    match v {
        ShapeValue::UInt { bytes, value } => le_bytes(value, bytes as nat),
        ShapeValue::SInt { bytes, bits } => le_bytes(bits, bytes as nat),
        ShapeValue::Bool { value } => seq![
            if value {
                1u8
            } else {
                0u8
            },
        ],
        ShapeValue::Unit => Seq::empty(),
        ShapeValue::Product { fields } => shape_repr_list(*fields),
        ShapeValue::Sum { index, fields } => le_bytes(index as u128, 8) + shape_repr_list(*fields),
        ShapeValue::OptionVal { inner } => match inner {
            None => seq![0u8],
            Some(b) => seq![1u8] + shape_repr(*b),
        },
        ShapeValue::ResultVal { is_ok, inner } => seq![
            if is_ok {
                0u8
            } else {
                1u8
            },
        ] + shape_repr(*inner),
        ShapeValue::Pointer { addr } => le_bytes(addr as u128, 8),
        ShapeValue::SliceRef { addr, count } => le_bytes(addr as u128, 8) + le_bytes(
            count as u128,
            8,
        ),
    }
}

pub open spec fn shape_repr_list(vs: ValueList) -> Seq<u8>
    decreases vs,
{
    match vs {
        ValueList::Nil => Seq::empty(),
        ValueList::Cons(v, rest) => shape_repr(v) + shape_repr_list(*rest),
    }
}

/// The partial inverse of [`shape_repr`], driven by the shape: the value
/// the stream begins with, if any, and how many bytes it occupies.  A
/// sum whose discriminant is at or past the variant count parses to
/// none, as does any rejected shape.
pub open spec fn shape_parse(t: TypeShape, s: Seq<u8>) -> Option<(ShapeValue, int)>
    decreases t,
{
    match t {
        TypeShape::UInt { bytes } => if valid_width(bytes) {
            match parse_le(s, bytes as nat) {
                Some((v, n)) => Some((ShapeValue::UInt { bytes, value: v }, n)),
                None => None,
            }
        } else {
            None
        },
        TypeShape::SInt { bytes } => if valid_width(bytes) {
            match parse_le(s, bytes as nat) {
                Some((v, n)) => Some((ShapeValue::SInt { bytes, bits: v }, n)),
                None => None,
            }
        } else {
            None
        },
        TypeShape::Bool => if s.len() >= 1 && (s[0] == 0 || s[0] == 1) {
            Some((ShapeValue::Bool { value: s[0] == 1 }, 1))
        } else {
            None
        },
        TypeShape::Unit => Some((ShapeValue::Unit, 0)),
        TypeShape::Product { fields } => match shape_parse_list(*fields, s) {
            Some((vs, n)) => Some((ShapeValue::Product { fields: Box::new(vs) }, n)),
            None => None,
        },
        TypeShape::Sum { variants } => match parse_le(s, 8) {
            Some((d, _)) => match shape_parse_variant(*variants, d as int, s.skip(8)) {
                Some((vs, m)) => Some(
                    (ShapeValue::Sum { index: (d as u64), fields: Box::new(vs) }, 8 + m),
                ),
                None => None,
            },
            None => None,
        },
        TypeShape::OptionOf { inner } => if s.len() < 1 {
            None
        } else if s[0] == 0 {
            Some((ShapeValue::OptionVal { inner: None }, 1))
        } else if s[0] == 1 {
            match shape_parse(*inner, s.skip(1)) {
                Some((v, n)) => Some(
                    (ShapeValue::OptionVal { inner: Some(Box::new(v)) }, 1 + n),
                ),
                None => None,
            }
        } else {
            None
        },
        TypeShape::ResultOf { ok, err } => if s.len() < 1 {
            None
        } else if s[0] == 0 {
            match shape_parse(*ok, s.skip(1)) {
                Some((v, n)) => Some(
                    (ShapeValue::ResultVal { is_ok: true, inner: Box::new(v) }, 1 + n),
                ),
                None => None,
            }
        } else if s[0] == 1 {
            match shape_parse(*err, s.skip(1)) {
                Some((v, n)) => Some(
                    (ShapeValue::ResultVal { is_ok: false, inner: Box::new(v) }, 1 + n),
                ),
                None => None,
            }
        } else {
            None
        },
        TypeShape::Pointer => match parse_le(s, 8) {
            Some((v, n)) => Some((ShapeValue::Pointer { addr: (v as u64) }, n)),
            None => None,
        },
        TypeShape::SliceRef => match parse_le(s, 8) {
            Some((a, _)) => match parse_le(s.skip(8), 8) {
                Some((c, _)) => Some(
                    (ShapeValue::SliceRef { addr: (a as u64), count: (c as u64) }, 16),
                ),
                None => None,
            },
            None => None,
        },
        _ => None,
    }
}

/// Parse the fields of variant `d` of a declared variant list: walks the
/// list in declaration order, so a discriminant at or past the variant
/// count runs off the end and parses to none.
pub open spec fn shape_parse_variant(l: VariantList, d: int, s: Seq<u8>) -> Option<(ValueList, int)>
    decreases l,
{
    match l {
        VariantList::Nil => None,
        VariantList::Cons(fields, rest) => if d == 0 {
            shape_parse_list(fields, s)
        } else {
            shape_parse_variant(*rest, d - 1, s)
        },
    }
}

pub open spec fn shape_parse_list(ts: ShapeList, s: Seq<u8>) -> Option<(ValueList, int)>
    decreases ts,
{
    match ts {
        ShapeList::Nil => Some((ValueList::Nil, 0)),
        ShapeList::Cons(t, rest) => match shape_parse(t, s) {
            Some((v, n)) => match shape_parse_list(*rest, s.skip(n)) {
                Some((vs, m)) => Some((ValueList::Cons(v, Box::new(vs)), n + m)),
                None => None,
            },
            None => None,
        },
    }
}

/// Every integer field of the value has one of the declared widths.
pub open spec fn widths_ok(v: ShapeValue) -> bool
    decreases v,
{
    match v {
        ShapeValue::UInt { bytes, value } => valid_width(bytes),
        ShapeValue::SInt { bytes, bits } => valid_width(bytes),
        ShapeValue::Bool { value } => true,
        ShapeValue::Unit => true,
        ShapeValue::Product { fields } => widths_ok_list(*fields),
        ShapeValue::Sum { index, fields } => widths_ok_list(*fields),
        ShapeValue::OptionVal { inner } => match inner {
            Some(b) => widths_ok(*b),
            None => true,
        },
        ShapeValue::ResultVal { is_ok, inner } => widths_ok(*inner),
        ShapeValue::Pointer { addr } => true,
        ShapeValue::SliceRef { addr, count } => true,
    }
}

pub open spec fn widths_ok_list(vs: ValueList) -> bool
    decreases vs,
{
    match vs {
        ValueList::Nil => true,
        ValueList::Cons(v, rest) => widths_ok(v) && widths_ok_list(*rest),
    }
}

proof fn lemma_parse_variant_at(l: VariantList, d: int, s: Seq<u8>)
    requires
        0 <= d < variants_len(l),
    ensures
        shape_parse_variant(l, d, s) == shape_parse_list(variant_at(l, d), s),
    decreases l,
{
    match l {
        VariantList::Nil => {},
        VariantList::Cons(fields, rest) => {
            if d > 0 {
                lemma_parse_variant_at(*rest, d - 1, s);
            }
        },
    }
}

proof fn lemma_parse_variant_none(l: VariantList, d: int, s: Seq<u8>)
    requires
        d >= variants_len(l),
    ensures
        shape_parse_variant(l, d, s) == None::<(ValueList, int)>,
    decreases l,
{
    match l {
        VariantList::Nil => {},
        VariantList::Cons(fields, rest) => {
            lemma_parse_variant_none(*rest, d - 1, s);
        },
    }
}

/// Whatever parses, parses off the head of the stream: the consumed
/// count is never negative and never runs past the end.
pub proof fn lemma_shape_parse_len(t: TypeShape, s: Seq<u8>)
    ensures
        match shape_parse(t, s) {
            Some((v, n)) => 0 <= n <= s.len(),
            None => true,
        },
    decreases t,
{
    match t {
        TypeShape::Product { fields } => {
            lemma_shape_parse_list_len(*fields, s);
        },
        TypeShape::Sum { variants } => {
            if s.len() >= 8 {
                lemma_shape_parse_variant_len(*variants, le_value(s.take(8)) as int, s.skip(8));
            }
        },
        TypeShape::OptionOf { inner } => {
            if s.len() >= 1 {
                lemma_shape_parse_len(*inner, s.skip(1));
            }
        },
        TypeShape::ResultOf { ok, err } => {
            if s.len() >= 1 {
                lemma_shape_parse_len(*ok, s.skip(1));
                lemma_shape_parse_len(*err, s.skip(1));
            }
        },
        _ => {},
    }
}

pub proof fn lemma_shape_parse_variant_len(l: VariantList, d: int, s: Seq<u8>)
    ensures
        match shape_parse_variant(l, d, s) {
            Some((vs, n)) => 0 <= n <= s.len(),
            None => true,
        },
    decreases l,
{
    match l {
        VariantList::Nil => {},
        VariantList::Cons(fields, rest) => {
            if d == 0 {
                lemma_shape_parse_list_len(fields, s);
            } else {
                lemma_shape_parse_variant_len(*rest, d - 1, s);
            }
        },
    }
}

pub proof fn lemma_shape_parse_list_len(ts: ShapeList, s: Seq<u8>)
    ensures
        match shape_parse_list(ts, s) {
            Some((vs, n)) => 0 <= n <= s.len(),
            None => true,
        },
    decreases ts,
{
    match ts {
        ShapeList::Nil => {},
        ShapeList::Cons(t, rest) => {
            lemma_shape_parse_len(t, s);
            match shape_parse(t, s) {
                Some((v, n)) => {
                    lemma_shape_parse_list_len(*rest, s.skip(n));
                },
                None => {},
            }
        },
    }
}

/// Round-trip law for every supported shape: a stream that begins with
/// the encoding of a conforming value parses back to exactly that value,
/// whatever follows it.
pub proof fn lemma_shape_round_trip(v: ShapeValue, t: TypeShape, rest: Seq<u8>)
    requires
        conforms(v, t),
    ensures
        shape_parse(t, shape_repr(v) + rest) == Some((v, shape_repr(v).len() as int)),
    decreases v,
{
    let s = shape_repr(v) + rest;
    match v {
        ShapeValue::UInt { bytes, value } => {
            lemma_le_bytes_len(value, bytes as nat);
            assert(s.take(bytes as int) =~= le_bytes(value, bytes as nat));
            lemma_le_value_of_le_bytes(value, bytes as nat);
        },
        ShapeValue::SInt { bytes, bits } => {
            lemma_le_bytes_len(bits, bytes as nat);
            assert(s.take(bytes as int) =~= le_bytes(bits, bytes as nat));
            lemma_le_value_of_le_bytes(bits, bytes as nat);
        },
        ShapeValue::Bool { value } => {
            assert(s[0] == shape_repr(v)[0]);
        },
        ShapeValue::Unit => {},
        ShapeValue::Product { fields } => {
            let ts = t->Product_fields;
            lemma_shape_round_trip_list(*fields, *ts, rest);
        },
        ShapeValue::Sum { index, fields } => {
            let variants = t->Sum_variants;
            let iv = index as u128;
            lemma_le_bytes_len(iv, 8);
            assert(s.take(8) =~= le_bytes(iv, 8));
            assert(((index as u128) >> 64) == 0) by (bit_vector);
            lemma_le_value_of_le_bytes(iv, 8);
            assert(s.skip(8) =~= shape_repr_list(*fields) + rest);
            lemma_parse_variant_at(*variants, index as int, shape_repr_list(*fields) + rest);
            lemma_shape_round_trip_list(*fields, variant_at(*variants, index as int), rest);
        },
        ShapeValue::OptionVal { inner } => {
            match inner {
                None => {
                    assert(s[0] == 0);
                },
                Some(b) => {
                    assert(s[0] == shape_repr(v)[0]);
                    assert(s.skip(1) =~= shape_repr(*b) + rest);
                    let it = t->OptionOf_inner;
                    lemma_shape_round_trip(*b, *it, rest);
                },
            }
        },
        ShapeValue::ResultVal { is_ok, inner } => {
            assert(s[0] == shape_repr(v)[0]);
            assert(s.skip(1) =~= shape_repr(*inner) + rest);
            let ok = t->ResultOf_ok;
            let err = t->ResultOf_err;
            lemma_shape_round_trip(
                *inner,
                if is_ok {
                    *ok
                } else {
                    *err
                },
                rest,
            );
        },
        ShapeValue::Pointer { addr } => {
            lemma_le_bytes_len(addr as u128, 8);
            assert(s.take(8) =~= le_bytes(addr as u128, 8));
            assert(((addr as u128) >> 64) == 0) by (bit_vector);
            lemma_le_value_of_le_bytes(addr as u128, 8);
        },
        ShapeValue::SliceRef { addr, count } => {
            lemma_le_bytes_len(addr as u128, 8);
            lemma_le_bytes_len(count as u128, 8);
            assert(s.take(8) =~= le_bytes(addr as u128, 8));
            assert(((addr as u128) >> 64) == 0) by (bit_vector);
            lemma_le_value_of_le_bytes(addr as u128, 8);
            assert(s.skip(8).take(8) =~= le_bytes(count as u128, 8));
            assert(((count as u128) >> 64) == 0) by (bit_vector);
            lemma_le_value_of_le_bytes(count as u128, 8);
        },
    }
}

/// Round-trip law for field lists: fields are encoded and parsed back in
/// declaration order, each one starting where the previous one ended.
pub proof fn lemma_shape_round_trip_list(vs: ValueList, ts: ShapeList, rest: Seq<u8>)
    requires
        conforms_list(vs, ts),
    ensures
        shape_parse_list(ts, shape_repr_list(vs) + rest) == Some(
            (vs, shape_repr_list(vs).len() as int),
        ),
    decreases vs,
{
    match vs {
        ValueList::Nil => {
            assert(shape_repr_list(vs) + rest =~= rest);
        },
        ValueList::Cons(v, vrest) => {
            let t = ts->Cons_0;
            let trest = ts->Cons_1;
            let s = shape_repr_list(vs) + rest;
            assert(s =~= shape_repr(v) + (shape_repr_list(*vrest) + rest));
            lemma_shape_round_trip(v, t, shape_repr_list(*vrest) + rest);
            let n = shape_repr(v).len() as int;
            assert(s.skip(n) =~= shape_repr_list(*vrest) + rest);
            lemma_shape_round_trip_list(*vrest, *trest, rest);
        },
    }
}

/// Discriminant ordering law: the encoding of a sum value opens with the
/// little-endian `u64` declaration index of its variant, independent of
/// the variant's field layout.
pub proof fn lemma_sum_discriminant(index: u64, fields: Box<ValueList>)
    ensures
        shape_repr(ShapeValue::Sum { index, fields }).take(8) == le_bytes(index as u128, 8),
{
    lemma_le_bytes_len(index as u128, 8);
    assert(shape_repr(ShapeValue::Sum { index, fields }).take(8) =~= le_bytes(index as u128, 8));
}

/// Invalid discriminant rejection law: a sum whose leading discriminant
/// is at or past the declared variant count parses to none — decoding
/// such bytes fails, it never falls back to some default variant.
pub proof fn lemma_sum_invalid_discriminant(variants: Box<VariantList>, s: Seq<u8>)
    requires
        s.len() >= 8,
        le_value(s.take(8)) as int >= variants_len(*variants),
    ensures
        shape_parse(TypeShape::Sum { variants }, s) == None::<(ShapeValue, int)>,
{
    lemma_parse_variant_none(*variants, le_value(s.take(8)) as int, s.skip(8));
}

/// Check a declared shape against the encoding rules: every kind that
/// cannot cross the boundary — raw pointers, references, bare slices,
/// trait objects, `impl` types, inferred, macro-produced and never
/// types, bare functions — is rejected, recursively, before any
/// encoding procedure may be generated for the shape.
pub fn check_ty_allowed(t: &TypeShape) -> (r: bool)
    ensures
        r == shape_allowed(*t),
    decreases *t,
{
    match t {
        TypeShape::UInt { bytes } => *bytes == 1 || *bytes == 2 || *bytes == 4 || *bytes == 8
            || *bytes == 16,
        TypeShape::SInt { bytes } => *bytes == 1 || *bytes == 2 || *bytes == 4 || *bytes == 8
            || *bytes == 16,
        TypeShape::Bool => true,
        TypeShape::Unit => true,
        TypeShape::Product { fields } => check_list_allowed(fields),
        TypeShape::Sum { variants } => match &**variants {
            VariantList::Nil => false,
            VariantList::Cons(_, _) => check_variants_allowed(variants),
        },
        TypeShape::OptionOf { inner } => check_ty_allowed(inner),
        TypeShape::ResultOf { ok, err } => check_ty_allowed(ok) && check_ty_allowed(err),
        TypeShape::Pointer => true,
        TypeShape::SliceRef => true,
        _ => false,
    }
}

fn check_list_allowed(l: &ShapeList) -> (r: bool)
    ensures
        r == shape_list_allowed(*l),
    decreases *l,
{
    match l {
        ShapeList::Nil => true,
        ShapeList::Cons(t, rest) => check_ty_allowed(t) && check_list_allowed(rest),
    }
}

fn check_variants_allowed(l: &VariantList) -> (r: bool)
    ensures
        r == variants_allowed(*l),
    decreases *l,
{
    match l {
        VariantList::Nil => true,
        VariantList::Cons(fields, rest) => check_list_allowed(fields) && check_variants_allowed(
            rest,
        ),
    }
}

/// A conforming value has declared widths throughout.
pub proof fn lemma_conforms_widths_ok(v: ShapeValue, t: TypeShape)
    requires
        conforms(v, t),
    ensures
        widths_ok(v),
    decreases v,
{
    match v {
        ShapeValue::Product { fields } => {
            match t {
                TypeShape::Product { fields: ts } => {
                    lemma_conforms_widths_ok_list(*fields, *ts);
                },
                _ => {},
            }
        },
        ShapeValue::Sum { index, fields } => {
            match t {
                TypeShape::Sum { variants } => {
                    lemma_conforms_widths_ok_list(*fields, variant_at(*variants, index as int));
                },
                _ => {},
            }
        },
        ShapeValue::OptionVal { inner } => {
            match t {
                TypeShape::OptionOf { inner: it } => {
                    match inner {
                        Some(b) => {
                            lemma_conforms_widths_ok(*b, *it);
                        },
                        None => {},
                    }
                },
                _ => {},
            }
        },
        ShapeValue::ResultVal { is_ok, inner } => {
            match t {
                TypeShape::ResultOf { ok, err } => {
                    lemma_conforms_widths_ok(
                        *inner,
                        if is_ok {
                            *ok
                        } else {
                            *err
                        },
                    );
                },
                _ => {},
            }
        },
        _ => {},
    }
}

pub proof fn lemma_conforms_widths_ok_list(vs: ValueList, ts: ShapeList)
    requires
        conforms_list(vs, ts),
    ensures
        widths_ok_list(vs),
    decreases vs,
{
    match vs {
        ValueList::Nil => {},
        ValueList::Cons(v, vrest) => {
            match ts {
                ShapeList::Cons(t, trest) => {
                    lemma_conforms_widths_ok(v, t);
                    lemma_conforms_widths_ok_list(*vrest, *trest);
                },
                ShapeList::Nil => {},
            }
        },
    }
}

/// decode ∘ encode == identity for shaped values, executably: encoding
/// a value of any allowed shape and decoding the resulting blob against
/// that shape hands the value back whenever it fits the channel.
pub fn round_trip_shaped(
    geom: Geometry,
    allocation: Allocation,
    value: &ShapeValue,
    t: &TypeShape,
) -> (r: Option<ShapeValue>)
    requires
        geom.wf(),
        allocation.wf(),
        allocation.spec_taken() == 0,
        conforms(*value, *t),
    ensures
        match r {
            Some(v) => v == *value && shape_repr(*value).len() <= geom.packed_capacity()
                + allocation.size(),
            None => shape_repr(*value).len() > geom.packed_capacity() + allocation.size(),
        },
{
    proof {
        lemma_conforms_widths_ok(*value, *t);
    }
    match encode_shaped_value(geom, allocation, value) {
        Ok(d) => {
            proof {
                let w = shape_repr(*value);
                if w.len() >= geom.packed_capacity() {
                    lemma_shape_round_trip(*value, *t, Seq::<u8>::empty());
                    assert(pad_stream(w, geom) =~= w + Seq::<u8>::empty());
                } else {
                    let pad = Seq::new((geom.packed_capacity() - w.len()) as nat, |i: int| 0u8);
                    lemma_shape_round_trip(*value, *t, pad);
                }
            }
            match decode_shaped_value(geom, d, t) {
                Ok(v) => Some(v),
                Err(_) => None,
            }
        },
        Err(_) => None,
    }
}

/// Encode a shaped value: exactly its [`shape_repr`] bytes, appended to
/// the encoder.  Succeeds exactly when the encoder has room.
#[verifier::rlimit(50)]
pub fn encode_shaped(value: &ShapeValue, encoder: &mut RegistersAndStackEncoder) -> (r: Result<
    (),
    EncodeError,
>)
    requires
        old(encoder).wf(),
        old(encoder).is_encoding(),
        widths_ok(*value),
    ensures
        final(encoder).wf(),
        final(encoder).is_encoding(),
        final(encoder).geom() == old(encoder).geom(),
        final(encoder).capacity() == old(encoder).capacity(),
        (r is Ok) <==> old(encoder).written().len() + shape_repr(*value).len() <= old(
            encoder,
        ).capacity(),
        r is Ok ==> final(encoder).written() == old(encoder).written() + shape_repr(*value),
        r is Err ==> r == Err::<(), EncodeError>(EncodeError::AllocationError),
    decreases *value,
{
    match value {
        ShapeValue::UInt { bytes, value: v } => {
            proof {
                lemma_le_bytes_len(*v, *bytes as nat);
            }
            crate::primitives::encode_le_bytes(encoder, *v, *bytes)
        },
        ShapeValue::SInt { bytes, bits } => {
            proof {
                lemma_le_bytes_len(*bits, *bytes as nat);
            }
            crate::primitives::encode_le_bytes(encoder, *bits, *bytes)
        },
        ShapeValue::Bool { value: b } => {
            let byte: u8 = if *b {
                1
            } else {
                0
            };
            match encoder.encode_u8(byte) {
                Ok(()) => {
                    assert(final(encoder).written() =~= old(encoder).written() + shape_repr(
                        *value,
                    ));
                    Ok(())
                },
                Err(e) => Err(e),
            }
        },
        ShapeValue::Unit => {
            assert(final(encoder).written() =~= old(encoder).written() + shape_repr(*value));
            Ok(())
        },
        ShapeValue::Product { fields } => encode_shaped_list(fields, encoder),
        ShapeValue::Sum { index, fields } => {
            proof {
                lemma_le_bytes_len(*index as u128, 8);
            }
            let i = *index;
            match crate::primitives::encode_le_bytes(encoder, i as u128, 8) {
                Ok(()) => {},
                Err(e) => {
                    return Err(e);
                },
            }
            match encode_shaped_list(fields, encoder) {
                Ok(()) => {
                    assert(final(encoder).written() =~= old(encoder).written() + shape_repr(
                        *value,
                    ));
                    Ok(())
                },
                Err(e) => Err(e),
            }
        },
        ShapeValue::OptionVal { inner } => {
            match inner {
                None => {
                    match encoder.encode_u8(0) {
                        Ok(()) => {
                            assert(final(encoder).written() =~= old(encoder).written()
                                + shape_repr(*value));
                            Ok(())
                        },
                        Err(e) => Err(e),
                    }
                },
                Some(b) => {
                    match encoder.encode_u8(1) {
                        Ok(()) => {},
                        Err(e) => {
                            return Err(e);
                        },
                    }
                    match encode_shaped(b, encoder) {
                        Ok(()) => {
                            assert(final(encoder).written() =~= old(encoder).written()
                                + shape_repr(*value));
                            Ok(())
                        },
                        Err(e) => Err(e),
                    }
                },
            }
        },
        ShapeValue::ResultVal { is_ok, inner } => {
            let byte: u8 = if *is_ok {
                0
            } else {
                1
            };
            match encoder.encode_u8(byte) {
                Ok(()) => {},
                Err(e) => {
                    return Err(e);
                },
            }
            match encode_shaped(inner, encoder) {
                Ok(()) => {
                    assert(final(encoder).written() =~= old(encoder).written() + shape_repr(
                        *value,
                    ));
                    Ok(())
                },
                Err(e) => Err(e),
            }
        },
        ShapeValue::Pointer { addr } => {
            proof {
                lemma_le_bytes_len(*addr as u128, 8);
            }
            let a = *addr;
            crate::primitives::encode_le_bytes(encoder, a as u128, 8)
        },
        ShapeValue::SliceRef { addr, count } => {
            proof {
                lemma_le_bytes_len(*addr as u128, 8);
                lemma_le_bytes_len(*count as u128, 8);
            }
            let a = *addr;
            match crate::primitives::encode_le_bytes(encoder, a as u128, 8) {
                Ok(()) => {},
                Err(e) => {
                    return Err(e);
                },
            }
            let c = *count;
            match crate::primitives::encode_le_bytes(encoder, c as u128, 8) {
                Ok(()) => {
                    assert(final(encoder).written() =~= old(encoder).written() + shape_repr(
                        *value,
                    ));
                    Ok(())
                },
                Err(e) => Err(e),
            }
        },
    }
}

/// Encode a field list in declaration order.
pub fn encode_shaped_list(values: &ValueList, encoder: &mut RegistersAndStackEncoder) -> (r: Result<
    (),
    EncodeError,
>)
    requires
        old(encoder).wf(),
        old(encoder).is_encoding(),
        widths_ok_list(*values),
    ensures
        final(encoder).wf(),
        final(encoder).is_encoding(),
        final(encoder).geom() == old(encoder).geom(),
        final(encoder).capacity() == old(encoder).capacity(),
        (r is Ok) <==> old(encoder).written().len() + shape_repr_list(*values).len() <= old(
            encoder,
        ).capacity(),
        r is Ok ==> final(encoder).written() == old(encoder).written() + shape_repr_list(*values),
        r is Err ==> r == Err::<(), EncodeError>(EncodeError::AllocationError),
    decreases *values,
{
    match values {
        ValueList::Nil => {
            assert(final(encoder).written() =~= old(encoder).written() + shape_repr_list(*values));
            Ok(())
        },
        ValueList::Cons(v, rest) => {
            match encode_shaped(v, encoder) {
                Ok(()) => {},
                Err(e) => {
                    return Err(e);
                },
            }
            match encode_shaped_list(rest, encoder) {
                Ok(()) => {
                    assert(final(encoder).written() =~= old(encoder).written() + shape_repr_list(
                        *values,
                    ));
                    Ok(())
                },
                Err(e) => Err(e),
            }
        },
    }
}

/// Decode one value of the given shape from the decoder's position:
/// exactly what [`shape_parse`] says of the remaining stream.  A
/// discriminant at or past the variant count, a discriminant byte other
/// than 0 or 1 for `bool`, `Option` or `Result`, an exhausted stream,
/// and every rejected shape all fail with `InvalidData` — never a
/// panic, never a default value.
#[verifier::rlimit(100)]
pub fn decode_shaped(t: &TypeShape, decoder: &mut RegistersAndStackEncoder) -> (r: Result<
    ShapeValue,
    DecodeError,
>)
    requires
        old(decoder).wf(),
        !old(decoder).is_encoding(),
    ensures
        final(decoder).wf(),
        !final(decoder).is_encoding(),
        final(decoder).geom() == old(decoder).geom(),
        final(decoder).stream() == old(decoder).stream(),
        match shape_parse(*t, old(decoder).stream().skip(old(decoder).pos())) {
            Some((v, n)) => r == Ok::<ShapeValue, DecodeError>(v) && final(decoder).pos() == old(
                decoder,
            ).pos() + n,
            None => r == Err::<ShapeValue, DecodeError>(DecodeError::InvalidData),
        },
    decreases *t,
{
    let ghost s = decoder.stream();
    let ghost p0 = decoder.pos();
    match t {
        TypeShape::UInt { bytes } => {
            if !(*bytes == 1 || *bytes == 2 || *bytes == 4 || *bytes == 8 || *bytes == 16) {
                return Err(DecodeError::InvalidData);
            }
            match crate::primitives::decode_le_bytes(decoder, *bytes) {
                Ok(v) => Ok(ShapeValue::UInt { bytes: *bytes, value: v }),
                Err(e) => Err(e),
            }
        },
        TypeShape::SInt { bytes } => {
            if !(*bytes == 1 || *bytes == 2 || *bytes == 4 || *bytes == 8 || *bytes == 16) {
                return Err(DecodeError::InvalidData);
            }
            match crate::primitives::decode_le_bytes(decoder, *bytes) {
                Ok(v) => Ok(ShapeValue::SInt { bytes: *bytes, bits: v }),
                Err(e) => Err(e),
            }
        },
        TypeShape::Bool => {
            match decoder.decode_u8() {
                Ok(0u8) => Ok(ShapeValue::Bool { value: false }),
                Ok(1u8) => Ok(ShapeValue::Bool { value: true }),
                Ok(_) => Err(DecodeError::InvalidData),
                Err(e) => Err(e),
            }
        },
        TypeShape::Unit => Ok(ShapeValue::Unit),
        TypeShape::Product { fields } => {
            match decode_shaped_list(fields, decoder) {
                Ok(vs) => Ok(ShapeValue::Product { fields: Box::new(vs) }),
                Err(e) => Err(e),
            }
        },
        TypeShape::Sum { variants } => {
            let d = match crate::primitives::decode_le_bytes(decoder, 8) {
                Ok(d) => d,
                Err(e) => {
                    return Err(e);
                },
            };
            proof {
                vstd::seq_lib::lemma_seq_skip_of_skip(s, p0, 8);
            }
            match decode_shaped_variant(variants, d, decoder) {
                Ok(vs) => Ok(
                    ShapeValue::Sum {
                        index: #[verifier::truncate] (d as u64),
                        fields: Box::new(vs),
                    },
                ),
                Err(e) => Err(e),
            }
        },
        TypeShape::OptionOf { inner } => {
            match decoder.decode_u8() {
                Ok(0u8) => Ok(ShapeValue::OptionVal { inner: None }),
                Ok(1u8) => {
                    proof {
                        s.lemma_seq_skip_skip(p0);
                    }
                    match decode_shaped(inner, decoder) {
                        Ok(v) => Ok(ShapeValue::OptionVal { inner: Some(Box::new(v)) }),
                        Err(e) => Err(e),
                    }
                },
                Ok(_) => Err(DecodeError::InvalidData),
                Err(e) => Err(e),
            }
        },
        TypeShape::ResultOf { ok, err } => {
            match decoder.decode_u8() {
                Ok(0u8) => {
                    proof {
                        s.lemma_seq_skip_skip(p0);
                    }
                    match decode_shaped(ok, decoder) {
                        Ok(v) => Ok(ShapeValue::ResultVal { is_ok: true, inner: Box::new(v) }),
                        Err(e) => Err(e),
                    }
                },
                Ok(1u8) => {
                    proof {
                        s.lemma_seq_skip_skip(p0);
                    }
                    match decode_shaped(err, decoder) {
                        Ok(v) => Ok(ShapeValue::ResultVal { is_ok: false, inner: Box::new(v) }),
                        Err(e) => Err(e),
                    }
                },
                Ok(_) => Err(DecodeError::InvalidData),
                Err(e) => Err(e),
            }
        },
        TypeShape::Pointer => {
            match crate::primitives::decode_le_bytes(decoder, 8) {
                Ok(v) => Ok(ShapeValue::Pointer { addr: #[verifier::truncate] (v as u64) }),
                Err(e) => Err(e),
            }
        },
        TypeShape::SliceRef => {
            let a = match crate::primitives::decode_le_bytes(decoder, 8) {
                Ok(a) => a,
                Err(e) => {
                    return Err(e);
                },
            };
            proof {
                vstd::seq_lib::lemma_seq_skip_of_skip(s, p0, 8);
            }
            match crate::primitives::decode_le_bytes(decoder, 8) {
                Ok(c) => Ok(
                    ShapeValue::SliceRef {
                        addr: #[verifier::truncate] (a as u64),
                        count: #[verifier::truncate] (c as u64),
                    },
                ),
                Err(e) => Err(e),
            }
        },
        _ => Err(DecodeError::InvalidData),
    }
}

/// Decode the fields of variant `d`, walking the declared variant list;
/// a discriminant at or past the variant count runs off the end and is
/// rejected.
fn decode_shaped_variant(l: &VariantList, d: u128, decoder: &mut RegistersAndStackEncoder) -> (r:
    Result<ValueList, DecodeError>)
    requires
        old(decoder).wf(),
        !old(decoder).is_encoding(),
    ensures
        final(decoder).wf(),
        !final(decoder).is_encoding(),
        final(decoder).geom() == old(decoder).geom(),
        final(decoder).stream() == old(decoder).stream(),
        match shape_parse_variant(*l, d as int, old(decoder).stream().skip(old(decoder).pos())) {
            Some((vs, n)) => r == Ok::<ValueList, DecodeError>(vs) && final(decoder).pos() == old(
                decoder,
            ).pos() + n,
            None => r == Err::<ValueList, DecodeError>(DecodeError::InvalidData),
        },
    decreases *l,
{
    match l {
        VariantList::Nil => Err(DecodeError::InvalidData),
        VariantList::Cons(fields, rest) => {
            if d == 0 {
                decode_shaped_list(fields, decoder)
            } else {
                decode_shaped_variant(rest, d - 1, decoder)
            }
        },
    }
}

/// Decode a field list in declaration order.
pub fn decode_shaped_list(ts: &ShapeList, decoder: &mut RegistersAndStackEncoder) -> (r: Result<
    ValueList,
    DecodeError,
>)
    requires
        old(decoder).wf(),
        !old(decoder).is_encoding(),
    ensures
        final(decoder).wf(),
        !final(decoder).is_encoding(),
        final(decoder).geom() == old(decoder).geom(),
        final(decoder).stream() == old(decoder).stream(),
        match shape_parse_list(*ts, old(decoder).stream().skip(old(decoder).pos())) {
            Some((vs, n)) => r == Ok::<ValueList, DecodeError>(vs) && final(decoder).pos() == old(
                decoder,
            ).pos() + n,
            None => r == Err::<ValueList, DecodeError>(DecodeError::InvalidData),
        },
    decreases *ts,
{
    let ghost s = decoder.stream();
    let ghost p0 = decoder.pos();
    match ts {
        ShapeList::Nil => Ok(ValueList::Nil),
        ShapeList::Cons(t, rest) => {
            let v = match decode_shaped(t, decoder) {
                Ok(v) => v,
                Err(e) => {
                    return Err(e);
                },
            };
            let ghost n = decoder.pos() - p0;
            proof {
                lemma_shape_parse_len(*t, s.skip(p0));
                vstd::seq_lib::lemma_seq_skip_of_skip(s, p0, n);
            }
            match decode_shaped_list(rest, decoder) {
                Ok(vs) => Ok(ValueList::Cons(v, Box::new(vs))),
                Err(e) => Err(e),
            }
        },
    }
}

/// Encode one shaped value into a fresh blob, as
/// [`crate::api::encode_value`] does for statically typed values.
pub fn encode_shaped_value(geom: Geometry, allocation: Allocation, value: &ShapeValue) -> (r:
    Result<RegisterAndStackData, EncodeError>)
    requires
        geom.wf(),
        allocation.wf(),
        allocation.spec_taken() == 0,
        widths_ok(*value),
    ensures
        match r {
            Ok(d) => {
                &&& shape_repr(*value).len() <= geom.packed_capacity() + allocation.size()
                &&& d.regs@.len() == geom.nr_regs as int
                &&& stream_of(d, geom) == pad_stream(shape_repr(*value), geom)
                &&& d.overflow@.len() == spill_len(shape_repr(*value).len() as int, geom)
                &&& d.overflow@.len() <= MAX_REGION as int
                &&& forall|q: int, b: int|
                    0 <= q < d.regs@.len() && 0 <= b < 16 && !(q < geom.nr_regs - 2
                        && b < geom.reg_bytes && q * geom.reg_bytes + b < shape_repr(*value).len())
                        ==> #[trigger] crate::registers_and_stack::reg_byte(d.regs@[q], b) == 0
            },
            Err(e) => e == EncodeError::AllocationError && shape_repr(*value).len()
                > geom.packed_capacity() + allocation.size(),
        },
{
    let mut encoder = RegistersAndStackEncoder::new_encode(geom, allocation);
    match encode_shaped(value, &mut encoder) {
        Ok(()) => {
            assert(encoder.written() =~= shape_repr(*value));
            Ok(encoder.finish())
        },
        Err(e) => Err(e),
    }
}

/// Decode one value of the given shape out of a blob, as
/// [`crate::api::decode_value`] does for statically typed values.
pub fn decode_shaped_value(geom: Geometry, data: RegisterAndStackData, t: &TypeShape) -> (r: Result<
    ShapeValue,
    DecodeError,
>)
    requires
        geom.wf(),
    ensures
        data.regs@.len() == geom.nr_regs as int && data.overflow@.len() <= MAX_REGION as int ==> r
            == (match shape_parse(*t, stream_of(data, geom)) {
            Some((v, n)) => Ok::<ShapeValue, DecodeError>(v),
            None => Err::<ShapeValue, DecodeError>(DecodeError::InvalidData),
        }),
        !(data.regs@.len() == geom.nr_regs as int && data.overflow@.len() <= MAX_REGION as int)
            ==> r == Err::<ShapeValue, DecodeError>(DecodeError::InvalidData),
{
    if data.regs.len() != geom.nr_regs {
        return Err(DecodeError::InvalidData);
    }
    if data.overflow.len() > MAX_REGION {
        return Err(DecodeError::InvalidData);
    }
    let ghost str0 = stream_of(data, geom);
    let mut decoder = RegistersAndStackEncoder::new_decode(geom, data);
    assert(decoder.stream().skip(0) =~= str0);
    decode_shaped(t, &mut decoder)
}

} // verus!
