//! Runtime-typed header values and the per-type conversion registry.
//!
//! A schema names each field's value type with a [`TypeTag`]; conversion
//! turns the raw bytes of one header value into the matching [`Value`]
//! variant, or fails. Scalar text types (`Str` and `Bytes`) are trimmed of
//! leading and trailing ASCII spaces, like the numeric and boolean types,
//! and are held as owned byte strings copied out of the input (the head is
//! validated ASCII before any conversion runs); only the body view that
//! parsing returns borrows the original buffer. The repeated path splits
//! the raw value on commas and converts every part, failing whole when any
//! part fails.

use vstd::prelude::*;
use crate::from_header_value::{spec_trim, trim};
use crate::numbers::{spec_parse_unsigned, spec_parse_signed, parse_unsigned, parse_signed};
use crate::scan::{spec_split, split_on};

verus! {

/// The value type a field descriptor asks for.
#[derive(Clone, Copy, Debug, PartialEq, Eq, Structural)]
pub enum TypeTag {
    Bool,
    U8,
    U16,
    U32,
    U64,
    U128,
    Usize,
    I8,
    I16,
    I32,
    I64,
    I128,
    Isize,
    Str,
    Bytes,
}

/// One converted header value.
#[derive(Debug)]
pub enum Value {
    Bool(bool),
    U8(u8),
    U16(u16),
    U32(u32),
    U64(u64),
    U128(u128),
    Usize(usize),
    I8(i8),
    I16(i16),
    I32(i32),
    I64(i64),
    I128(i128),
    Isize(isize),
    Str(Vec<u8>),
    Bytes(Vec<u8>),
}

/// The mathematical shape of a [`Value`]: byte strings become sequences.
pub ghost enum ValueModel {
    Bool(bool),
    U8(u8),
    U16(u16),
    U32(u32),
    U64(u64),
    U128(u128),
    Usize(usize),
    I8(i8),
    I16(i16),
    I32(i32),
    I64(i64),
    I128(i128),
    Isize(isize),
    Str(Seq<u8>),
    Bytes(Seq<u8>),
}

impl DeepView for Value {
    type V = ValueModel;

    open spec fn deep_view(&self) -> ValueModel {
        match self {
            Value::Bool(b) => ValueModel::Bool(*b),
            Value::U8(v) => ValueModel::U8(*v),
            Value::U16(v) => ValueModel::U16(*v),
            Value::U32(v) => ValueModel::U32(*v),
            Value::U64(v) => ValueModel::U64(*v),
            Value::U128(v) => ValueModel::U128(*v),
            Value::Usize(v) => ValueModel::Usize(*v),
            Value::I8(v) => ValueModel::I8(*v),
            Value::I16(v) => ValueModel::I16(*v),
            Value::I32(v) => ValueModel::I32(*v),
            Value::I64(v) => ValueModel::I64(*v),
            Value::I128(v) => ValueModel::I128(*v),
            Value::Isize(v) => ValueModel::Isize(*v),
            Value::Str(v) => ValueModel::Str(v@),
            Value::Bytes(v) => ValueModel::Bytes(v@),
        }
    }
}

/// Byte-for-byte equality of two byte strings.
pub fn bytes_eq(a: &[u8], b: &[u8]) -> (r: bool)
    ensures
        r == (a@ == b@),
{
    if a.len() != b.len() {
        proof {
            assert(a@ != b@);
        }
        return false;
    }
    let mut i: usize = 0;
    while i < a.len()
        invariant
            0 <= i <= a@.len(),
            a@.len() == b@.len(),
            forall|j: int| 0 <= j < i ==> a@[j] == b@[j],
        decreases a@.len() - i,
    {
        if a[i] != b[i] {
            return false;
        }
        i = i + 1;
    }
    proof {
        assert(a@ =~= b@);
    }
    true
}

impl vstd::std_specs::cmp::PartialEqSpecImpl for Value {
    open spec fn obeys_eq_spec() -> bool {
        true
    }

    open spec fn eq_spec(&self, other: &Value) -> bool {
        self.deep_view() == other.deep_view()
    }
}

impl PartialEq for Value {
    fn eq(&self, other: &Value) -> (r: bool) {
        match (self, other) {
            (Value::Bool(a), Value::Bool(b)) => a == b,
            (Value::U8(a), Value::U8(b)) => a == b,
            (Value::U16(a), Value::U16(b)) => a == b,
            (Value::U32(a), Value::U32(b)) => a == b,
            (Value::U64(a), Value::U64(b)) => a == b,
            (Value::U128(a), Value::U128(b)) => a == b,
            (Value::Usize(a), Value::Usize(b)) => a == b,
            (Value::I8(a), Value::I8(b)) => a == b,
            (Value::I16(a), Value::I16(b)) => a == b,
            (Value::I32(a), Value::I32(b)) => a == b,
            (Value::I64(a), Value::I64(b)) => a == b,
            (Value::I128(a), Value::I128(b)) => a == b,
            (Value::Isize(a), Value::Isize(b)) => a == b,
            (Value::Str(a), Value::Str(b)) => bytes_eq(a.as_slice(), b.as_slice()),
            (Value::Bytes(a), Value::Bytes(b)) => bytes_eq(a.as_slice(), b.as_slice()),
            _ => false,
        }
    }
}

/// The bytes of the literal `true`.
pub open spec fn true_bytes() -> Seq<u8> {
    seq![116u8, 114u8, 117u8, 101u8]
}

/// The bytes of the literal `false`.
pub open spec fn false_bytes() -> Seq<u8> {
    seq![102u8, 97u8, 108u8, 115u8, 101u8]
}

/// The trimmed value must read exactly `true` or `false`.
pub open spec fn spec_parse_bool(s: Seq<u8>) -> Option<bool> {
    if spec_trim(s) == true_bytes() {
        Some(true)
    } else if spec_trim(s) == false_bytes() {
        Some(false)
    } else {
        None
    }
}

pub open spec fn spec_parse_u8(s: Seq<u8>) -> Option<u8> {
    match spec_parse_unsigned(spec_trim(s), 255) {
        Some(v) => Some(v as u8),
        None => None,
    }
}

pub open spec fn spec_parse_u16(s: Seq<u8>) -> Option<u16> {
    match spec_parse_unsigned(spec_trim(s), 65535) {
        Some(v) => Some(v as u16),
        None => None,
    }
}

pub open spec fn spec_parse_u32(s: Seq<u8>) -> Option<u32> {
    match spec_parse_unsigned(spec_trim(s), 4294967295) {
        Some(v) => Some(v as u32),
        None => None,
    }
}

pub open spec fn spec_parse_u64(s: Seq<u8>) -> Option<u64> {
    match spec_parse_unsigned(spec_trim(s), 18446744073709551615) {
        Some(v) => Some(v as u64),
        None => None,
    }
}

pub open spec fn spec_parse_u128(s: Seq<u8>) -> Option<u128> {
    match spec_parse_unsigned(spec_trim(s), 340282366920938463463374607431768211455) {
        Some(v) => Some(v as u128),
        None => None,
    }
}

pub open spec fn spec_parse_usize(s: Seq<u8>) -> Option<usize> {
    match spec_parse_unsigned(spec_trim(s), usize::MAX as int) {
        Some(v) => Some(v as usize),
        None => None,
    }
}

pub open spec fn spec_parse_i8(s: Seq<u8>) -> Option<i8> {
    match spec_parse_signed(spec_trim(s), -128, 127) {
        Some(v) => Some(v as i8),
        None => None,
    }
}

pub open spec fn spec_parse_i16(s: Seq<u8>) -> Option<i16> {
    match spec_parse_signed(spec_trim(s), -32768, 32767) {
        Some(v) => Some(v as i16),
        None => None,
    }
}

pub open spec fn spec_parse_i32(s: Seq<u8>) -> Option<i32> {
    match spec_parse_signed(spec_trim(s), -2147483648, 2147483647) {
        Some(v) => Some(v as i32),
        None => None,
    }
}

pub open spec fn spec_parse_i64(s: Seq<u8>) -> Option<i64> {
    match spec_parse_signed(spec_trim(s), -9223372036854775808, 9223372036854775807) {
        Some(v) => Some(v as i64),
        None => None,
    }
}

pub open spec fn spec_parse_i128(s: Seq<u8>) -> Option<i128> {
    match spec_parse_signed(
        spec_trim(s),
        -170141183460469231731687303715884105728,
        170141183460469231731687303715884105727,
    ) {
        Some(v) => Some(v as i128),
        None => None,
    }
}

pub open spec fn spec_parse_isize(s: Seq<u8>) -> Option<isize> {
    match spec_parse_signed(spec_trim(s), -(isize::MAX as int) - 1, isize::MAX as int) {
        Some(v) => Some(v as isize),
        None => None,
    }
}

pub fn parse_bool_value(slice: &[u8]) -> (r: Option<bool>)
    ensures
        r == spec_parse_bool(slice@),
{
    let t = trim(slice);
    if t.len() == 4 && t[0] == 116 && t[1] == 114 && t[2] == 117 && t[3] == 101 {
        proof {
            assert(t@ =~= true_bytes());
        }
        Some(true)
    } else if t.len() == 5 && t[0] == 102 && t[1] == 97 && t[2] == 108 && t[3] == 115 && t[4]
        == 101 {
        proof {
            assert(t@ =~= false_bytes());
        }
        Some(false)
    } else {
        proof {
            if t@ == true_bytes() {
                assert(t@.len() == 4 && t@[0] == 116 && t@[1] == 114 && t@[2] == 117 && t@[3]
                    == 101);
            }
            if t@ == false_bytes() {
                assert(t@.len() == 5 && t@[0] == 102 && t@[1] == 97 && t@[2] == 108 && t@[3]
                    == 115 && t@[4] == 101);
            }
        }
        None
    }
}

pub fn parse_u8_value(slice: &[u8]) -> (r: Option<u8>)
    ensures
        r == spec_parse_u8(slice@),
{
    match parse_unsigned(trim(slice), 255) {
        Some(v) => Some(v as u8),
        None => None,
    }
}

pub fn parse_u16_value(slice: &[u8]) -> (r: Option<u16>)
    ensures
        r == spec_parse_u16(slice@),
{
    match parse_unsigned(trim(slice), 65535) {
        Some(v) => Some(v as u16),
        None => None,
    }
}

pub fn parse_u32_value(slice: &[u8]) -> (r: Option<u32>)
    ensures
        r == spec_parse_u32(slice@),
{
    match parse_unsigned(trim(slice), 4294967295) {
        Some(v) => Some(v as u32),
        None => None,
    }
}

pub fn parse_u64_value(slice: &[u8]) -> (r: Option<u64>)
    ensures
        r == spec_parse_u64(slice@),
{
    match parse_unsigned(trim(slice), 18446744073709551615) {
        Some(v) => Some(v as u64),
        None => None,
    }
}

pub fn parse_u128_value(slice: &[u8]) -> (r: Option<u128>)
    ensures
        r == spec_parse_u128(slice@),
{
    match parse_unsigned(trim(slice), 340282366920938463463374607431768211455) {
        Some(v) => Some(v),
        None => None,
    }
}

pub fn parse_usize_value(slice: &[u8]) -> (r: Option<usize>)
    ensures
        r == spec_parse_usize(slice@),
{
    match parse_unsigned(trim(slice), usize::MAX as u128) {
        Some(v) => Some(v as usize),
        None => None,
    }
}

pub fn parse_i8_value(slice: &[u8]) -> (r: Option<i8>)
    ensures
        r == spec_parse_i8(slice@),
{
    match parse_signed(trim(slice), 128, 127) {
        Some(v) => Some(v as i8),
        None => None,
    }
}

pub fn parse_i16_value(slice: &[u8]) -> (r: Option<i16>)
    ensures
        r == spec_parse_i16(slice@),
{
    match parse_signed(trim(slice), 32768, 32767) {
        Some(v) => Some(v as i16),
        None => None,
    }
}

pub fn parse_i32_value(slice: &[u8]) -> (r: Option<i32>)
    ensures
        r == spec_parse_i32(slice@),
{
    match parse_signed(trim(slice), 2147483648, 2147483647) {
        Some(v) => Some(v as i32),
        None => None,
    }
}

pub fn parse_i64_value(slice: &[u8]) -> (r: Option<i64>)
    ensures
        r == spec_parse_i64(slice@),
{
    match parse_signed(trim(slice), 9223372036854775808, 9223372036854775807) {
        Some(v) => Some(v as i64),
        None => None,
    }
}

pub fn parse_i128_value(slice: &[u8]) -> (r: Option<i128>)
    ensures
        r == spec_parse_i128(slice@),
{
    match parse_signed(
        trim(slice),
        170141183460469231731687303715884105728,
        170141183460469231731687303715884105727,
    ) {
        Some(v) => Some(v),
        None => None,
    }
}

pub fn parse_isize_value(slice: &[u8]) -> (r: Option<isize>)
    ensures
        r == spec_parse_isize(slice@),
{
    let max: u128 = isize::MAX as u128;
    match parse_signed(trim(slice), max + 1, max) {
        Some(v) => Some(v as isize),
        None => None,
    }
}

/// Conversion of one raw value under a type tag.
pub open spec fn spec_convert(tag: TypeTag, raw: Seq<u8>) -> Option<ValueModel> {
    match tag {
        TypeTag::Bool => match spec_parse_bool(raw) {
            Some(v) => Some(ValueModel::Bool(v)),
            None => None,
        },
        TypeTag::U8 => match spec_parse_u8(raw) {
            Some(v) => Some(ValueModel::U8(v)),
            None => None,
        },
        TypeTag::U16 => match spec_parse_u16(raw) {
            Some(v) => Some(ValueModel::U16(v)),
            None => None,
        },
        TypeTag::U32 => match spec_parse_u32(raw) {
            Some(v) => Some(ValueModel::U32(v)),
            None => None,
        },
        TypeTag::U64 => match spec_parse_u64(raw) {
            Some(v) => Some(ValueModel::U64(v)),
            None => None,
        },
        TypeTag::U128 => match spec_parse_u128(raw) {
            Some(v) => Some(ValueModel::U128(v)),
            None => None,
        },
        TypeTag::Usize => match spec_parse_usize(raw) {
            Some(v) => Some(ValueModel::Usize(v)),
            None => None,
        },
        TypeTag::I8 => match spec_parse_i8(raw) {
            Some(v) => Some(ValueModel::I8(v)),
            None => None,
        },
        TypeTag::I16 => match spec_parse_i16(raw) {
            Some(v) => Some(ValueModel::I16(v)),
            None => None,
        },
        TypeTag::I32 => match spec_parse_i32(raw) {
            Some(v) => Some(ValueModel::I32(v)),
            None => None,
        },
        TypeTag::I64 => match spec_parse_i64(raw) {
            Some(v) => Some(ValueModel::I64(v)),
            None => None,
        },
        TypeTag::I128 => match spec_parse_i128(raw) {
            Some(v) => Some(ValueModel::I128(v)),
            None => None,
        },
        TypeTag::Isize => match spec_parse_isize(raw) {
            Some(v) => Some(ValueModel::Isize(v)),
            None => None,
        },
        TypeTag::Str => Some(ValueModel::Str(spec_trim(raw))),
        TypeTag::Bytes => Some(ValueModel::Bytes(spec_trim(raw))),
    }
}

/// Converts one raw value under a type tag.
pub fn convert_value(tag: TypeTag, raw: &[u8]) -> (r: Option<Value>)
    ensures
        match r {
            Some(v) => spec_convert(tag, raw@) == Some(v.deep_view()),
            None => spec_convert(tag, raw@) is None,
        },
{
    match tag {
        TypeTag::Bool => match parse_bool_value(raw) {
            Some(v) => Some(Value::Bool(v)),
            None => None,
        },
        TypeTag::U8 => match parse_u8_value(raw) {
            Some(v) => Some(Value::U8(v)),
            None => None,
        },
        TypeTag::U16 => match parse_u16_value(raw) {
            Some(v) => Some(Value::U16(v)),
            None => None,
        },
        TypeTag::U32 => match parse_u32_value(raw) {
            Some(v) => Some(Value::U32(v)),
            None => None,
        },
        TypeTag::U64 => match parse_u64_value(raw) {
            Some(v) => Some(Value::U64(v)),
            None => None,
        },
        TypeTag::U128 => match parse_u128_value(raw) {
            Some(v) => Some(Value::U128(v)),
            None => None,
        },
        TypeTag::Usize => match parse_usize_value(raw) {
            Some(v) => Some(Value::Usize(v)),
            None => None,
        },
        TypeTag::I8 => match parse_i8_value(raw) {
            Some(v) => Some(Value::I8(v)),
            None => None,
        },
        TypeTag::I16 => match parse_i16_value(raw) {
            Some(v) => Some(Value::I16(v)),
            None => None,
        },
        TypeTag::I32 => match parse_i32_value(raw) {
            Some(v) => Some(Value::I32(v)),
            None => None,
        },
        TypeTag::I64 => match parse_i64_value(raw) {
            Some(v) => Some(Value::I64(v)),
            None => None,
        },
        TypeTag::I128 => match parse_i128_value(raw) {
            Some(v) => Some(Value::I128(v)),
            None => None,
        },
        TypeTag::Isize => match parse_isize_value(raw) {
            Some(v) => Some(Value::Isize(v)),
            None => None,
        },
        TypeTag::Str => Some(Value::Str(vstd::slice::slice_to_vec(trim(raw)))),
        TypeTag::Bytes => Some(Value::Bytes(vstd::slice::slice_to_vec(trim(raw)))),
    }
}

/// The comma separator of the repeated-value path.
pub open spec fn comma() -> Seq<u8> {
    seq![44u8]
}

/// Conversion of already-split parts, in order; fails whole when any part
/// fails.
pub open spec fn spec_convert_parts(tag: TypeTag, parts: Seq<Seq<u8>>) -> Option<Seq<ValueModel>>
    decreases parts.len(),
{
    if parts.len() == 0 {
        Some(Seq::empty())
    } else {
        match spec_convert(tag, parts[0]) {
            Some(v) => match spec_convert_parts(tag, parts.drop_first()) {
                Some(vs) => Some(seq![v] + vs),
                None => None,
            },
            None => None,
        }
    }
}

/// A successful parts conversion yields one value per part.
pub proof fn lemma_convert_parts_len(tag: TypeTag, parts: Seq<Seq<u8>>)
    ensures
        match spec_convert_parts(tag, parts) {
            Some(vs) => vs.len() == parts.len(),
            None => true,
        },
    decreases parts.len(),
{
    if parts.len() > 0 {
        lemma_convert_parts_len(tag, parts.drop_first());
    }
}

/// Conversion of a repeated value: the raw text is split on commas
/// untrimmed, and every part converts under the element type.
pub open spec fn spec_convert_list(tag: TypeTag, raw: Seq<u8>) -> Option<Seq<ValueModel>> {
    spec_convert_parts(tag, spec_split(raw, comma()))
}

/// Converts a repeated raw value under an element type tag.
pub fn convert_list(tag: TypeTag, raw: &[u8]) -> (r: Option<Vec<Value>>)
    ensures
        match r {
            Some(vs) => spec_convert_list(tag, raw@) == Some(vs.deep_view()),
            None => spec_convert_list(tag, raw@) is None,
        },
{
    let sep: Vec<u8> = vec![44u8];
    proof {
        assert(sep@ =~= comma());
    }
    let parts = split_on(raw, sep.as_slice());
    let ghost pdv = parts.deep_view();
    let mut out: Vec<Value> = Vec::new();
    let mut i: usize = 0;
    proof {
        assert(pdv.subrange(0, pdv.len() as int) =~= pdv);
    }
    while i < parts.len()
        invariant
            0 <= i <= parts@.len(),
            pdv == parts.deep_view(),
            pdv == spec_split(raw@, comma()),
            pdv.len() == parts@.len(),
            spec_convert_parts(tag, pdv) == (match spec_convert_parts(
                tag,
                pdv.subrange(i as int, pdv.len() as int),
            ) {
                Some(rest) => Some(out.deep_view() + rest),
                None => None::<Seq<ValueModel>>,
            }),
        decreases parts@.len() - i,
    {
        let ghost tail = pdv.subrange(i as int, pdv.len() as int);
        proof {
            assert(tail[0] == pdv[i as int]);
            assert(tail.drop_first() =~= pdv.subrange(i + 1, pdv.len() as int));
            assert(pdv[i as int] == parts@[i as int].deep_view());
            assert(parts@[i as int].deep_view() =~= parts@[i as int]@);
        }
        let part: &Vec<u8> = &parts[i];
        proof {
            assert(part@ == tail[0]);
        }
        match convert_value(tag, part.as_slice()) {
            Some(v) => {
                let ghost dv0 = out.deep_view();
                out.push(v);
                proof {
                    assert(spec_convert(tag, tail[0]) == Some(v.deep_view()));
                    assert(out.deep_view() =~= dv0.push(v.deep_view()));
                    if spec_convert_parts(tag, tail.drop_first()) is Some {
                        let rest = spec_convert_parts(tag, tail.drop_first()).unwrap();
                        assert(spec_convert_parts(tag, tail) == Some(
                            seq![v.deep_view()] + rest,
                        ));
                        assert(dv0 + (seq![v.deep_view()] + rest) =~= out.deep_view() + rest);
                    } else {
                        assert(spec_convert_parts(tag, tail) is None);
                    }
                }
            },
            None => {
                proof {
                    assert(spec_convert(tag, tail[0]) is None);
                    assert(spec_convert_parts(tag, tail) is None);
                }
                return None;
            },
        }
        i = i + 1;
    }
    proof {
        assert(pdv.subrange(pdv.len() as int, pdv.len() as int) =~= Seq::<Seq<u8>>::empty());
        assert(out.deep_view() + Seq::<ValueModel>::empty() =~= out.deep_view());
    }
    Some(out)
}

} // verus!
