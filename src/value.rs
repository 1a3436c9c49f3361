//! Values of variable records, decoded according to their type name.
use vstd::prelude::*;

use crate::cursor::{fixed_at, Reader};
use crate::error::DecodeError;
use crate::text::{has_prefix, starts_with, str_eq};

verus! {

/// A decoded value. Floating-point values keep their IEEE-754 bit pattern.
#[derive(Debug, Clone, Copy, PartialEq, Eq, Structural)]
pub enum TypedValue {
    /// A type of the `array:` family; its elements are not decoded.
    Array,
    /// A type of the `handle:` family; its referent is not decoded.
    Handle,
    /// A type of the `soft:` family; its referent is not decoded.
    Soft,
    Uint8(u8),
    Uint16(u16),
    Int16(i16),
    Uint32(u32),
    Int32(i32),
    /// Stored in eight bytes and read as a signed value.
    Uint64(i64),
    /// A string id, stored in four bytes.
    LocalizedString(i32),
    /// The bits of an `f32`.
    Float(u32),
    /// The bits of an `f64`.
    Double(u64),
    /// True exactly when the stored byte is 1.
    Bool(bool),
    /// A type name this decoder does not know; nothing is read.
    Empty,
}

/// The value that `r` read, wrapped by `f`; or the error that reading it gave.
pub open spec fn wrap<T>(r: Result<T, DecodeError>, f: spec_fn(T) -> TypedValue) -> Result<
    TypedValue,
    DecodeError,
> {
    match r {
        Ok(v) => Ok(f(v)),
        Err(e) => Err(e),
    }
}

/// What the bytes at `p` in `d` hold as a value of the type named `ty`.
pub open spec fn value_spec(d: Seq<u8>, p: int, ty: Seq<char>) -> Result<TypedValue, DecodeError> {
    if has_prefix(ty, "array:"@) {
        Ok(TypedValue::Array)
    } else if has_prefix(ty, "handle:"@) {
        Ok(TypedValue::Handle)
    } else if has_prefix(ty, "soft:"@) {
        Ok(TypedValue::Soft)
    } else if ty == "Uint8"@ {
        wrap(fixed_at::<u8>(d, p), |v: u8| TypedValue::Uint8(v))
    } else if ty == "Uint16"@ {
        wrap(fixed_at::<u16>(d, p), |v: u16| TypedValue::Uint16(v))
    } else if ty == "Int16"@ {
        wrap(fixed_at::<i16>(d, p), |v: i16| TypedValue::Int16(v))
    } else if ty == "Uint32"@ {
        wrap(fixed_at::<u32>(d, p), |v: u32| TypedValue::Uint32(v))
    } else if ty == "Int32"@ {
        wrap(fixed_at::<i32>(d, p), |v: i32| TypedValue::Int32(v))
    } else if ty == "Uint64"@ {
        wrap(fixed_at::<i64>(d, p), |v: i64| TypedValue::Uint64(v))
    } else if ty == "LocalizedString"@ {
        wrap(fixed_at::<i32>(d, p), |v: i32| TypedValue::LocalizedString(v))
    } else if ty == "Float"@ {
        wrap(fixed_at::<u32>(d, p), |v: u32| TypedValue::Float(v))
    } else if ty == "Double"@ {
        wrap(fixed_at::<u64>(d, p), |v: u64| TypedValue::Double(v))
    } else if ty == "Bool"@ {
        wrap(fixed_at::<u8>(d, p), |v: u8| TypedValue::Bool(v == 1))
    } else {
        Ok(TypedValue::Empty)
    }
}

/// Whether `ty` names a type family or a primitive type that this decoder
/// reads.
pub open spec fn is_known_type(ty: Seq<char>) -> bool {
    ||| has_prefix(ty, "array:"@)
    ||| has_prefix(ty, "handle:"@)
    ||| has_prefix(ty, "soft:"@)
    ||| ty == "Uint8"@
    ||| ty == "Uint16"@
    ||| ty == "Int16"@
    ||| ty == "Uint32"@
    ||| ty == "Int32"@
    ||| ty == "Uint64"@
    ||| ty == "LocalizedString"@
    ||| ty == "Float"@
    ||| ty == "Double"@
    ||| ty == "Bool"@
}

/// How many bytes a value of the type named `ty` takes: none for the
/// `array:`, `handle:` and `soft:` families and for unknown names.
pub open spec fn value_width(ty: Seq<char>) -> nat {
    if has_prefix(ty, "array:"@) || has_prefix(ty, "handle:"@) || has_prefix(ty, "soft:"@) {
        0
    } else if ty == "Uint8"@ {
        1
    } else if ty == "Uint16"@ || ty == "Int16"@ {
        2
    } else if ty == "Uint32"@ || ty == "Int32"@ {
        4
    } else if ty == "Uint64"@ {
        8
    } else if ty == "LocalizedString"@ || ty == "Float"@ {
        4
    } else if ty == "Double"@ {
        8
    } else if ty == "Bool"@ {
        1
    } else {
        0
    }
}

/// Decodes the value at the reader's position as the type named `ty`.
pub fn read_value(rd: &mut Reader, ty: &str) -> (r: Result<TypedValue, DecodeError>)
    requires
        old(rd).wf(),
    ensures
        final(rd).wf(),
        final(rd).data@ == old(rd).data@,
        r is Ok ==> final(rd).pos == old(rd).pos + value_width(ty@),
        match r {
            Ok(v) => value_spec(old(rd).data@, old(rd).pos as int, ty@) == Ok::<
                TypedValue,
                DecodeError,
            >(v),
            Err(e) => value_spec(old(rd).data@, old(rd).pos as int, ty@) == Err::<
                TypedValue,
                DecodeError,
            >(e),
        },
{
    if starts_with(ty, "array:") {
        Ok(TypedValue::Array)
    } else if starts_with(ty, "handle:") {
        Ok(TypedValue::Handle)
    } else if starts_with(ty, "soft:") {
        Ok(TypedValue::Soft)
    } else if str_eq(ty, "Uint8") {
        Ok(TypedValue::Uint8(rd.read::<u8>()?))
    } else if str_eq(ty, "Uint16") {
        Ok(TypedValue::Uint16(rd.read::<u16>()?))
    } else if str_eq(ty, "Int16") {
        Ok(TypedValue::Int16(rd.read::<i16>()?))
    } else if str_eq(ty, "Uint32") {
        Ok(TypedValue::Uint32(rd.read::<u32>()?))
    } else if str_eq(ty, "Int32") {
        Ok(TypedValue::Int32(rd.read::<i32>()?))
    } else if str_eq(ty, "Uint64") {
        Ok(TypedValue::Uint64(rd.read::<i64>()?))
    } else if str_eq(ty, "LocalizedString") {
        Ok(TypedValue::LocalizedString(rd.read::<i32>()?))
    } else if str_eq(ty, "Float") {
        Ok(TypedValue::Float(rd.read::<u32>()?))
    } else if str_eq(ty, "Double") {
        Ok(TypedValue::Double(rd.read::<u64>()?))
    } else if str_eq(ty, "Bool") {
        Ok(TypedValue::Bool(rd.read::<u8>()? == 1))
    } else {
        Ok(TypedValue::Empty)
    }
}

} // verus!
