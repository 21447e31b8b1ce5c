//! Runtime values.
//!
//! Arrays and functions live in the interpreter's stores and a value refers
//! to them by index, so that a value can be shared as the language requires
//! (two names bound to one array see each other's updates) and a function
//! keeps the scope it was defined in.  A float is held as its IEEE-754
//! binary64 bit pattern.

use crate::text::signed_decimal;
use vstd::prelude::*;

verus! {

/// The built-in functions.
#[derive(Clone, Copy, Debug, PartialEq, Eq, Structural)]
pub enum Builtin {
    Print,
    Println,
    Len,
    Push,
    Pop,
    Int,
    Str,
    Type,
}

/// A runtime value.
#[derive(Debug, PartialEq)]
pub enum Value {
    Int(i64),
    /// The IEEE-754 binary64 bit pattern of a float.
    Float(u64),
    Str(String),
    Bool(bool),
    /// An array, by its index in the interpreter's array store.
    Array(usize),
    /// A user-defined function, by its index in the interpreter's function
    /// store.
    Func(usize),
    /// A built-in function; `arity` is the number of arguments it takes.
    NativeFunc { name: String, arity: Option<usize>, func: Builtin },
    Null,
}

/// The view of a [`Value`].
pub enum SValue {
    Int(i64),
    Float(u64),
    Str(Seq<char>),
    Bool(bool),
    Array(usize),
    Func(usize),
    NativeFunc { name: Seq<char>, arity: Option<usize>, func: Builtin },
    Null,
}

impl View for Value {
    type V = SValue;

    open spec fn view(&self) -> SValue {
        match self {
            Value::Int(n) => SValue::Int(*n),
            Value::Float(b) => SValue::Float(*b),
            Value::Str(s) => SValue::Str(s@),
            Value::Bool(b) => SValue::Bool(*b),
            Value::Array(h) => SValue::Array(*h),
            Value::Func(h) => SValue::Func(*h),
            Value::NativeFunc { name, arity, func } => SValue::NativeFunc {
                name: name@,
                arity: *arity,
                func: *func,
            },
            Value::Null => SValue::Null,
        }
    }
}

impl Value {
    /// A copy of this value (an array or function copy refers to the same
    /// array or function).
    pub fn duplicate(&self) -> (r: Value)
        ensures
            r == *self,
    {
        match self {
            Value::Int(n) => Value::Int(*n),
            Value::Float(b) => Value::Float(*b),
            Value::Str(s) => Value::Str(s.clone()),
            Value::Bool(b) => Value::Bool(*b),
            Value::Array(h) => Value::Array(*h),
            Value::Func(h) => Value::Func(*h),
            Value::NativeFunc { name, arity, func } => Value::NativeFunc {
                name: name.clone(),
                arity: *arity,
                func: *func,
            },
            Value::Null => Value::Null,
        }
    }

    /// The name of this value's type, as error messages and `type()` show it.
    pub fn type_label(&self) -> (r: &'static str)
        ensures
            r@ == type_label_spec(self@),
    {
        match self {
            Value::Int(_) => "int",
            Value::Float(_) => "float",
            Value::Str(_) => "str",
            Value::Bool(_) => "bool",
            Value::Array(_) => "array",
            Value::Func(_) => "func",
            Value::NativeFunc { .. } => "native_func",
            Value::Null => "null",
        }
    }
}

impl Clone for Value {
    fn clone(&self) -> (r: Value)
        ensures
            r == *self,
    {
        self.duplicate()
    }
}

/// The name of a value's type.
pub open spec fn type_label_spec(v: SValue) -> Seq<char> {
    match v {
        SValue::Int(_) => "int"@,
        SValue::Float(_) => "float"@,
        SValue::Str(_) => "str"@,
        SValue::Bool(_) => "bool"@,
        SValue::Array(_) => "array"@,
        SValue::Func(_) => "func"@,
        SValue::NativeFunc { .. } => "native_func"@,
        SValue::Null => "null"@,
    }
}

/// Whether a float bit pattern is `+0.0` or `-0.0` (the only floats equal
/// to zero).
pub open spec fn float_is_zero(bits: u64) -> bool {
    bits & 0x7fff_ffff_ffff_ffffu64 == 0
}

/// The bit pattern of the negation of a float: its sign bit flipped.
pub open spec fn float_neg(bits: u64) -> u64 {
    bits ^ 0x8000_0000_0000_0000u64
}

/// Whether a float is zero.
pub fn is_float_zero(bits: u64) -> (r: bool)
    ensures
        r == float_is_zero(bits),
{
    bits & 0x7fff_ffff_ffff_ffffu64 == 0
}

/// Whether the array and function indices in `v` are within stores of
/// `arrays` arrays and `funcs` functions.
pub open spec fn value_ok(v: SValue, arrays: nat, funcs: nat) -> bool {
    match v {
        SValue::Array(h) => h < arrays,
        SValue::Func(f) => f < funcs,
        _ => true,
    }
}

/// The decimal text of an integer value.
pub open spec fn int_text(n: i64) -> Seq<char> {
    signed_decimal(n as int)
}

} // verus!
