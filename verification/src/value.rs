//! The tagged runtime value type and the heap-object representation it can
//! reference.

use vstd::prelude::*;

use crate::compiler::CompiledBlock;

verus! {

/// A runtime value.
///
/// `Double` carries the 64-bit IEEE-754 bit pattern of the number, so that
/// equality and hashing are total over all variants: two doubles are equal
/// exactly when their bit patterns are, and a double hashes by its bit
/// pattern. `HeapValue` carries the handle of an object in the owning
/// machine's heap arena and is compared and hashed by that identity.
#[derive(Clone, Copy, Debug, PartialEq, Eq, Hash, Structural)]
pub enum Value {
    Int(i128),
    Double(u64),
    Char(char),
    Bool(bool),
    HeapValue(usize),
    Nil,
}

/// The variant tag of a [`Value`], detached from its payload. Runtime
/// errors report the tags of offending operands.
#[derive(Clone, Copy, Debug, PartialEq, Eq, Structural)]
pub enum ValueKind {
    Int,
    Double,
    Char,
    Bool,
    HeapValue,
    Nil,
}

impl Value {
    /// The variant tag of this value.
    pub open spec fn kind_spec(self) -> ValueKind {
        match self {
            Value::Int(_) => ValueKind::Int,
            Value::Double(_) => ValueKind::Double,
            Value::Char(_) => ValueKind::Char,
            Value::Bool(_) => ValueKind::Bool,
            Value::HeapValue(_) => ValueKind::HeapValue,
            Value::Nil => ValueKind::Nil,
        }
    }

    /// The variant tag of this value.
    pub fn kind(&self) -> (k: ValueKind)
        ensures
            k == self.kind_spec(),
    {
        match self {
            Value::Int(_) => ValueKind::Int,
            Value::Double(_) => ValueKind::Double,
            Value::Char(_) => ValueKind::Char,
            Value::Bool(_) => ValueKind::Bool,
            Value::HeapValue(_) => ValueKind::HeapValue,
            Value::Nil => ValueKind::Nil,
        }
    }

    /// Truthiness: the boolean `true` is the only truthy value; every other
    /// value, the null marker included, is falsy.
    pub open spec fn truthy(self) -> bool {
        self == Value::Bool(true)
    }

    /// Whether a branch instruction treats this value as true.
    pub fn is_truthy(&self) -> (r: bool)
        ensures
            r == self.truthy(),
    {
        *self == Value::Bool(true)
    }
}

/// The payload of a heap object: a text buffer, an ordered sequence of
/// values, or a callable function wrapping a compiled unit.
pub enum HeapValueType {
    Str(String),
    Array(Vec<Value>),
    Function(CompiledBlock),
}

/// One object in a machine's heap arena: a payload plus the forward link of
/// the intrusive list of all objects the machine ever allocated. The link
/// holds the handle of the object allocated just before this one, so walking
/// the links from the machine's head visits every allocation, newest first.
pub struct HeapValue {
    pub next: Option<usize>,
    pub kind: HeapValueType,
}

} // verus!
