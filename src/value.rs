use vstd::prelude::*;

verus! {

/// A runtime value: a signed or an unsigned 128-bit integer.
#[derive(Clone, Copy, Debug, PartialEq, Eq, Structural)]
pub enum Value {
    Int(i128),
    UInt(u128),
}

/// The static type of a [`Value`], tracked by the compiler.
#[derive(Clone, Copy, Debug, PartialEq, Eq, Structural)]
pub enum ValueType {
    Int,
    UInt,
}

impl Value {
    /// The type tag of a value.
    pub open spec fn value_type(self) -> ValueType {
        match self {
            Value::Int(_) => ValueType::Int,
            Value::UInt(_) => ValueType::UInt,
        }
    }
}

/// The type tags of a sequence of values, slot by slot.
pub open spec fn types_of(vs: Seq<Value>) -> Seq<ValueType> {
    vs.map_values(|v: Value| v.value_type())
}

impl From<&Value> for ValueType {
    fn from(value: &Value) -> (r: ValueType) {
        match value {
            Value::Int(_) => ValueType::Int,
            Value::UInt(_) => ValueType::UInt,
        }
    }
}

impl vstd::std_specs::convert::FromSpecImpl<&Value> for ValueType {
    open spec fn obeys_from_spec() -> bool {
        true
    }

    open spec fn from_spec(v: &Value) -> ValueType {
        v.value_type()
    }
}

} // verus!
