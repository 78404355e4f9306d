//! The values that an attribute can have.

use vstd::prelude::*;
use vstd::std_specs::convert::FromSpecImpl;

verus! {

#[derive(Debug, Clone)]
pub enum Value {
    StringValue(String),
    IntValue(i64),
    BoolValue(bool),
    /// A double, as its IEEE 754 bits.
    DoubleValue(u64),
    BytesValue(Vec<u8>),
}

impl From<String> for Value {
    fn from(s: String) -> (r: Value) {
        Value::StringValue(s)
    }
}

impl FromSpecImpl<String> for Value {
    open spec fn obeys_from_spec() -> bool {
        true
    }

    open spec fn from_spec(s: String) -> Value {
        Value::StringValue(s)
    }
}

} // verus!
