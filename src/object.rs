use vstd::prelude::*;

verus! {

/// The bit pattern of the binary64 value `-0.0`.
pub const NEGATIVE_ZERO_BITS: u64 = 0x8000_0000_0000_0000;

/// A runtime value. A number is held as the bit pattern of an IEEE-754
/// binary64 value (what `f64::to_bits` gives).
#[derive(Debug, Clone, Copy, PartialEq, Eq, Structural)]
pub enum Object {
    Number(u64),
    Boolean(bool),
}

/// A boolean is truthy when it is true; a number when it is not `0.0` (of
/// either sign). A NaN is truthy.
pub open spec fn truthy(o: Object) -> bool {
    match o {
        Object::Boolean(b) => b,
        Object::Number(bits) => bits != 0 && bits != NEGATIVE_ZERO_BITS,
    }
}

impl Object {
    pub fn is_truthy(object: &Object) -> (r: bool)
        ensures
            r == truthy(*object),
    {
        match object {
            Object::Boolean(b) => *b,
            Object::Number(bits) => *bits != 0 && *bits != NEGATIVE_ZERO_BITS,
        }
    }

    pub fn is_falsey(object: &Object) -> (r: bool)
        ensures
            r == !truthy(*object),
    {
        !Object::is_truthy(object)
    }
}

} // verus!
