use vstd::prelude::*;

verus! {

/// One instruction of the stack machine.
#[derive(Debug, Clone, Copy, PartialEq, Eq, Structural)]
pub enum Opcode {
    /// Pushes the constant with this index.
    Constant(usize),
    Add,
    Subtract,
    Multiply,
    Divide,
    Modulo,
    Equal,
    Not,
    Greater,
    Less,
    And,
    Or,
    /// Reserved for calls with this many arguments.
    Call(u8),
    Return,
}

} // verus!
