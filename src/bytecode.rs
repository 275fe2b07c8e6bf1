use vstd::prelude::*;
use crate::opcode::Opcode;

verus! {

/// An entry of the constant pool: a boolean, or a number as its literal text.
#[derive(Debug, Clone, PartialEq)]
pub enum Literal {
    Number(String),
    Boolean(bool),
}

pub enum LiteralView {
    Number(Seq<char>),
    Boolean(bool),
}

impl View for Literal {
    type V = LiteralView;

    open spec fn view(&self) -> LiteralView {
        match self {
            Literal::Number(s) => LiteralView::Number(s@),
            Literal::Boolean(b) => LiteralView::Boolean(*b),
        }
    }
}

/// An instruction sequence with its constant pool.
#[derive(Debug, Clone)]
pub struct Bytecode {
    pub codes: Vec<Opcode>,
    pub constants: Vec<Literal>,
}

impl Bytecode {
    pub fn new() -> (r: Self)
        ensures
            r.codes@.len() == 0,
            r.constants@.len() == 0,
    {
        Bytecode { codes: Vec::new(), constants: Vec::new() }
    }

    /// The constant pool as views.
    pub open spec fn pool(&self) -> Seq<LiteralView> {
        self.constants@.map_values(|l: Literal| l@)
    }
}

} // verus!
