use vstd::prelude::*;

verus! {

/// The lexical vocabulary of the calculator.
#[derive(Debug, Clone, Copy, PartialEq, Eq, Structural)]
pub enum TokenKind {
    LeftParen,
    RightParen,
    Comma,
    Plus,
    Minus,
    Star,
    Slash,
    Percent,
    Bang,
    BangEqual,
    EqualEqual,
    Greater,
    GreaterEqual,
    Less,
    LessEqual,
    Pipe,
    PipePipe,
    Amp,
    AmpAmp,
    Number,
    Boolean,
    Identifier,
    Eof,
}

/// A classified piece of the source text.
#[derive(Debug, Clone, Copy)]
pub struct Token<'a> {
    pub kind: TokenKind,
    pub slice: &'a str,
}

/// The mathematical form of a token: its kind and its text.
pub struct TokenView {
    pub kind: TokenKind,
    pub text: Seq<char>,
}

impl<'a> View for Token<'a> {
    type V = TokenView;

    open spec fn view(&self) -> TokenView {
        TokenView { kind: self.kind, text: self.slice@ }
    }
}

impl<'a> Token<'a> {
    pub fn new(kind: TokenKind, slice: &'a str) -> (r: Self)
        ensures
            r.kind == kind,
            r.slice@ == slice@,
    {
        Token { kind, slice }
    }
}

} // verus!
