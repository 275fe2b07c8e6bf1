use vstd::prelude::*;
use crate::bytecode::Bytecode;
use crate::compiler::{program_code, Compiler};
use crate::lexer::{lex_from, lex_spec, tokens_match, LexError, Lexeme, Lexer};
use crate::parser::{program_spec, Parser};
use crate::token::{Token, TokenKind, TokenView};

verus! {

/// The lexemes `lx` of `s` as tokens: kind and text.
pub open spec fn token_views(s: Seq<char>, lx: Seq<Lexeme>) -> Seq<TokenView> {
    Seq::new(
        lx.len(),
        |i: int| TokenView { kind: lx[i].kind, text: s.subrange(lx[i].start, lx[i].end) },
    )
}

/// Whenever a text lexes, its tokens end in exactly one `Eof`, the last one.
pub proof fn lemma_lex_ends_in_eof(s: Seq<char>, i: int)
    requires
        lex_from(s, i) is Ok,
    ensures
        lex_from(s, i)->Ok_0.len() >= 1,
        lex_from(s, i)->Ok_0.last().kind == TokenKind::Eof,
        forall|k: int|
            0 <= k < lex_from(s, i)->Ok_0.len() - 1 ==> (#[trigger] lex_from(s, i)->Ok_0[k]).kind
                != TokenKind::Eof,
    decreases s.len() - i,
{
    let j = crate::lexer::skip_spaces(s, i);
    crate::lexer::lemma_skip_spaces(s, i);
    if 0 <= j < s.len() {
        crate::lexer::lemma_scan_token(s, j);
        let (k, e) = crate::lexer::scan_token(s, j)->Some_0;
        lemma_lex_ends_in_eof(s, e);
        let rest = lex_from(s, e)->Ok_0;
        let lx = seq![Lexeme { kind: k, start: j, end: e }] + rest;
        assert(lex_from(s, i)->Ok_0 == lx);
        assert forall|m: int| 0 <= m < lx.len() - 1 implies (#[trigger] lx[m]).kind
            != TokenKind::Eof by {
            if m > 0 {
                assert(lx[m] == rest[m - 1]);
            }
        }
    }
}

/// Lexes, parses and compiles one line of source text. A text that does not
/// lex gives the lexical error; any other gives the bytecode of the program
/// that its tokens parse to.
pub fn compile_source(source: &str) -> (r: Result<Bytecode, LexError>)
    ensures
        match lex_spec(source@) {
            Err(e) => r == Err::<Bytecode, LexError>(e),
            Ok(lx) => r matches Ok(b) && (b.codes@, b.pool()) == program_code(
                program_spec(token_views(source@, lx)),
                0,
            ),
        },
{
    let mut lexer = Lexer::new(source);
    let tokens = match lexer.lex() {
        Ok(tokens) => tokens,
        Err(e) => return Err(e),
    };
    let ghost lx = lex_spec(source@)->Ok_0;
    proof {
        lemma_lex_ends_in_eof(source@, 0);
        assert(tokens@.map_values(|x: Token| x@) =~= token_views(source@, lx));
        assert(tokens@.last() == tokens@[tokens@.len() - 1]);
    }
    let mut parser = Parser::new(tokens);
    let program = parser.parse();
    let mut compiler = Compiler::new();
    let r = compiler.compile(&program);
    proof {
        assert(r.codes@ =~= program_code(program_spec(token_views(source@, lx)), 0).0);
        assert(r.pool() =~= program_code(program_spec(token_views(source@, lx)), 0).1);
    }
    Ok(r)
}

} // verus!
