use vstd::prelude::*;
use crate::ast::{tree, BinaryOperator, Expr, Program, Stmt, Tree};
use crate::token::{Token, TokenKind, TokenView};

verus! {

/// How tightly an operator binds, from loosest to tightest.
#[derive(Debug, Clone, Copy, PartialEq, Eq, Structural)]
pub enum Precedence {
    Lowest,
    Term,
    Factor,
    Unary,
    Grouping,
    Call,
}

pub open spec fn level(p: Precedence) -> nat {
    match p {
        Precedence::Lowest => 0,
        Precedence::Term => 1,
        Precedence::Factor => 2,
        Precedence::Unary => 3,
        Precedence::Grouping => 4,
        Precedence::Call => 5,
    }
}

pub open spec fn precedence_of(kind: TokenKind) -> Precedence {
    match kind {
        TokenKind::Plus | TokenKind::Minus => Precedence::Term,
        TokenKind::Slash | TokenKind::Star | TokenKind::Percent => Precedence::Factor,
        TokenKind::LeftParen => Precedence::Grouping,
        _ => Precedence::Lowest,
    }
}

/// The binary operator that a token kind stands for, if any.
pub open spec fn binary_op_of(kind: TokenKind) -> Option<BinaryOperator> {
    match kind {
        TokenKind::Plus => Some(BinaryOperator::Add),
        TokenKind::Minus => Some(BinaryOperator::Subtract),
        TokenKind::Star => Some(BinaryOperator::Multiply),
        TokenKind::Slash => Some(BinaryOperator::Divide),
        TokenKind::Percent => Some(BinaryOperator::Modulo),
        _ => None,
    }
}

impl Precedence {
    /// The precedence with which a token continues an expression.
    pub fn from(kind: TokenKind) -> (p: Precedence)
        ensures
            p == precedence_of(kind),
    {
        match kind {
            TokenKind::Plus | TokenKind::Minus => Precedence::Term,
            TokenKind::Slash | TokenKind::Star | TokenKind::Percent => Precedence::Factor,
            TokenKind::LeftParen => Precedence::Grouping,
            _ => Precedence::Lowest,
        }
    }

    pub fn level(&self) -> (r: u8)
        ensures
            r == level(*self),
    {
        match self {
            Precedence::Lowest => 0,
            Precedence::Term => 1,
            Precedence::Factor => 2,
            Precedence::Unary => 3,
            Precedence::Grouping => 4,
            Precedence::Call => 5,
        }
    }
}

/// The token read at position `c`: past the end, the last token.
pub open spec fn kind_at(t: Seq<TokenView>, c: int) -> TokenKind {
    if 0 <= c < t.len() {
        t[c].kind
    } else {
        t.last().kind
    }
}

pub open spec fn text_at(t: Seq<TokenView>, c: int) -> Seq<char> {
    if 0 <= c < t.len() {
        t[c].text
    } else {
        t.last().text
    }
}

/// The position after `c`; every position from the end on reads the last token.
pub open spec fn adv(t: Seq<TokenView>, c: int) -> int {
    if c < t.len() {
        c + 1
    } else {
        t.len() as int
    }
}

pub open spec fn measure(t: Seq<TokenView>, c: int) -> int {
    if c < t.len() {
        t.len() - c
    } else {
        0
    }
}

/// An expression that starts at `c` and binds tighter than `p`: its tree (`None`
/// where the tokens form none) and the position of its last token.
pub open spec fn expr_at(t: Seq<TokenView>, p: Precedence, c: int) -> (Option<Tree>, int)
    decreases measure(t, c), 3int,
{
    if c < 0 || c + 1 >= t.len() {
        (None, c)
    } else {
        match kind_at(t, c) {
            TokenKind::Number => extend(t, p, Some(Tree::Number(text_at(t, c))), c),
            TokenKind::LeftParen => {
                let (g, c2) = group_at(t, c);
                if c2 > c {
                    extend(t, p, g, c2)
                } else {
                    (g, c2)
                }
            },
            TokenKind::Identifier => extend(t, p, Some(Tree::Identifier(text_at(t, c))), c),
            _ => (None, c),
        }
    }
}

/// Extends `left`, whose last token is at `c`, by operators and calls that bind
/// tighter than `p`.
pub open spec fn extend(t: Seq<TokenView>, p: Precedence, left: Option<Tree>, c: int) -> (
    Option<Tree>,
    int,
)
    decreases measure(t, c), 2int,
{
    let k = kind_at(t, c + 1);
    if 0 <= c && c + 1 < t.len() - 1 && k != TokenKind::Eof && level(p) < level(
        precedence_of(k),
    ) {
        if binary_op_of(k) is Some {
            let (l2, c2) = binary_at(t, left, c + 1);
            if c2 > c {
                extend(t, p, l2, c2)
            } else {
                (l2, c2)
            }
        } else if k == TokenKind::LeftParen {
            let (l2, c2) = call_at(t, left, c + 1);
            if c2 > c {
                extend(t, p, l2, c2)
            } else {
                (l2, c2)
            }
        } else {
            (left, c)
        }
    } else {
        (left, c)
    }
}

/// `left`, the operator at `c`, and the operand after it.
pub open spec fn binary_at(t: Seq<TokenView>, left: Option<Tree>, c: int) -> (Option<Tree>, int)
    decreases measure(t, c), 1int,
{
    match left {
        None => (None, c),
        Some(l) => match binary_op_of(kind_at(t, c)) {
            None => (None, c),
            Some(op) => {
                if 0 <= c < t.len() {
                    let (r, c2) = expr_at(t, precedence_of(kind_at(t, c)), c + 1);
                    match r {
                        Some(r) => (Some(Tree::Binary(Box::new(l), op, Box::new(r))), c2),
                        None => (None, c2),
                    }
                } else {
                    (None, c)
                }
            },
        },
    }
}

/// A parenthesized expression whose `(` is at `c`: the inner expression must be
/// followed by `)`, else there is no expression.
pub open spec fn group_at(t: Seq<TokenView>, c: int) -> (Option<Tree>, int)
    decreases measure(t, c), 2int,
{
    if 0 <= c < t.len() {
        let (e, c2) = expr_at(t, Precedence::Lowest, c + 1);
        match e {
            Some(x) => if kind_at(t, c2 + 1) == TokenKind::RightParen {
                (Some(x), adv(t, c2))
            } else {
                (None, c2)
            },
            None => (None, c2),
        }
    } else {
        (None, c)
    }
}

/// A call of `left` whose argument list opens at `c`.
pub open spec fn call_at(t: Seq<TokenView>, left: Option<Tree>, c: int) -> (Option<Tree>, int)
    decreases measure(t, c), 2int,
{
    match left {
        None => (None, c),
        Some(l) => {
            let (args, c2) = list_at(t, TokenKind::RightParen, c);
            match args {
                Some(a) => (Some(Tree::Call(Box::new(l), a)), c2),
                None => (None, c2),
            }
        },
    }
}

/// A comma-separated list after the token at `c`, closed by `end`.
pub open spec fn list_at(t: Seq<TokenView>, end: TokenKind, c: int) -> (Option<Seq<Tree>>, int)
    decreases measure(t, c), 1int,
{
    if kind_at(t, c + 1) == end {
        (Some(Seq::empty()), adv(t, c))
    } else if 0 <= c < t.len() {
        let (e, c2) = expr_at(t, Precedence::Lowest, c + 1);
        match e {
            Some(x) => if c2 > c {
                rest_at(t, end, seq![x], c2)
            } else {
                (None, c2)
            },
            None => (None, c2),
        }
    } else {
        (None, c)
    }
}

/// The rest of a list whose items so far are `acc`, the last ending at `c`.
pub open spec fn rest_at(t: Seq<TokenView>, end: TokenKind, acc: Seq<Tree>, c: int) -> (
    Option<Seq<Tree>>,
    int,
)
    decreases measure(t, c), 0int,
{
    if kind_at(t, c + 1) == TokenKind::Comma && 0 <= c && c + 1 < t.len() {
        let (e, c2) = expr_at(t, Precedence::Lowest, c + 2);
        match e {
            Some(x) => if c2 > c {
                rest_at(t, end, acc.push(x), c2)
            } else {
                (None, c2)
            },
            None => (None, c2),
        }
    } else if kind_at(t, c + 1) != end {
        (None, c)
    } else {
        (Some(acc), adv(t, c))
    }
}

/// A statement at `c`: an expression, after which a final `Eof` is stepped onto.
pub open spec fn stmt_at(t: Seq<TokenView>, c: int) -> (Option<Tree>, int) {
    let (e, c2) = expr_at(t, Precedence::Lowest, c);
    match e {
        Some(x) => (Some(x), if kind_at(t, c2 + 1) == TokenKind::Eof {
            adv(t, c2)
        } else {
            c2
        }),
        None => (None, c2),
    }
}

/// The statements read from position `c` on; where no expression can start,
/// the token is passed over.
pub open spec fn program_from(t: Seq<TokenView>, c: int) -> Seq<Tree>
    decreases measure(t, c),
{
    if c < 0 || c >= t.len() {
        Seq::empty()
    } else {
        let (s, c2) = stmt_at(t, c);
        let c3 = adv(t, c2);
        if c3 > c {
            match s {
                Some(x) => seq![x] + program_from(t, c3),
                None => program_from(t, c3),
            }
        } else {
            Seq::empty()
        }
    }
}

/// The program that the tokens `t` parse to.
pub open spec fn program_spec(t: Seq<TokenView>) -> Seq<Tree> {
    program_from(t, 0)
}

pub open spec fn tree_opt(e: Option<Expr>) -> Option<Tree> {
    match e {
        Some(x) => Some(tree(x)),
        None => None,
    }
}

pub open spec fn trees(v: Seq<Expr>) -> Seq<Tree> {
    Seq::new(v.len(), |i: int| tree(v[i]))
}

pub open spec fn stmt_tree(s: Stmt) -> Tree {
    match s {
        Stmt::Expr(e) => tree(e),
    }
}

pub open spec fn program_trees(p: Seq<Stmt>) -> Seq<Tree> {
    Seq::new(p.len(), |i: int| stmt_tree(p[i]))
}

/// `a o1 b o2 c`, three numbers and two binary operators, parses to one
/// statement: `a o1 (b o2 c)` when `o2` binds tighter than `o1`, and
/// `(a o1 b) o2 c` otherwise, so operators of equal precedence associate to the left.
pub proof fn lemma_precedence_climbing(t: Seq<TokenView>)
    requires
        t.len() == 6,
        t[0].kind == TokenKind::Number,
        binary_op_of(t[1].kind) is Some,
        t[2].kind == TokenKind::Number,
        binary_op_of(t[3].kind) is Some,
        t[4].kind == TokenKind::Number,
        t[5].kind == TokenKind::Eof,
    ensures
        ({
            let a = Tree::Number(t[0].text);
            let b = Tree::Number(t[2].text);
            let c = Tree::Number(t[4].text);
            let o1 = binary_op_of(t[1].kind)->Some_0;
            let o2 = binary_op_of(t[3].kind)->Some_0;
            program_spec(t) == if level(precedence_of(t[1].kind)) < level(
                precedence_of(t[3].kind),
            ) {
                seq![Tree::Binary(Box::new(a), o1, Box::new(Tree::Binary(Box::new(b), o2, Box::new(c))))]
            } else {
                seq![Tree::Binary(Box::new(Tree::Binary(Box::new(a), o1, Box::new(b))), o2, Box::new(c))]
            }
        }),
{
    let a = Tree::Number(t[0].text);
    let b = Tree::Number(t[2].text);
    let c = Tree::Number(t[4].text);
    let o1 = binary_op_of(t[1].kind)->Some_0;
    let o2 = binary_op_of(t[3].kind)->Some_0;
    let p1 = precedence_of(t[1].kind);
    let p2 = precedence_of(t[3].kind);
    assert(level(p1) >= 1 && level(p2) >= 1);
    assert(extend(t, p2, Some(c), 4) == (Some(c), 4int));
    assert(expr_at(t, p2, 4) == (Some(c), 4int));
    let x = if level(p1) < level(p2) {
        let bc = Tree::Binary(Box::new(b), o2, Box::new(c));
        assert(binary_at(t, Some(b), 3) == (Some(bc), 4int));
        assert(extend(t, p1, Some(bc), 4) == (Some(bc), 4int));
        assert(extend(t, p1, Some(b), 2) == (Some(bc), 4int));
        assert(expr_at(t, p1, 2) == (Some(bc), 4int));
        let x = Tree::Binary(Box::new(a), o1, Box::new(bc));
        assert(binary_at(t, Some(a), 1) == (Some(x), 4int));
        assert(extend(t, Precedence::Lowest, Some(x), 4) == (Some(x), 4int));
        assert(extend(t, Precedence::Lowest, Some(a), 0) == (Some(x), 4int));
        x
    } else {
        let ab = Tree::Binary(Box::new(a), o1, Box::new(b));
        assert(extend(t, p1, Some(b), 2) == (Some(b), 2int));
        assert(expr_at(t, p1, 2) == (Some(b), 2int));
        assert(binary_at(t, Some(a), 1) == (Some(ab), 2int));
        let x = Tree::Binary(Box::new(ab), o2, Box::new(c));
        assert(binary_at(t, Some(ab), 3) == (Some(x), 4int));
        assert(extend(t, Precedence::Lowest, Some(x), 4) == (Some(x), 4int));
        assert(extend(t, Precedence::Lowest, Some(ab), 2) == (Some(x), 4int));
        assert(extend(t, Precedence::Lowest, Some(a), 0) == (Some(x), 4int));
        x
    };
    assert(expr_at(t, Precedence::Lowest, 0) == (Some(x), 4int));
    assert(stmt_at(t, 0) == (Some(x), 5int));
    assert(program_from(t, 6) == Seq::<Tree>::empty());
    assert(program_from(t, 0) == seq![x] + Seq::<Tree>::empty());
    assert(seq![x] + Seq::<Tree>::empty() =~= seq![x]);
}

/// `f(a)`, a name, a parenthesized number and the end, parses to one call of
/// the name with that one argument.
pub proof fn lemma_call_parse(t: Seq<TokenView>)
    requires
        t.len() == 5,
        t[0].kind == TokenKind::Identifier,
        t[1].kind == TokenKind::LeftParen,
        t[2].kind == TokenKind::Number,
        t[3].kind == TokenKind::RightParen,
        t[4].kind == TokenKind::Eof,
    ensures
        program_spec(t) == seq![
            Tree::Call(
                Box::new(Tree::Identifier(t[0].text)),
                seq![Tree::Number(t[2].text)],
            ),
        ],
{
    let f = Tree::Identifier(t[0].text);
    let a = Tree::Number(t[2].text);
    let x = Tree::Call(Box::new(f), seq![a]);
    assert(extend(t, Precedence::Lowest, Some(a), 2) == (Some(a), 2int));
    assert(expr_at(t, Precedence::Lowest, 2) == (Some(a), 2int));
    assert(rest_at(t, TokenKind::RightParen, seq![a], 2) == (Some(seq![a]), 3int));
    assert(list_at(t, TokenKind::RightParen, 1) == (Some(seq![a]), 3int));
    assert(call_at(t, Some(f), 1) == (Some(x), 3int));
    assert(extend(t, Precedence::Lowest, Some(x), 3) == (Some(x), 3int));
    assert(extend(t, Precedence::Lowest, Some(f), 0) == (Some(x), 3int));
    assert(expr_at(t, Precedence::Lowest, 0) == (Some(x), 3int));
    assert(stmt_at(t, 0) == (Some(x), 4int));
    assert(program_from(t, 5) == Seq::<Tree>::empty());
    assert(program_from(t, 0) == seq![x] + Seq::<Tree>::empty());
    assert(seq![x] + Seq::<Tree>::empty() =~= seq![x]);
}

/// Turns a token sequence into a program by precedence climbing.
pub struct Parser<'a> {
    tokens: Vec<Token<'a>>,
    curr: usize,
}

impl<'a> Parser<'a> {
    /// The tokens being read.
    pub closed spec fn words(&self) -> Seq<TokenView> {
        self.tokens@.map_values(|x: Token<'a>| x@)
    }

    pub closed spec fn position(&self) -> int {
        self.curr as int
    }

    pub closed spec fn wf(&self) -> bool {
        &&& self.tokens.len() >= 1
        &&& self.tokens@.last().kind == TokenKind::Eof
        &&& self.curr <= self.tokens.len()
    }

    pub fn new(tokens: Vec<Token<'a>>) -> (r: Self)
        requires
            tokens.len() >= 1,
            tokens@.last().kind == TokenKind::Eof,
        ensures
            r.wf(),
            r.words() == tokens@.map_values(|x: Token<'a>| x@),
            r.position() == 0,
    {
        Parser { tokens, curr: 0 }
    }

    fn is_at_end(&self) -> (r: bool)
        requires
            self.wf(),
        ensures
            r == (self.curr >= self.tokens.len()),
    {
        self.curr >= self.tokens.len()
    }

    fn peek(&self) -> (t: Token<'a>)
        requires
            self.wf(),
        ensures
            t.kind == kind_at(self.words(), self.curr as int),
            t.slice@ == text_at(self.words(), self.curr as int),
    {
        if self.is_at_end() {
            self.tokens[self.tokens.len() - 1]
        } else {
            self.tokens[self.curr]
        }
    }

    fn next_peek(&self) -> (t: Token<'a>)
        requires
            self.wf(),
        ensures
            t.kind == kind_at(self.words(), self.curr + 1),
    {
        if self.tokens.len() - self.curr <= 1 {
            self.tokens[self.tokens.len() - 1]
        } else {
            self.tokens[self.curr + 1]
        }
    }

    fn advance(&mut self) -> (t: Token<'a>)
        requires
            old(self).wf(),
        ensures
            final(self).wf(),
            final(self).tokens == old(self).tokens,
            final(self).curr == adv(old(self).words(), old(self).curr as int),
            t.kind == kind_at(old(self).words(), old(self).curr as int),
    {
        let token = self.peek();
        if self.curr < self.tokens.len() {
            self.curr = self.curr + 1;
        }
        token
    }
    fn parse_number_expr(&mut self) -> (r: Option<Expr>)
        requires
            old(self).wf(),
        ensures
            *final(self) == *old(self),
            kind_at(old(self).words(), old(self).curr as int) == TokenKind::Number ==> tree_opt(r)
                == Some(Tree::Number(text_at(old(self).words(), old(self).curr as int))),
            kind_at(old(self).words(), old(self).curr as int) != TokenKind::Number ==> r is None,
    {
        let token = self.peek();
        match token.kind {
            TokenKind::Number => Some(Expr::Number(token.slice.to_owned())),
            _ => None,
        }
    }

    fn parse_binary_op_expr(&mut self, left: Option<Expr>) -> (r: Option<Expr>)
        requires
            old(self).wf(),
        ensures
            final(self).wf(),
            final(self).tokens == old(self).tokens,
            final(self).curr >= old(self).curr,
            (tree_opt(r), final(self).curr as int) == binary_at(
                old(self).words(),
                tree_opt(left),
                old(self).curr as int,
            ),
        decreases old(self).tokens.len() - old(self).curr, 1int,
    {
        let left = match left {
            Some(expr) => expr,
            None => return None,
        };
        let kind = self.peek().kind;
        let op = match kind {
            TokenKind::Plus => BinaryOperator::Add,
            TokenKind::Minus => BinaryOperator::Subtract,
            TokenKind::Star => BinaryOperator::Multiply,
            TokenKind::Slash => BinaryOperator::Divide,
            TokenKind::Percent => BinaryOperator::Modulo,
            _ => return None,
        };
        let precedence = Precedence::from(kind);
        self.advance();
        match self.parse_expr(precedence) {
            Some(right) => Some(Expr::BinaryOp(Box::new(left), op, Box::new(right))),
            None => None,
        }
    }

    fn parse_grouping_expr(&mut self) -> (r: Option<Expr>)
        requires
            old(self).wf(),
            old(self).curr + 1 < old(self).tokens.len(),
        ensures
            final(self).wf(),
            final(self).tokens == old(self).tokens,
            final(self).curr > old(self).curr,
            (tree_opt(r), final(self).curr as int) == group_at(
                old(self).words(),
                old(self).curr as int,
            ),
        decreases old(self).tokens.len() - old(self).curr, 2int,
    {
        self.advance();
        let expr = match self.parse_expr(Precedence::Lowest) {
            Some(expr) => expr,
            None => return None,
        };
        if self.next_peek().kind != TokenKind::RightParen {
            return None;
        }
        self.advance();
        Some(expr)
    }

    fn parse_expr_list(&mut self, end_token_kind: TokenKind) -> (r: Option<Vec<Expr>>)
        requires
            old(self).wf(),
            old(self).curr + 1 < old(self).tokens.len(),
        ensures
            final(self).wf(),
            final(self).tokens == old(self).tokens,
            final(self).curr >= old(self).curr,
            (match r {
                Some(v) => Some(trees(v@)),
                None => None,
            }, final(self).curr as int) == list_at(
                old(self).words(),
                end_token_kind,
                old(self).curr as int,
            ),
        decreases old(self).tokens.len() - old(self).curr, 1int,
    {
        let ghost t = self.words();
        let ghost c0 = self.curr as int;
        let mut exprs: Vec<Expr> = Vec::new();
        if self.next_peek().kind == end_token_kind {
            self.advance();
            return Some(exprs);
        }
        self.advance();
        match self.parse_expr(Precedence::Lowest) {
            Some(expr) => {
                exprs.push(expr);
            },
            None => return None,
        };
        assert(trees(exprs@) =~= seq![tree(exprs@[0])]);
        while self.next_peek().kind == TokenKind::Comma
            invariant
                self.wf(),
                self.tokens == old(self).tokens,
                t == self.words(),
                c0 == old(self).curr,
                self.curr > c0,
                rest_at(t, end_token_kind, trees(exprs@), self.curr as int) == list_at(
                    t,
                    end_token_kind,
                    c0,
                ),
            decreases self.tokens.len() - self.curr,
        {
            let ghost before = exprs@;
            self.advance();
            self.advance();
            match self.parse_expr(Precedence::Lowest) {
                Some(expr) => {
                    exprs.push(expr);
                    assert(trees(exprs@) =~= trees(before).push(tree(expr)));
                },
                None => return None,
            };
        }
        if self.next_peek().kind != end_token_kind {
            return None;
        }
        self.advance();
        Some(exprs)
    }

    fn parse_call_expr(&mut self, left: Option<Expr>) -> (r: Option<Expr>)
        requires
            old(self).wf(),
            old(self).curr + 1 < old(self).tokens.len(),
        ensures
            final(self).wf(),
            final(self).tokens == old(self).tokens,
            final(self).curr >= old(self).curr,
            (tree_opt(r), final(self).curr as int) == call_at(
                old(self).words(),
                tree_opt(left),
                old(self).curr as int,
            ),
        decreases old(self).tokens.len() - old(self).curr, 2int,
    {
        let left = match left {
            Some(expr) => expr,
            None => return None,
        };
        let args = match self.parse_expr_list(TokenKind::RightParen) {
            Some(args) => args,
            None => return None,
        };
        let r = Expr::Call(Box::new(left), Box::new(args));
        assert(tree(r) == Tree::Call(Box::new(tree(left)), trees(args@))) by {
            assert(trees(args@) =~= match tree(r) {
                Tree::Call(_, a) => a,
                _ => Seq::empty(),
            });
        }
        Some(r)
    }

    fn parse_identifier(&mut self) -> (r: Option<String>)
        requires
            old(self).wf(),
        ensures
            *final(self) == *old(self),
            kind_at(old(self).words(), old(self).curr as int) == TokenKind::Identifier ==> (r
                matches Some(s) && s@ == text_at(old(self).words(), old(self).curr as int)),
            kind_at(old(self).words(), old(self).curr as int) != TokenKind::Identifier ==> r is None,
    {
        let token = self.peek();
        match token.kind {
            TokenKind::Identifier => Some(token.slice.to_owned()),
            _ => None,
        }
    }

    fn parse_identifier_expr(&mut self) -> (r: Option<Expr>)
        requires
            old(self).wf(),
        ensures
            *final(self) == *old(self),
            kind_at(old(self).words(), old(self).curr as int) == TokenKind::Identifier ==> tree_opt(
                r,
            ) == Some(Tree::Identifier(text_at(old(self).words(), old(self).curr as int))),
            kind_at(old(self).words(), old(self).curr as int) != TokenKind::Identifier ==> r is None,
    {
        match self.parse_identifier() {
            Some(identifier) => Some(Expr::Identifier(identifier)),
            None => None,
        }
    }

    fn parse_expr(&mut self, precedence: Precedence) -> (r: Option<Expr>)
        requires
            old(self).wf(),
        ensures
            final(self).wf(),
            final(self).tokens == old(self).tokens,
            final(self).curr >= old(self).curr,
            (tree_opt(r), final(self).curr as int) == expr_at(
                old(self).words(),
                precedence,
                old(self).curr as int,
            ),
        decreases old(self).tokens.len() - old(self).curr, 3int,
    {
        let ghost t = self.words();
        let ghost c0 = self.curr as int;
        proof {
            assert(t.last().kind == TokenKind::Eof);
        }
        let mut left = match self.peek().kind {
            TokenKind::Number => self.parse_number_expr(),
            TokenKind::LeftParen => self.parse_grouping_expr(),
            TokenKind::Identifier => self.parse_identifier_expr(),
            _ => return None,
        };
        while self.next_peek().kind != TokenKind::Eof && precedence.level() < Precedence::from(
            self.next_peek().kind,
        ).level()
            invariant
                self.wf(),
                self.tokens == old(self).tokens,
                t == self.words(),
                c0 == old(self).curr,
                self.curr >= c0,
                c0 + 1 < t.len(),
                t.last().kind == TokenKind::Eof,
                extend(t, precedence, tree_opt(left), self.curr as int) == expr_at(
                    t,
                    precedence,
                    c0,
                ),
            decreases self.tokens.len() - self.curr,
        {
            match self.next_peek().kind {
                TokenKind::Plus
                | TokenKind::Minus
                | TokenKind::Star
                | TokenKind::Slash
                | TokenKind::Percent => {
                    self.advance();
                    left = self.parse_binary_op_expr(left);
                },
                TokenKind::LeftParen => {
                    self.advance();
                    left = self.parse_call_expr(left);
                },
                _ => return left,
            }
        }
        left
    }

    fn parse_expr_stmt(&mut self) -> (r: Option<Stmt>)
        requires
            old(self).wf(),
        ensures
            final(self).wf(),
            final(self).tokens == old(self).tokens,
            final(self).curr >= old(self).curr,
            (match r {
                Some(s) => Some(stmt_tree(s)),
                None => None,
            }, final(self).curr as int) == stmt_at(old(self).words(), old(self).curr as int),
    {
        match self.parse_expr(Precedence::Lowest) {
            Some(expr) => {
                if self.next_peek().kind == TokenKind::Eof {
                    self.advance();
                }
                Some(Stmt::Expr(expr))
            },
            None => None,
        }
    }

    fn parse_stmt(&mut self) -> (r: Option<Stmt>)
        requires
            old(self).wf(),
        ensures
            final(self).wf(),
            final(self).tokens == old(self).tokens,
            final(self).curr >= old(self).curr,
            (match r {
                Some(s) => Some(stmt_tree(s)),
                None => None,
            }, final(self).curr as int) == stmt_at(old(self).words(), old(self).curr as int),
    {
        self.parse_expr_stmt()
    }

    /// Parses statements until the tokens run out. Where no expression can start,
    /// that token is passed over and no statement is produced for it.
    pub fn parse(&mut self) -> (r: Program)
        requires
            old(self).wf(),
        ensures
            final(self).wf(),
            final(self).words() == old(self).words(),
            program_trees(r@) == program_from(old(self).words(), old(self).position()),
    {
        let ghost t = self.words();
        let ghost c0 = self.curr as int;
        let mut stmts: Vec<Stmt> = Vec::new();
        assert(program_trees(stmts@) + program_from(t, c0) =~= program_from(t, c0));
        while !self.is_at_end()
            invariant
                self.wf(),
                self.tokens == old(self).tokens,
                t == self.words(),
                c0 == old(self).curr,
                program_trees(stmts@) + program_from(t, self.curr as int) == program_from(t, c0),
            decreases self.tokens.len() - self.curr,
        {
            let ghost before = stmts@;
            let ghost c = self.curr as int;
            let stmt = self.parse_stmt();
            if let Some(stmt) = stmt {
                stmts.push(stmt);
                assert(program_trees(stmts@) =~= program_trees(before) + seq![stmt_tree(stmt)]);
            }
            self.advance();
            proof {
                let rest = program_from(t, self.curr as int);
                match stmt_at(t, c).0 {
                    Some(x) => {
                        assert(program_trees(before) + (seq![x] + rest) =~= (program_trees(before)
                            + seq![x]) + rest);
                    },
                    None => {},
                }
            }
        }
        stmts
    }
}

} // verus!
