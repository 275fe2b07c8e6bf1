use vstd::prelude::*;
use crate::ast::{tree, BinaryOperator, Expr, Program, Stmt, Tree};
use crate::bytecode::{Bytecode, Literal, LiteralView};
use crate::opcode::Opcode;
use crate::parser::{program_trees, stmt_tree, trees};

verus! {

/// The instructions for a binary operator; the derived comparisons are built
/// from a primitive and `Not`.
pub open spec fn op_codes(op: BinaryOperator) -> Seq<Opcode> {
    match op {
        BinaryOperator::Add => seq![Opcode::Add],
        BinaryOperator::Subtract => seq![Opcode::Subtract],
        BinaryOperator::Multiply => seq![Opcode::Multiply],
        BinaryOperator::Divide => seq![Opcode::Divide],
        BinaryOperator::Modulo => seq![Opcode::Modulo],
        BinaryOperator::Equal => seq![Opcode::Equal],
        BinaryOperator::NotEqual => seq![Opcode::Equal, Opcode::Not],
        BinaryOperator::LessThan => seq![Opcode::Less],
        BinaryOperator::LessThanOrEqual => seq![Opcode::Greater, Opcode::Not],
        BinaryOperator::GreaterThan => seq![Opcode::Greater],
        BinaryOperator::GreaterThanOrEqual => seq![Opcode::Less, Opcode::Not],
        BinaryOperator::And => seq![Opcode::And],
        BinaryOperator::Or => seq![Opcode::Or],
    }
}

/// The code for `t`, depth first, left operand first, and the constants it adds
/// to a pool that holds `k` of them already.
pub open spec fn tree_code(t: Tree, k: nat) -> (Seq<Opcode>, Seq<LiteralView>)
    decreases t,
{
    match t {
        Tree::Number(s) => (seq![Opcode::Constant(k as usize)], seq![LiteralView::Number(s)]),
        Tree::Boolean(b) => (seq![Opcode::Constant(k as usize)], seq![LiteralView::Boolean(b)]),
        Tree::Binary(l, op, r) => {
            let (a, la) = tree_code(*l, k);
            let (b, lb) = tree_code(*r, k + la.len());
            (a + b + op_codes(op), la + lb)
        },
        Tree::Call(c, args) => {
            let (a, la) = tree_code(*c, k);
            let (b, lb) = list_code(args, k + la.len());
            (a + b, la + lb)
        },
        _ => (Seq::empty(), Seq::empty()),
    }
}

/// The code for each tree of `ts` in turn.
pub open spec fn list_code(ts: Seq<Tree>, k: nat) -> (Seq<Opcode>, Seq<LiteralView>)
    decreases ts,
{
    if ts.len() == 0 {
        (Seq::empty(), Seq::empty())
    } else {
        let (a, la) = tree_code(ts[0], k);
        let (b, lb) = list_code(ts.drop_first(), k + la.len());
        (a + b, la + lb)
    }
}

/// The bytecode of a program: each statement's code in turn, then one `Return`.
pub open spec fn program_code(ts: Seq<Tree>, k: nat) -> (Seq<Opcode>, Seq<LiteralView>) {
    let (a, la) = list_code(ts, k);
    (a.push(Opcode::Return), la)
}

/// Lowers a program into bytecode.
pub struct Compiler {
    bytecode: Bytecode,
}

impl Compiler {
    /// The instructions emitted so far.
    pub closed spec fn codes(&self) -> Seq<Opcode> {
        self.bytecode.codes@
    }

    /// The constant pool built so far.
    pub closed spec fn pool(&self) -> Seq<LiteralView> {
        self.bytecode.pool()
    }

    pub fn new() -> (r: Self)
        ensures
            r.codes().len() == 0,
            r.pool().len() == 0,
    {
        Compiler { bytecode: Bytecode::new() }
    }

    fn emit(&mut self, opcode: Opcode) -> (r: usize)
        ensures
            final(self).codes() == old(self).codes().push(opcode),
            final(self).pool() == old(self).pool(),
            r == old(self).codes().len(),
    {
        self.bytecode.codes.push(opcode);
        self.bytecode.codes.len() - 1
    }

    fn emit_bytes(&mut self, a: Opcode, b: Opcode)
        ensures
            final(self).codes() == old(self).codes() + seq![a, b],
            final(self).pool() == old(self).pool(),
    {
        self.emit(a);
        self.emit(b);
        assert(self.codes() =~= old(self).codes() + seq![a, b]);
    }

    fn add_constant(&mut self, constant: Literal) -> (r: usize)
        ensures
            final(self).codes() == old(self).codes(),
            final(self).pool() == old(self).pool().push(constant@),
            r == old(self).pool().len(),
    {
        self.bytecode.constants.push(constant);
        assert(self.pool() =~= old(self).pool().push(constant@));
        self.bytecode.constants.len() - 1
    }

    fn compile_expr(&mut self, expr: &Expr)
        ensures
            ({
                let (a, la) = tree_code(tree(*expr), old(self).pool().len());
                &&& final(self).codes() == old(self).codes() + a
                &&& final(self).pool() == old(self).pool() + la
            }),
        decreases expr, 0int,
    {
        let ghost k = self.pool().len();
        match expr {
            Expr::Boolean(b) => {
                let constant = self.add_constant(Literal::Boolean(*b));
                self.emit(Opcode::Constant(constant));
                assert(self.codes() =~= old(self).codes() + seq![Opcode::Constant(k as usize)]);
                assert(self.pool() =~= old(self).pool() + seq![LiteralView::Boolean(*b)]);
            },
            Expr::Number(n) => {
                let constant = self.add_constant(Literal::Number(n.clone()));
                self.emit(Opcode::Constant(constant));
                assert(self.codes() =~= old(self).codes() + seq![Opcode::Constant(k as usize)]);
                assert(self.pool() =~= old(self).pool() + seq![LiteralView::Number(n@)]);
            },
            Expr::Identifier(_) => {
                assert(self.codes() =~= old(self).codes() + Seq::empty());
                assert(self.pool() =~= old(self).pool() + Seq::empty());
            },
            Expr::BinaryOp(left, op, right) => {
                self.compile_expr(left);
                let ghost mid_codes = self.codes();
                let ghost mid_pool = self.pool();
                self.compile_expr(right);
                let ghost after_codes = self.codes();
                match op {
                    BinaryOperator::Add => {
                        self.emit(Opcode::Add);
                    },
                    BinaryOperator::Subtract => {
                        self.emit(Opcode::Subtract);
                    },
                    BinaryOperator::Multiply => {
                        self.emit(Opcode::Multiply);
                    },
                    BinaryOperator::Divide => {
                        self.emit(Opcode::Divide);
                    },
                    BinaryOperator::Modulo => {
                        self.emit(Opcode::Modulo);
                    },
                    BinaryOperator::Equal => {
                        self.emit(Opcode::Equal);
                    },
                    BinaryOperator::NotEqual => {
                        self.emit_bytes(Opcode::Equal, Opcode::Not);
                    },
                    BinaryOperator::LessThan => {
                        self.emit(Opcode::Less);
                    },
                    BinaryOperator::LessThanOrEqual => {
                        self.emit_bytes(Opcode::Greater, Opcode::Not);
                    },
                    BinaryOperator::GreaterThan => {
                        self.emit(Opcode::Greater);
                    },
                    BinaryOperator::GreaterThanOrEqual => {
                        self.emit_bytes(Opcode::Less, Opcode::Not);
                    },
                    BinaryOperator::And => {
                        self.emit(Opcode::And);
                    },
                    BinaryOperator::Or => {
                        self.emit(Opcode::Or);
                    },
                };
                proof {
                    let (a, la) = tree_code(tree(**left), k);
                    let (b, lb) = tree_code(tree(**right), k + la.len());
                    assert(self.codes() =~= after_codes + op_codes(*op));
                    assert(self.codes() =~= old(self).codes() + (a + b + op_codes(*op)));
                    assert(self.pool() =~= old(self).pool() + (la + lb));
                }
            },
            Expr::Call(callee, args) => {
                self.compile_expr(callee);
                let ghost mid_codes = self.codes();
                let ghost mid_pool = self.pool();
                self.compile_args(args, 0);
                proof {
                    let (a, la) = tree_code(tree(**callee), k);
                    let (b, lb) = list_code(trees(args@), k + la.len());
                    assert(trees(args@).skip(0) =~= trees(args@));
                    assert(trees(args@) =~= match tree(*expr) {
                        Tree::Call(_, x) => x,
                        _ => Seq::empty(),
                    });
                    assert(self.codes() =~= old(self).codes() + (a + b));
                    assert(self.pool() =~= old(self).pool() + (la + lb));
                }
            },
            Expr::UnaryOp(_, _) => {
                assert(self.codes() =~= old(self).codes() + Seq::empty());
                assert(self.pool() =~= old(self).pool() + Seq::empty());
            },
        }
    }

    /// Compiles the arguments from index `i` on, in order.
    fn compile_args(&mut self, args: &Vec<Expr>, i: usize)
        requires
            i <= args.len(),
        ensures
            ({
                let (a, la) = list_code(trees(args@).skip(i as int), old(self).pool().len());
                &&& final(self).codes() == old(self).codes() + a
                &&& final(self).pool() == old(self).pool() + la
            }),
        decreases args, args.len() - i,
    {
        if i == args.len() {
            assert(trees(args@).skip(i as int).len() == 0);
            assert(self.codes() =~= old(self).codes() + Seq::empty());
            assert(self.pool() =~= old(self).pool() + Seq::empty());
            return;
        }
        let ghost k = self.pool().len();
        self.compile_expr(&args[i]);
        self.compile_args(args, i + 1);
        proof {
            let ts = trees(args@).skip(i as int);
            assert(ts[0] == tree(args@[i as int]));
            assert(ts.drop_first() =~= trees(args@).skip(i + 1));
            let (a, la) = tree_code(ts[0], k);
            let (b, lb) = list_code(ts.drop_first(), k + la.len());
            assert(self.codes() =~= old(self).codes() + (a + b));
            assert(self.pool() =~= old(self).pool() + (la + lb));
        }
    }

    fn compile_stmt(&mut self, stmt: &Stmt)
        ensures
            ({
                let (a, la) = tree_code(stmt_tree(*stmt), old(self).pool().len());
                &&& final(self).codes() == old(self).codes() + a
                &&& final(self).pool() == old(self).pool() + la
            }),
    {
        match stmt {
            Stmt::Expr(expr) => {
                self.compile_expr(expr);
            },
        }
    }

    /// Appends the code of each statement in turn and one `Return`, hands over
    /// the bytecode built so far, and starts afresh.
    pub fn compile(&mut self, program: &Program) -> (r: Bytecode)
        ensures
            ({
                let (a, la) = program_code(program_trees(program@), old(self).pool().len());
                &&& r.codes@ == old(self).codes() + a
                &&& r.pool() == old(self).pool() + la
                &&& final(self).codes().len() == 0
                &&& final(self).pool().len() == 0
            }),
    {
        let ghost ts = program_trees(program@);
        let ghost k0 = self.pool().len();
        let mut i: usize = 0;
        while i < program.len()
            invariant
                i <= program.len(),
                ts == program_trees(program@),
                k0 == old(self).pool().len(),
                ({
                    let (a, la) = list_code(ts.take(i as int), k0);
                    &&& self.codes() == old(self).codes() + a
                    &&& self.pool() == old(self).pool() + la
                }),
            decreases program.len() - i,
        {
            let ghost before_codes = self.codes();
            let ghost before_pool = self.pool();
            self.compile_stmt(&program[i]);
            proof {
                lemma_list_code_push(ts.take(i as int), ts[i as int], k0);
                assert(ts.take(i + 1) =~= ts.take(i as int).push(ts[i as int]));
                let (a, la) = list_code(ts.take(i as int), k0);
                let (b, lb) = tree_code(ts[i as int], k0 + la.len());
                assert(self.codes() =~= old(self).codes() + (a + b));
                assert(self.pool() =~= old(self).pool() + (la + lb));
            }
            i = i + 1;
        }
        self.emit(Opcode::Return);
        proof {
            assert(ts.take(i as int) =~= ts);
            let (a, la) = list_code(ts, k0);
            assert(self.codes() =~= old(self).codes() + a.push(Opcode::Return));
        }
        let mut out = Bytecode::new();
        core::mem::swap(&mut out, &mut self.bytecode);
        out
    }
}

/// Compiling one more tree appends its code and constants.
pub proof fn lemma_list_code_push(ts: Seq<Tree>, t: Tree, k: nat)
    ensures
        ({
            let (a, la) = list_code(ts, k);
            let (b, lb) = tree_code(t, k + la.len());
            list_code(ts.push(t), k) == (a + b, la + lb)
        }),
    decreases ts.len(),
{
    if ts.len() == 0 {
        let (b, lb) = tree_code(t, k);
        assert(ts.push(t)[0] == t);
        assert(ts.push(t).drop_first() =~= Seq::<Tree>::empty());
        assert(list_code(Seq::<Tree>::empty(), k + lb.len()) == (
            Seq::<Opcode>::empty(),
            Seq::<LiteralView>::empty(),
        ));
        assert(Seq::<Opcode>::empty() + b =~= b + Seq::empty());
        assert(Seq::<LiteralView>::empty() + lb =~= lb + Seq::empty());
    } else {
        let (h, lh) = tree_code(ts[0], k);
        lemma_list_code_push(ts.drop_first(), t, k + lh.len());
        assert(ts.push(t)[0] == ts[0]);
        assert(ts.push(t).drop_first() =~= ts.drop_first().push(t));
        let (c, lc) = list_code(ts.drop_first(), k + lh.len());
        let (b, lb) = tree_code(t, k + lh.len() + lc.len());
        assert(h + (c + b) =~= (h + c) + b);
        assert(lh + (lc + lb) =~= (lh + lc) + lb);
    }
}

} // verus!
