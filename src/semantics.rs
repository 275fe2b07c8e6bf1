use vstd::prelude::*;
use crate::ast::{BinaryOperator, Tree};
use crate::bytecode::LiteralView;
use crate::compiler::{list_code, op_codes, program_code, tree_code};
use crate::object::Object;
use crate::opcode::Opcode;
use crate::vm::{run_from, RuntimeError};

verus! {

pub open spec fn is_arith_op(op: BinaryOperator) -> bool {
    op == BinaryOperator::Add || op == BinaryOperator::Subtract || op == BinaryOperator::Multiply
        || op == BinaryOperator::Divide || op == BinaryOperator::Modulo
}

/// A tree built from number literals and `+ - * / %` alone.
pub open spec fn is_arith(t: Tree) -> bool
    decreases t,
{
    match t {
        Tree::Number(_) => true,
        Tree::Binary(l, op, r) => is_arith_op(op) && is_arith(*l) && is_arith(*r),
        _ => false,
    }
}

/// The value of an arithmetic tree, where `decode` gives the value of a literal
/// and `arith` the result of one operation.
pub open spec fn eval(
    t: Tree,
    decode: spec_fn(Seq<char>) -> u64,
    arith: spec_fn(BinaryOperator, u64, u64) -> u64,
) -> u64
    decreases t,
{
    match t {
        Tree::Number(s) => decode(s),
        Tree::Binary(l, op, r) => arith(op, eval(*l, decode, arith), eval(*r, decode, arith)),
        _ => 0,
    }
}

/// The values of the trees `ts`, in order.
pub open spec fn evals(
    ts: Seq<Tree>,
    decode: spec_fn(Seq<char>) -> u64,
    arith: spec_fn(BinaryOperator, u64, u64) -> u64,
) -> Seq<Object> {
    Seq::new(ts.len(), |i: int| Object::Number(eval(ts[i], decode, arith)))
}

/// `code` stands in `codes` from `ip` on.
pub open spec fn placed<A>(whole: Seq<A>, at: int, part: Seq<A>) -> bool {
    &&& 0 <= at
    &&& at + part.len() <= whole.len()
    &&& forall|j: int| 0 <= j < part.len() ==> whole[at + j] == part[j]
}

/// No code of an expression holds a `Return`.
pub proof fn lemma_tree_code_no_return(t: Tree, k: nat)
    ensures
        forall|j: int|
            0 <= j < tree_code(t, k).0.len() ==> tree_code(t, k).0[j] != Opcode::Return,
    decreases t,
{
    match t {
        Tree::Binary(l, op, r) => {
            let (a, la) = tree_code(*l, k);
            lemma_tree_code_no_return(*l, k);
            lemma_tree_code_no_return(*r, k + la.len());
        },
        Tree::Call(c, args) => {
            let (a, la) = tree_code(*c, k);
            lemma_tree_code_no_return(*c, k);
            lemma_list_code_no_return(args, k + la.len());
        },
        _ => {},
    }
}

pub proof fn lemma_list_code_no_return(ts: Seq<Tree>, k: nat)
    ensures
        forall|j: int|
            0 <= j < list_code(ts, k).0.len() ==> list_code(ts, k).0[j] != Opcode::Return,
    decreases ts,
{
    if ts.len() > 0 {
        let (a, la) = tree_code(ts[0], k);
        lemma_tree_code_no_return(ts[0], k);
        lemma_list_code_no_return(ts.drop_first(), k + la.len());
    }
}

/// Every program compiles to code that ends in a `Return` and holds no other.
pub proof fn lemma_single_return(ts: Seq<Tree>)
    ensures
        program_code(ts, 0).0.len() >= 1,
        program_code(ts, 0).0.last() == Opcode::Return,
        forall|j: int|
            0 <= j < program_code(ts, 0).0.len() - 1 ==> program_code(ts, 0).0[j]
                != Opcode::Return,
{
    lemma_list_code_no_return(ts, 0);
}

/// Running the code of an arithmetic tree pushes its value and goes on after it.
pub proof fn lemma_run_tree(
    codes: Seq<Opcode>,
    pool: Seq<LiteralView>,
    decode: spec_fn(Seq<char>) -> u64,
    arith: spec_fn(BinaryOperator, u64, u64) -> u64,
    t: Tree,
    k: nat,
    ip: int,
    stack: Seq<Object>,
)
    requires
        is_arith(t),
        placed(codes, ip, tree_code(t, k).0),
        placed(pool, k as int, tree_code(t, k).1),
        pool.len() <= usize::MAX,
    ensures
        run_from(codes, pool, decode, arith, ip, stack) == run_from(
            codes,
            pool,
            decode,
            arith,
            ip + tree_code(t, k).0.len(),
            stack.push(Object::Number(eval(t, decode, arith))),
        ),
    decreases t,
{
    match t {
        Tree::Number(s) => {
            assert(tree_code(t, k).0[0] == Opcode::Constant(k as usize));
            assert(tree_code(t, k).1[0] == LiteralView::Number(s));
            assert(codes[ip + 0] == Opcode::Constant(k as usize));
            assert(pool[k as int + 0] == LiteralView::Number(s));
        },
        Tree::Binary(l, op, r) => {
            let (a, la) = tree_code(*l, k);
            let (b, lb) = tree_code(*r, k + la.len());
            let c = a + b + op_codes(op);
            assert forall|j: int| 0 <= j < a.len() implies codes[ip + j] == a[j] by {
                assert(c[j] == a[j]);
            }
            assert forall|j: int| 0 <= j < la.len() implies pool[k + j] == la[j] by {
                assert((la + lb)[j] == la[j]);
            }
            lemma_run_tree(codes, pool, decode, arith, *l, k, ip, stack);
            let vl = Object::Number(eval(*l, decode, arith));
            assert forall|j: int| 0 <= j < b.len() implies codes[ip + a.len() + j] == b[j] by {
                assert(c[a.len() + j] == b[j]);
            }
            assert forall|j: int| 0 <= j < lb.len() implies pool[k + la.len() + j] == lb[j] by {
                assert((la + lb)[la.len() + j] == lb[j]);
            }
            lemma_run_tree(codes, pool, decode, arith, *r, k + la.len(), ip + a.len(), stack.push(vl));
            let vr = Object::Number(eval(*r, decode, arith));
            let at = ip + a.len() + b.len();
            assert(codes[at] == c[(a.len() + b.len()) as int]);
            let st = stack.push(vl).push(vr);
            assert(st.drop_last() == stack.push(vl));
            assert(st.drop_last().drop_last() == stack);
        },
        _ => {},
    }
}

/// Running the code of arithmetic statements one after another pushes their
/// values in order.
pub proof fn lemma_run_list(
    codes: Seq<Opcode>,
    pool: Seq<LiteralView>,
    decode: spec_fn(Seq<char>) -> u64,
    arith: spec_fn(BinaryOperator, u64, u64) -> u64,
    ts: Seq<Tree>,
    k: nat,
    ip: int,
    stack: Seq<Object>,
)
    requires
        forall|i: int| 0 <= i < ts.len() ==> is_arith(#[trigger] ts[i]),
        placed(codes, ip, list_code(ts, k).0),
        placed(pool, k as int, list_code(ts, k).1),
        pool.len() <= usize::MAX,
    ensures
        run_from(codes, pool, decode, arith, ip, stack) == run_from(
            codes,
            pool,
            decode,
            arith,
            ip + list_code(ts, k).0.len(),
            stack + evals(ts, decode, arith),
        ),
    decreases ts.len(),
{
    if ts.len() == 0 {
        assert(stack + evals(ts, decode, arith) =~= stack);
    } else {
        let (a, la) = tree_code(ts[0], k);
        let (b, lb) = list_code(ts.drop_first(), k + la.len());
        let c = a + b;
        assert forall|j: int| 0 <= j < a.len() implies codes[ip + j] == a[j] by {
            assert(c[j] == a[j]);
        }
        assert forall|j: int| 0 <= j < la.len() implies pool[k + j] == la[j] by {
            assert((la + lb)[j] == la[j]);
        }
        lemma_run_tree(codes, pool, decode, arith, ts[0], k, ip, stack);
        let v = Object::Number(eval(ts[0], decode, arith));
        assert forall|j: int| 0 <= j < b.len() implies codes[ip + a.len() + j] == b[j] by {
            assert(c[a.len() + j] == b[j]);
        }
        assert forall|j: int| 0 <= j < lb.len() implies pool[k + la.len() + j] == lb[j] by {
            assert((la + lb)[la.len() + j] == lb[j]);
        }
        assert forall|i: int| 0 <= i < ts.drop_first().len() implies is_arith(
            #[trigger] ts.drop_first()[i],
        ) by {
            assert(is_arith(ts[i + 1]));
        }
        lemma_run_list(
            codes,
            pool,
            decode,
            arith,
            ts.drop_first(),
            k + la.len(),
            ip + a.len(),
            stack.push(v),
        );
        assert(stack.push(v) + evals(ts.drop_first(), decode, arith) =~= stack + evals(
            ts,
            decode,
            arith,
        ));
    }
}

/// Compiling a program of arithmetic statements and running it gives the value
/// of the last statement, computed bottom up with the left operand first; one
/// value is popped, and the values of the statements before it stay on the stack.
pub proof fn lemma_program_result(
    ts: Seq<Tree>,
    decode: spec_fn(Seq<char>) -> u64,
    arith: spec_fn(BinaryOperator, u64, u64) -> u64,
)
    requires
        ts.len() >= 1,
        forall|i: int| 0 <= i < ts.len() ==> is_arith(#[trigger] ts[i]),
        program_code(ts, 0).1.len() <= usize::MAX,
    ensures
        ({
            let (codes, pool) = program_code(ts, 0);
            run_from(codes, pool, decode, arith, 0, Seq::empty()) == (
                Ok::<Object, RuntimeError>(Object::Number(eval(ts.last(), decode, arith))),
                evals(ts.drop_last(), decode, arith),
            )
        }),
{
    let (codes, pool) = program_code(ts, 0);
    let (a, la) = list_code(ts, 0);
    assert forall|j: int| 0 <= j < a.len() implies codes[0 + j] == a[j] by {}
    assert forall|j: int| 0 <= j < la.len() implies pool[0 + j] == la[j] by {}
    lemma_run_list(codes, pool, decode, arith, ts, 0, 0, Seq::empty());
    let st = Seq::<Object>::empty() + evals(ts, decode, arith);
    assert(codes[a.len() as int] == Opcode::Return);
    assert(st.drop_last() =~= evals(ts.drop_last(), decode, arith));
}

/// An arithmetic expression compiled alone runs to its value and leaves the
/// stack empty.
pub proof fn lemma_expression_result(
    t: Tree,
    decode: spec_fn(Seq<char>) -> u64,
    arith: spec_fn(BinaryOperator, u64, u64) -> u64,
)
    requires
        is_arith(t),
        program_code(seq![t], 0).1.len() <= usize::MAX,
    ensures
        ({
            let (codes, pool) = program_code(seq![t], 0);
            run_from(codes, pool, decode, arith, 0, Seq::empty()) == (
                Ok::<Object, RuntimeError>(Object::Number(eval(t, decode, arith))),
                Seq::<Object>::empty(),
            )
        }),
{
    lemma_program_result(seq![t], decode, arith);
    assert(seq![t].drop_last() =~= Seq::<Tree>::empty());
    assert(evals(Seq::<Tree>::empty(), decode, arith) =~= Seq::<Object>::empty());
}

/// A `Return` reached with an empty stack is a stack underflow, never a result.
pub proof fn lemma_unbalanced_return(
    codes: Seq<Opcode>,
    pool: Seq<LiteralView>,
    decode: spec_fn(Seq<char>) -> u64,
    arith: spec_fn(BinaryOperator, u64, u64) -> u64,
    ip: int,
)
    requires
        0 <= ip < codes.len(),
        codes[ip] == Opcode::Return,
    ensures
        run_from(codes, pool, decode, arith, ip, Seq::empty()).0 == Err::<Object, RuntimeError>(
            RuntimeError::StackUnderflow,
        ),
{
}

/// The empty program compiles to a lone `Return`, whose run underflows.
pub proof fn lemma_empty_program_underflows(
    decode: spec_fn(Seq<char>) -> u64,
    arith: spec_fn(BinaryOperator, u64, u64) -> u64,
)
    ensures
        program_code(Seq::empty(), 0).0 == seq![Opcode::Return],
        run_from(
            program_code(Seq::empty(), 0).0,
            program_code(Seq::empty(), 0).1,
            decode,
            arith,
            0,
            Seq::empty(),
        ).0 == Err::<Object, RuntimeError>(RuntimeError::StackUnderflow),
{
    assert(program_code(Seq::empty(), 0).0 =~= seq![Opcode::Return]);
}

} // verus!
