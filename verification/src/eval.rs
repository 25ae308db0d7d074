//! The evaluator: the mathematical meaning of a tree, and the two-pass
//! explicit-stack algorithm that is proved to compute it.

use vstd::prelude::*;

use crate::ast::{
    error_code, ArithmeticError, ArithmeticErrorKind, BinaryOp, Expr, Number, OperatorKind,
};

verus! {

/// A tree is well formed when every leaf is a `Number` holding a value and
/// no transient `Operator` marker appears: exactly the trees a client can
/// build from `Number::new` and `BinaryOp::new`.
pub open spec fn wf(e: Expr) -> bool
    decreases e,
{
    match e {
        Expr::Number(n) => n is Some,
        Expr::Operation(b) => wf(b.l) && wf(b.r),
        Expr::Operator(_) => false,
    }
}

/// The exact integer an operator computes, over unbounded integers.
pub open spec fn apply_op(op: OperatorKind, l: int, r: int) -> int {
    match op {
        OperatorKind::Add => l + r,
        OperatorKind::Sub => l - r,
        OperatorKind::Mul => l * r,
        OperatorKind::Div => l / r,
    }
}

/// The mathematical value of a tree: `None` exactly when evaluation runs
/// into a division by zero. Operands are taken left first, then right, as
/// the evaluator reduces them, so a fault in the left subtree hides one in
/// the right subtree.
pub open spec fn eval(e: Expr) -> Option<int>
    decreases e,
{
    match e {
        Expr::Number(n) => match n {
            Some(v) => Some(v.0 as int),
            None => None,
        },
        Expr::Operation(b) => match (eval(b.l), eval(b.r)) {
            (Some(lv), Some(rv)) => if b.op is Div && rv == 0 {
                None
            } else {
                Some(apply_op(b.op, lv, rv))
            },
            _ => None,
        },
        Expr::Operator(_) => None,
    }
}

/// Whether one application of `op` to machine-word operands stays inside
/// the unsigned 128-bit range. Division never leaves it.
pub open spec fn op_in_range(op: OperatorKind, l: int, r: int) -> bool {
    match op {
        OperatorKind::Add => l + r <= u128::MAX,
        OperatorKind::Sub => r <= l,
        OperatorKind::Mul => l * r <= u128::MAX,
        OperatorKind::Div => true,
    }
}

/// Every operation the evaluator actually reaches stays inside the
/// unsigned 128-bit range: no sum or product overflows and no difference
/// underflows. Operations standing after a division by zero in evaluation
/// order are never reached, so no bound is asked of them.
pub open spec fn bounded(e: Expr) -> bool
    decreases e,
{
    match e {
        Expr::Operation(b) => {
            &&& bounded(b.l)
            &&& (eval(b.l) is Some ==> bounded(b.r))
            &&& match (eval(b.l), eval(b.r)) {
                (Some(lv), Some(rv)) => !(b.op is Div && rv == 0) ==> op_in_range(b.op, lv, rv),
                _ => true,
            }
        },
        _ => true,
    }
}

/// The number of nodes in a tree.
pub open spec fn size(e: Expr) -> nat
    decreases e,
{
    match e {
        Expr::Operation(b) => 1 + size(b.l) + size(b.r),
        _ => 1,
    }
}

/// Total node count of a stack of trees.
pub open spec fn stack_size(s: Seq<Expr>) -> nat
    decreases s.len(),
{
    if s.len() == 0 {
        0
    } else {
        size(s.last()) + stack_size(s.drop_last())
    }
}

proof fn lemma_stack_size_push(s: Seq<Expr>, e: Expr)
    ensures
        stack_size(s.push(e)) == stack_size(s) + size(e),
{
    assert(s.push(e).drop_last() =~= s);
}

/// The token sequence the flattening pass appends to its output while it
/// consumes `e`: the operator marker first, then the tokens of the right
/// subtree, then those of the left, so that reading the output back to
/// front yields the tree's postfix order.
pub open spec fn rp_tokens(e: Expr) -> Seq<Expr>
    decreases e,
{
    match e {
        Expr::Operation(b) => seq![Expr::Operator(b.op)] + rp_tokens(b.r) + rp_tokens(b.l),
        _ => seq![e],
    }
}

/// The tokens still to be appended while a work stack `s` is consumed from
/// its end: the top of the stack is flattened first.
pub open spec fn rp_pending(s: Seq<Expr>) -> Seq<Expr>
    decreases s.len(),
{
    if s.len() == 0 {
        Seq::empty()
    } else {
        rp_tokens(s.last()) + rp_pending(s.drop_last())
    }
}

proof fn lemma_rp_pending_push(s: Seq<Expr>, e: Expr)
    ensures
        rp_pending(s.push(e)) == rp_tokens(e) + rp_pending(s),
{
    assert(s.push(e).drop_last() =~= s);
}

/// The outcome of reducing a token stack: a final value stack, the one
/// recoverable fault, or a state the reduction cannot step from — which
/// the tokens of a well-formed, bounded tree never produce.
pub enum ReduceOutcome {
    Halted(Seq<int>),
    DivFault,
    Stuck,
}

/// The reduction pass as a machine over unbounded integers: tokens are
/// consumed from the end of `toks`; a number is pushed onto the value
/// stack; an operator takes the right operand from the top of the value
/// stack and the left operand from under it, faults when it divides by
/// zero, and otherwise pushes the operation's result. A missing value, a
/// missing operand, an out-of-range result or a stray `Operation` token
/// leaves the machine stuck.
pub open spec fn reduce(toks: Seq<Expr>, stack: Seq<int>) -> ReduceOutcome
    decreases toks.len(),
{
    if toks.len() == 0 {
        ReduceOutcome::Halted(stack)
    } else {
        match toks.last() {
            Expr::Number(n) => match n {
                Some(v) => reduce(toks.drop_last(), stack.push(v.0 as int)),
                None => ReduceOutcome::Stuck,
            },
            Expr::Operator(k) => if stack.len() < 2 {
                ReduceOutcome::Stuck
            } else {
                let rv = stack.last();
                let lv = stack[stack.len() - 2];
                if k is Div && rv == 0 {
                    ReduceOutcome::DivFault
                } else if !op_in_range(k, lv, rv) {
                    ReduceOutcome::Stuck
                } else {
                    reduce(
                        toks.drop_last(),
                        stack.drop_last().drop_last().push(apply_op(k, lv, rv)),
                    )
                }
            },
            Expr::Operation(_) => ReduceOutcome::Stuck,
        }
    }
}

/// Reducing the tokens of a well-formed, bounded tree consumes them whole
/// and pushes exactly the tree's value — which fits in an unsigned 128-bit
/// word — or stops with the division fault when the tree has none.
pub proof fn lemma_reduce_tree(e: Expr, rest: Seq<Expr>, stack: Seq<int>)
    requires
        wf(e),
        bounded(e),
    ensures
        match eval(e) {
            Some(v) => 0 <= v <= u128::MAX && reduce(rest + rp_tokens(e), stack) == reduce(
                rest,
                stack.push(v),
            ),
            None => reduce(rest + rp_tokens(e), stack) == ReduceOutcome::DivFault,
        },
    decreases e,
{
    match e {
        Expr::Number(n) => {
            assert((rest + rp_tokens(e)).last() == e);
            assert((rest + rp_tokens(e)).drop_last() =~= rest);
        },
        Expr::Operation(b) => {
            let toks_r = rest + seq![Expr::Operator(b.op)];
            let toks_l = toks_r + rp_tokens(b.r);
            assert(rest + rp_tokens(e) =~= toks_l + rp_tokens(b.l));
            lemma_reduce_tree(b.l, toks_l, stack);
            match eval(b.l) {
                Some(lv) => {
                    lemma_reduce_tree(b.r, toks_r, stack.push(lv));
                    match eval(b.r) {
                        Some(rv) => {
                            let stack2 = stack.push(lv).push(rv);
                            assert(toks_r.last() == Expr::Operator(b.op));
                            assert(toks_r.drop_last() =~= rest);
                            assert(stack2.last() == rv);
                            assert(stack2[stack2.len() - 2] == lv);
                            if !(b.op is Div && rv == 0) {
                                assert(op_in_range(b.op, lv, rv));
                                assert(stack2.drop_last().drop_last() =~= stack);
                                match b.op {
                                    OperatorKind::Mul => {
                                        vstd::arithmetic::mul::lemma_mul_nonnegative(lv, rv);
                                    },
                                    OperatorKind::Div => {
                                        vstd::arithmetic::div_mod::lemma_div_pos_is_pos(lv, rv);
                                        vstd::arithmetic::div_mod::lemma_div_nonincreasing(
                                            lv,
                                            rv,
                                        );
                                    },
                                    _ => {},
                                }
                                assert(0 <= apply_op(b.op, lv, rv) <= u128::MAX);
                            }
                        },
                        None => {},
                    }
                },
                None => {},
            }
        },
        Expr::Operator(_) => {},
    }
}

/// A tree that is a bare number is well formed, needs no bound, and
/// evaluates to that number unchanged, whatever the number is.
pub proof fn lemma_number_value(e: Expr, n: u128)
    requires
        e == Expr::Number(Some(Number(n))),
    ensures
        wf(e),
        bounded(e),
        eval(e) == Some(n as int),
{
}

/// Dividing any number by zero has no value: for every dividend the tree
/// is well formed and bounded, and its evaluation reports the fault, so
/// `parser` returns the division-by-zero error on it and never a value.
pub proof fn lemma_div_by_zero_faults(e: Expr, n: u128)
    requires
        e matches Expr::Operation(node) && node.l == Expr::Number(Some(Number(n))) && node.r
            == Expr::Number(Some(Number(0 as u128))) && node.op is Div,
    ensures
        wf(e),
        bounded(e),
        eval(e) is None,
{
    match e {
        Expr::Operation(node) => {
            assert(wf(node.l) && wf(node.r));
            assert(bounded(node.l) && bounded(node.r));
            assert(eval(node.l) == Some(n as int));
            assert(eval(node.r) == Some(0int));
        },
        _ => {},
    }
}

/// Subtraction takes its operands in tree order: the tree `a - b`
/// evaluates to exactly `a - b`, and never to `b - a` when the two
/// differ. The tree is bounded exactly when the difference does not
/// underflow.
pub proof fn lemma_sub_in_order(e: Expr, a: u128, b: u128)
    requires
        e matches Expr::Operation(node) && node.l == Expr::Number(Some(Number(a))) && node.r
            == Expr::Number(Some(Number(b))) && node.op is Sub,
    ensures
        wf(e),
        bounded(e) <==> b <= a,
        eval(e) == Some(a - b),
        a != b ==> eval(e) != Some(b - a),
{
    match e {
        Expr::Operation(node) => {
            assert(wf(node.l) && wf(node.r));
            assert(bounded(node.l) && bounded(node.r));
            assert(eval(node.l) == Some(a as int));
            assert(eval(node.r) == Some(b as int));
            assert(op_in_range(node.op, a as int, b as int) <==> b <= a);
        },
        _ => {},
    }
}

/// Reduces a well-formed tree to a single value, or reports the division
/// fault.
///
/// The first pass flattens the tree onto an explicit work stack, emitting
/// a postfix token sequence; the second pass reduces that sequence over a
/// value stack, popping the right operand first, then the left, so that
/// the non-commutative operators see their operands in tree order. The
/// result is exactly the mathematical value of the tree: `Ok` holding
/// `eval(op)` when the tree has a value, and the division-by-zero error,
/// and nothing else, when it has none. The result depends on the tree
/// alone, so evaluating equal trees — clones among them — gives equal
/// results.
///
/// Overflow and underflow of the unsigned 128-bit range are not given a
/// typed error here: trees whose reached operations would leave the range
/// are ruled out by the `bounded` precondition, so the verified body
/// never wraps, saturates or panics.
pub fn parser(op: Expr) -> (r: Result<Number, ArithmeticError>)
    requires
        wf(op),
        bounded(op),
    ensures
        match r {
            Ok(n) => eval(op) == Some(n.0 as int),
            Err(e) => eval(op) is None && e.e_code == error_code(ArithmeticErrorKind::DivByZero),
        },
{
    let ghost root = op;
    let mut parser_stack: Vec<Expr> = Vec::new();
    parser_stack.push(op);
    let mut rev_polish: Vec<Expr> = Vec::new();
    proof {
        let s1 = parser_stack@;
        assert(s1.last() == root);
        assert(s1.drop_last() =~= Seq::<Expr>::empty());
        assert(rp_pending(s1.drop_last()) == Seq::<Expr>::empty());
        assert(rp_pending(s1) == rp_tokens(root) + Seq::<Expr>::empty());
        assert(rev_polish@ + rp_pending(s1) =~= rp_tokens(root));
    }
    loop
        invariant_except_break
            parser_stack@.len() >= 1,
            forall|i: int| 0 <= i < parser_stack@.len() ==> wf(#[trigger] parser_stack@[i]),
            rev_polish@ + rp_pending(parser_stack@) == rp_tokens(root),
        ensures
            rev_polish@ == rp_tokens(root),
        decreases stack_size(parser_stack@),
    {
        let ghost pre_stack = parser_stack@;
        let ghost pre_out = rev_polish@;
        let v = parser_stack.pop().unwrap();
        let ghost gv = v;
        match v {
            Expr::Number(num) => {
                rev_polish.push(Expr::Number(num));
                proof {
                    assert(rp_tokens(gv) =~= seq![gv]);
                    assert(rev_polish@ + rp_pending(parser_stack@) =~= pre_out + rp_pending(
                        pre_stack,
                    ));
                }
                if parser_stack.len() == 0 {
                    proof {
                        assert(rev_polish@ + rp_pending(parser_stack@) =~= rev_polish@);
                    }
                    break;
                }
            },
            Expr::Operation(b) => {
                let BinaryOp { l, r, op: kind } = *b;
                rev_polish.push(Expr::Operator(kind));
                parser_stack.push(l);
                parser_stack.push(r);
                proof {
                    lemma_rp_pending_push(pre_stack.drop_last(), l);
                    lemma_rp_pending_push(pre_stack.drop_last().push(l), r);
                    lemma_stack_size_push(pre_stack.drop_last(), l);
                    lemma_stack_size_push(pre_stack.drop_last().push(l), r);
                    assert(rev_polish@ + rp_pending(parser_stack@) =~= pre_out + rp_pending(
                        pre_stack,
                    ));
                }
            },
            Expr::Operator(_) => {
                // A well-formed tree holds no bare operator marker, so the
                // work stack never yields one.
                proof {
                    assert(false);
                }
            },
        }
    }
    let ghost target = reduce(rp_tokens(root), Seq::<int>::empty());
    proof {
        assert(Seq::<Expr>::empty() + rp_tokens(root) =~= rp_tokens(root));
        lemma_reduce_tree(root, Seq::<Expr>::empty(), Seq::<int>::empty());
        if eval(root) is Some {
            assert(Seq::<int>::empty().push(eval(root)->0) =~= seq![eval(root)->0]);
        }
    }
    let mut ans: Vec<u128> = Vec::new();
    let ghost mut vstack: Seq<int> = Seq::empty();
    loop
        invariant_except_break
            rev_polish@.len() >= 1,
            vstack.len() == ans@.len(),
            forall|i: int| 0 <= i < vstack.len() ==> vstack[i] == ans@[i] as int,
            reduce(rev_polish@, vstack) == target,
            match eval(root) {
                Some(v) => target == ReduceOutcome::Halted(seq![v]) && 0 <= v <= u128::MAX,
                None => target == ReduceOutcome::DivFault,
            },
            eval(op) == eval(root),
        ensures
            ans@.len() == 1 && eval(op) == Some(ans@[0] as int),
        decreases 2 * rev_polish@.len() + ans@.len(),
    {
        let ghost pre_toks = rev_polish@;
        let ghost pre_vals = vstack;
        let t = rev_polish.pop().unwrap();
        match t {
            Expr::Number(num) => {
                let number = num.unwrap();
                ans.push(number.0);
                proof {
                    vstack = vstack.push(number.0 as int);
                }
                if rev_polish.len() == 0 && ans.len() == 1 {
                    proof {
                        assert(vstack =~= seq![vstack[0]]);
                    }
                    break;
                }
                proof {
                    if rev_polish@.len() == 0 {
                        assert(reduce(rev_polish@, vstack) == ReduceOutcome::Halted(vstack));
                        assert(false);
                    }
                }
            },
            Expr::Operator(kind) => {
                let ghost gkind = kind;
                proof {
                    if pre_vals.len() < 2 {
                        assert(reduce(pre_toks, pre_vals) == ReduceOutcome::Stuck);
                        assert(false);
                    }
                }
                let r_val = ans.pop().unwrap();
                let l_val = ans.pop().unwrap();
                proof {
                    assert(r_val as int == pre_vals.last());
                    assert(l_val as int == pre_vals[pre_vals.len() - 2]);
                    if !(gkind is Div && r_val as int == 0) && !op_in_range(
                        gkind,
                        l_val as int,
                        r_val as int,
                    ) {
                        assert(reduce(pre_toks, pre_vals) == ReduceOutcome::Stuck);
                        assert(false);
                    }
                }
                let computed: Expr = match kind {
                    OperatorKind::Add => Number(l_val).add(Number(r_val)),
                    OperatorKind::Sub => Number(l_val).sub(Number(r_val)),
                    OperatorKind::Mul => Number(l_val).mul(Number(r_val)),
                    OperatorKind::Div => {
                        if r_val != 0 {
                            Number(l_val).div(Number(r_val))
                        } else {
                            return Err(ArithmeticError::new(ArithmeticErrorKind::DivByZero));
                        }
                    },
                };
                rev_polish.push(computed);
                proof {
                    vstack = pre_vals.drop_last().drop_last();
                    let applied = apply_op(gkind, l_val as int, r_val as int);
                    assert(reduce(pre_toks, pre_vals) == reduce(
                        pre_toks.drop_last(),
                        vstack.push(applied),
                    ));
                    assert(rev_polish@.last() == Expr::Number(Some(Number(applied as u128))));
                    assert(rev_polish@.drop_last() =~= pre_toks.drop_last());
                    assert(reduce(rev_polish@, vstack) == reduce(
                        pre_toks.drop_last(),
                        vstack.push(applied),
                    ));
                    assert(forall|i: int|
                        0 <= i < vstack.len() ==> vstack[i] == #[trigger] ans@[i] as int);
                }
            },
            Expr::Operation(_) => {
                // The flattened sequence holds numbers and operator
                // markers only, so the reduction never meets a whole
                // operation node.
                proof {
                    assert(false);
                }
            },
        }
    }
    let final_val = ans.pop().unwrap();
    Ok(Number(final_val))
}

} // verus!
