//! The meaning of the emitted program: a stack machine over 64-bit register
//! values.
//!
//! `Push` pushes a literal; `Apply` pops the right operand, then the left,
//! applies the operator, and pushes the one result.  Arithmetic wraps modulo
//! 2^64; division and the comparisons read their operands as signed
//! two's-complement values, and division truncates toward zero.  A division
//! whose divisor is zero, or the one overflowing division (the most negative
//! value divided by minus one), faults the machine — `None` throughout.
//!
//! `lemma_node_insns_evaluate` is the emission law: the instructions of a
//! tree, run on any stack, push exactly the tree's value (or fault exactly
//! where evaluation faults).  With the epilogue popping that one value, the
//! generated program's exit value is the tree's value.  `evaluate` computes
//! that value executably.

use vstd::math::abs;
use vstd::prelude::*;

use crate::codegen::{node_insns, Insn};
use crate::node::{BinOp, Node};

verus! {

/// The signed (two's-complement) reading of a 64-bit register value.
pub open spec fn to_signed(v: u64) -> int {
    if v < 0x8000000000000000 {
        v as int
    } else {
        v as int - 0x1_0000_0000_0000_0000
    }
}

/// The 64-bit register value congruent to `i` modulo 2^64.
pub open spec fn to_unsigned(i: int) -> u64 {
    (i % 0x1_0000_0000_0000_0000) as u64
}

/// Division truncating toward zero, as the machine's signed divide rounds.
pub open spec fn truncated_div(a: int, b: int) -> int {
    if (a < 0) == (b < 0) {
        abs(a) as int / abs(b) as int
    } else {
        -(abs(a) as int / abs(b) as int)
    }
}

/// The result of one operator on two register values, `l` the left operand
/// and `r` the right; `None` is a machine fault.  Comparisons yield 1 or 0,
/// zero-extended.
pub open spec fn apply_op(op: BinOp, l: u64, r: u64) -> Option<u64> {
    match op {
        BinOp::Add => Some(to_unsigned(l + r)),
        BinOp::Sub => Some(to_unsigned(l - r)),
        BinOp::Mul => Some(to_unsigned(l * r)),
        BinOp::Div => if to_signed(r) == 0 || (to_signed(l) == -0x8000000000000000 && to_signed(r)
            == -1) {
            None
        } else {
            Some(to_unsigned(truncated_div(to_signed(l), to_signed(r))))
        },
        BinOp::Equal => Some(if l == r {
            1u64
        } else {
            0u64
        }),
        BinOp::NotEqual => Some(if l != r {
            1u64
        } else {
            0u64
        }),
        BinOp::Less => Some(if to_signed(l) < to_signed(r) {
            1u64
        } else {
            0u64
        }),
        BinOp::LessEqual => Some(if to_signed(l) <= to_signed(r) {
            1u64
        } else {
            0u64
        }),
        BinOp::Greater => Some(if to_signed(l) > to_signed(r) {
            1u64
        } else {
            0u64
        }),
        BinOp::GreaterEqual => Some(if to_signed(l) >= to_signed(r) {
            1u64
        } else {
            0u64
        }),
    }
}

/// The value of a tree: leaves are their literals, binary nodes apply their
/// operator to the children's values.  `None` where a division faults.
pub open spec fn eval(n: Node) -> Option<u64>
    decreases n,
{
    match n {
        Node::Number(v) => Some(v),
        Node::Binary { op, lhs, rhs } => match (eval(*lhs), eval(*rhs)) {
            (Some(a), Some(b)) => apply_op(op, a, b),
            _ => None,
        },
    }
}

/// One machine step on the evaluation stack.
pub open spec fn step(i: Insn, stack: Seq<u64>) -> Option<Seq<u64>> {
    match i {
        Insn::Push(v) => Some(stack.push(v)),
        Insn::Apply(op) => if stack.len() >= 2 {
            match apply_op(op, stack[stack.len() - 2], stack[stack.len() - 1]) {
                Some(v) => Some(stack.drop_last().drop_last().push(v)),
                None => None,
            }
        } else {
            None
        },
    }
}

/// Running an instruction sequence from a starting stack.
pub open spec fn run(insns: Seq<Insn>, stack: Seq<u64>) -> Option<Seq<u64>>
    decreases insns.len(),
{
    if insns.len() == 0 {
        Some(stack)
    } else {
        match step(insns[0], stack) {
            Some(st) => run(insns.drop_first(), st),
            None => None,
        }
    }
}

proof fn lemma_run_append(a: Seq<Insn>, b: Seq<Insn>, stack: Seq<u64>)
    ensures
        run(a + b, stack) == match run(a, stack) {
            Some(st) => run(b, st),
            None => None::<Seq<u64>>,
        },
    decreases a.len(),
{
    if a.len() == 0 {
        assert(a + b =~= b);
    } else {
        assert((a + b).drop_first() =~= a.drop_first() + b);
        assert((a + b)[0] == a[0]);
        match step(a[0], stack) {
            Some(st) => {
                lemma_run_append(a.drop_first(), b, st);
            },
            None => {},
        }
    }
}

/// Law: run on any starting stack, the instructions emitted for a tree push
/// exactly the tree's value on top of that stack, and fault exactly where
/// evaluation faults.  In particular the program body leaves one single new
/// value for the epilogue to pop: the stack stays balanced.
pub proof fn lemma_node_insns_evaluate(n: Node, stack: Seq<u64>)
    ensures
        run(node_insns(n), stack) == match eval(n) {
            Some(v) => Some(stack.push(v)),
            None => None::<Seq<u64>>,
        },
    decreases n,
{
    reveal_with_fuel(run, 2);
    match n {
        Node::Number(v) => {
            assert(seq![Insn::Push(v)].drop_first() =~= Seq::<Insn>::empty());
        },
        Node::Binary { op, lhs, rhs } => {
            let l = node_insns(*lhs);
            let r = node_insns(*rhs);
            let last = seq![Insn::Apply(op)];
            assert(node_insns(n) == l + r + last);
            lemma_run_append(l + r, last, stack);
            lemma_run_append(l, r, stack);
            lemma_node_insns_evaluate(*lhs, stack);
            match eval(*lhs) {
                Some(a) => {
                    lemma_node_insns_evaluate(*rhs, stack.push(a));
                    match eval(*rhs) {
                        Some(b) => {
                            let st2 = stack.push(a).push(b);
                            assert(last.drop_first() =~= Seq::<Insn>::empty());
                            assert(st2[st2.len() - 1] == b && st2[st2.len() - 2] == a);
                            assert(st2.drop_last() =~= stack.push(a));
                            assert(stack.push(a).drop_last() =~= stack);
                            match apply_op(op, a, b) {
                                Some(v) => {
                                    assert(run(last, st2) == Some(stack.push(v)));
                                },
                                None => {},
                            }
                        },
                        None => {},
                    }
                },
                None => {},
            }
        },
    }
}

proof fn lemma_to_unsigned_small(i: int)
    requires
        0 <= i < 0x1_0000_0000_0000_0000,
    ensures
        to_unsigned(i) == i,
{
    vstd::arithmetic::div_mod::lemma_small_mod(i as nat, 0x1_0000_0000_0000_0000nat);
}

proof fn lemma_to_unsigned_shift(i: int)
    ensures
        to_unsigned(i + 0x1_0000_0000_0000_0000) == to_unsigned(i),
{
    vstd::arithmetic::div_mod::lemma_mod_add_multiples_vanish(i, 0x1_0000_0000_0000_0000);
}

/// Whether the signed reading of `l` is below that of `r`.
fn less_signed(l: u64, r: u64) -> (b: bool)
    ensures
        b == (to_signed(l) < to_signed(r)),
{
    let neg_l: bool = l >= 0x8000000000000000;
    let neg_r: bool = r >= 0x8000000000000000;
    if neg_l != neg_r {
        neg_l
    } else {
        l < r
    }
}

/// The machine's signed division on register values: truncating, faulting
/// on a zero divisor and on the one overflowing quotient.
fn div_signed(l: u64, r: u64) -> (res: Option<u64>)
    ensures
        res == apply_op(BinOp::Div, l, r),
{
    if r == 0 {
        return None;
    }
    if l == 0x8000000000000000 && r == 0xFFFFFFFFFFFFFFFF {
        return None;
    }
    let neg_l: bool = l >= 0x8000000000000000;
    let neg_r: bool = r >= 0x8000000000000000;
    let la: u64 = if neg_l {
        0u64.wrapping_sub(l)
    } else {
        l
    };
    let ra: u64 = if neg_r {
        0u64.wrapping_sub(r)
    } else {
        r
    };
    proof {
        assert(la == abs(to_signed(l)));
        assert(ra == abs(to_signed(r)));
    }
    let q: u64 = la / ra;
    if neg_l != neg_r {
        proof {
            if q > 0 {
                lemma_to_unsigned_shift(-(q as int));
                lemma_to_unsigned_small(0x1_0000_0000_0000_0000 - q);
            } else {
                lemma_to_unsigned_small(0);
            }
        }
        Some(0u64.wrapping_sub(q))
    } else {
        proof {
            lemma_to_unsigned_small(q as int);
        }
        Some(q)
    }
}

fn apply(op: BinOp, l: u64, r: u64) -> (res: Option<u64>)
    ensures
        res == apply_op(op, l, r),
{
    match op {
        BinOp::Add => {
            proof {
                if l + r < 0x1_0000_0000_0000_0000 {
                    lemma_to_unsigned_small(l + r);
                } else {
                    lemma_to_unsigned_shift(l + r - 0x1_0000_0000_0000_0000);
                    lemma_to_unsigned_small(l + r - 0x1_0000_0000_0000_0000);
                }
            }
            Some(l.wrapping_add(r))
        },
        BinOp::Sub => {
            proof {
                if l - r >= 0 {
                    lemma_to_unsigned_small(l - r);
                } else {
                    lemma_to_unsigned_shift(l - r);
                    lemma_to_unsigned_small(l - r + 0x1_0000_0000_0000_0000);
                }
            }
            Some(l.wrapping_sub(r))
        },
        BinOp::Mul => Some(l.wrapping_mul(r)),
        BinOp::Div => div_signed(l, r),
        BinOp::Equal => Some(
            if l == r {
                1
            } else {
                0
            },
        ),
        BinOp::NotEqual => Some(
            if l != r {
                1
            } else {
                0
            },
        ),
        BinOp::Less => Some(
            if less_signed(l, r) {
                1
            } else {
                0
            },
        ),
        BinOp::LessEqual => Some(
            if less_signed(r, l) {
                0
            } else {
                1
            },
        ),
        BinOp::Greater => Some(
            if less_signed(r, l) {
                1
            } else {
                0
            },
        ),
        BinOp::GreaterEqual => Some(
            if less_signed(l, r) {
                0
            } else {
                1
            },
        ),
    }
}

/// Computes the value of a tree: what the generated program, assembled and
/// executed, returns (before the operating system truncates the exit
/// status).  `None` where the program would fault on a division.
pub fn evaluate(node: &Node) -> (r: Option<u64>)
    ensures
        r == eval(*node),
    decreases node,
{
    match node {
        Node::Number(v) => Some(*v),
        Node::Binary { op, lhs, rhs } => {
            let a: u64 = match evaluate(&**lhs) {
                Some(a) => a,
                None => {
                    return None;
                },
            };
            let b: u64 = match evaluate(&**rhs) {
                Some(b) => b,
                None => {
                    return None;
                },
            };
            apply(*op, a, b)
        },
    }
}

} // verus!
