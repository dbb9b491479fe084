//! Code generation: the syntax tree becomes a textual assembly program for a
//! stack machine.
//!
//! The tree is traversed post-order.  A numeric leaf pushes its literal; a
//! binary node first emits its left subtree, then its right, then pops the
//! right operand into `rdi` and the left into `rax`, applies the operator,
//! and pushes the single result back.  The emitted program therefore keeps
//! the evaluation stack balanced: one value per fully emitted subtree, and
//! exactly one value when the whole tree has been consumed, which the
//! epilogue pops into the return register.
//!
//! The emission is specified in two layers: `node_insns` gives the abstract
//! instruction sequence of a tree (whose meaning `crate::machine` defines),
//! and `insns_text` renders it as assembly text.  `generate` is proved to
//! return exactly the rendered program.

use vstd::prelude::*;
use vstd::string::StringExecFns;

use crate::node::{BinOp, Node};

verus! {

/// One abstract instruction of the emitted program's body.
#[derive(Clone, Copy, Debug, PartialEq, Eq, Structural)]
pub enum Insn {
    /// Push a literal value onto the evaluation stack.
    Push(u64),
    /// Pop the right then the left operand, apply the operator, push the
    /// result.
    Apply(BinOp),
}

/// The instruction sequence of a tree: post-order, children left to right,
/// the node's own operation last.
pub open spec fn node_insns(n: Node) -> Seq<Insn>
    decreases n,
{
    match n {
        Node::Number(v) => seq![Insn::Push(v)],
        Node::Binary { op, lhs, rhs } => node_insns(*lhs) + node_insns(*rhs) + seq![
            Insn::Apply(op),
        ],
    }
}

/// The decimal digits of `d` (a single digit) as text.
pub open spec fn digit_text(d: nat) -> Seq<char> {
    if d == 0 {
        "0"@
    } else if d == 1 {
        "1"@
    } else if d == 2 {
        "2"@
    } else if d == 3 {
        "3"@
    } else if d == 4 {
        "4"@
    } else if d == 5 {
        "5"@
    } else if d == 6 {
        "6"@
    } else if d == 7 {
        "7"@
    } else if d == 8 {
        "8"@
    } else {
        "9"@
    }
}

/// The decimal numeral of `n`, most significant digit first.
pub open spec fn decimal(n: nat) -> Seq<char>
    decreases n,
{
    if n < 10 {
        digit_text(n)
    } else {
        decimal(n / 10) + digit_text(n % 10)
    }
}

/// The instruction lines of one operator: left operand in `rax`, right in
/// `rdi`, result in `rax`.
pub open spec fn op_text(op: BinOp) -> Seq<char> {
    match op {
        BinOp::Add => "  add rax, rdi\n"@,
        BinOp::Sub => "  sub rax, rdi\n"@,
        BinOp::Mul => "  imul rax, rdi\n"@,
        BinOp::Div => "  cqo\n"@ + "  idiv rdi\n"@,
        BinOp::Equal => "  cmp rax, rdi\n"@ + "  sete al\n"@ + "  movzb rax, al\n"@,
        BinOp::NotEqual => "  cmp rax, rdi\n"@ + "  setne al\n"@ + "  movzb rax, al\n"@,
        BinOp::Less => "  cmp rax, rdi\n"@ + "  setl al\n"@ + "  movzb rax, al\n"@,
        BinOp::LessEqual => "  cmp rax, rdi\n"@ + "  setle al\n"@ + "  movzb rax, al\n"@,
        BinOp::Greater => "  cmp rax, rdi\n"@ + "  setg al\n"@ + "  movzb rax, al\n"@,
        BinOp::GreaterEqual => "  cmp rax, rdi\n"@ + "  setge al\n"@ + "  movzb rax, al\n"@,
    }
}

/// The text of one abstract instruction.
pub open spec fn insn_text(i: Insn) -> Seq<char> {
    match i {
        Insn::Push(v) => "  push "@ + decimal(v as nat) + "\n"@,
        Insn::Apply(op) => "  pop rdi\n"@ + "  pop rax\n"@ + op_text(op) + "  push rax\n"@,
    }
}

/// The text of an instruction sequence.
pub open spec fn insns_text(s: Seq<Insn>) -> Seq<char>
    decreases s.len(),
{
    if s.len() == 0 {
        Seq::empty()
    } else {
        insn_text(s[0]) + insns_text(s.drop_first())
    }
}

/// The whole program: two header directives, the `main` label, the body of
/// the tree's instructions, and the epilogue popping the result into the
/// return register.
pub open spec fn program_text(n: Node) -> Seq<char> {
    ".intel_syntax noprefix\n"@ + ".globl main\n"@ + "main:\n"@ + insns_text(node_insns(n))
        + "  pop rax\n"@ + "  ret\n"@
}

/// Rendering distributes over concatenation of instruction sequences.
proof fn lemma_insns_text_append(a: Seq<Insn>, b: Seq<Insn>)
    ensures
        insns_text(a + b) == insns_text(a) + insns_text(b),
    decreases a.len(),
{
    if a.len() == 0 {
        assert(a + b =~= b);
        assert(insns_text(a) + insns_text(b) =~= insns_text(b));
    } else {
        assert((a + b).drop_first() =~= a.drop_first() + b);
        lemma_insns_text_append(a.drop_first(), b);
        assert((a + b)[0] == a[0]);
        assert(insn_text(a[0]) + (insns_text(a.drop_first()) + insns_text(b)) =~= (insn_text(a[0])
            + insns_text(a.drop_first())) + insns_text(b));
    }
}

/// Appends the decimal numeral of `n` to the output text.
fn push_decimal(out: &mut String, n: u64)
    ensures
        final(out)@ == old(out)@ + decimal(n as nat),
    decreases n,
{
    if n >= 10 {
        push_decimal(out, n / 10);
    }
    let d: u64 = n % 10;
    if d == 0 {
        out.append("0");
    } else if d == 1 {
        out.append("1");
    } else if d == 2 {
        out.append("2");
    } else if d == 3 {
        out.append("3");
    } else if d == 4 {
        out.append("4");
    } else if d == 5 {
        out.append("5");
    } else if d == 6 {
        out.append("6");
    } else if d == 7 {
        out.append("7");
    } else if d == 8 {
        out.append("8");
    } else {
        out.append("9");
    }
    proof {
        if n >= 10 {
            assert(old(out)@ + decimal((n / 10) as nat) + digit_text((n % 10) as nat) =~= old(out)@
                + decimal(n as nat));
        }
    }
}

/// Emits the instructions of one subtree: the text the node contributes to
/// the program body.
#[verifier::rlimit(100)]
fn write_node(buf: &mut String, node: &Node)
    ensures
        final(buf)@ == old(buf)@ + insns_text(node_insns(*node)),
    decreases node,
{
    match node {
        Node::Number(n) => {
            buf.append("  push ");
            push_decimal(buf, *n);
            buf.append("\n");
            proof {
                reveal_with_fuel(insns_text, 2);
                let one = seq![Insn::Push(*n)];
                assert(one.drop_first() =~= Seq::<Insn>::empty());
                assert(insn_text(Insn::Push(*n)) + Seq::<char>::empty() =~= insn_text(
                    Insn::Push(*n),
                ));
                assert(insns_text(one) =~= insn_text(Insn::Push(*n)));
                assert(buf@ =~= old(buf)@ + insns_text(node_insns(*node)));
            }
        },
        Node::Binary { op, lhs, rhs } => {
            write_node(buf, &**lhs);
            write_node(buf, &**rhs);
            buf.append("  pop rdi\n");
            buf.append("  pop rax\n");
            let ghost mid = buf@;
            match op {
                BinOp::Add => {
                    buf.append("  add rax, rdi\n");
                    proof {
                        assert(buf@ =~= mid + op_text(*op));
                    }
                },
                BinOp::Sub => {
                    buf.append("  sub rax, rdi\n");
                    proof {
                        assert(buf@ =~= mid + op_text(*op));
                    }
                },
                BinOp::Mul => {
                    buf.append("  imul rax, rdi\n");
                    proof {
                        assert(buf@ =~= mid + op_text(*op));
                    }
                },
                BinOp::Div => {
                    buf.append("  cqo\n");
                    buf.append("  idiv rdi\n");
                    proof {
                        assert(buf@ =~= mid + op_text(*op));
                    }
                },
                BinOp::Equal => {
                    buf.append("  cmp rax, rdi\n");
                    buf.append("  sete al\n");
                    buf.append("  movzb rax, al\n");
                    proof {
                        assert(buf@ =~= mid + op_text(*op));
                    }
                },
                BinOp::NotEqual => {
                    buf.append("  cmp rax, rdi\n");
                    buf.append("  setne al\n");
                    buf.append("  movzb rax, al\n");
                    proof {
                        assert(buf@ =~= mid + op_text(*op));
                    }
                },
                BinOp::Less => {
                    buf.append("  cmp rax, rdi\n");
                    buf.append("  setl al\n");
                    buf.append("  movzb rax, al\n");
                    proof {
                        assert(buf@ =~= mid + op_text(*op));
                    }
                },
                BinOp::LessEqual => {
                    buf.append("  cmp rax, rdi\n");
                    buf.append("  setle al\n");
                    buf.append("  movzb rax, al\n");
                    proof {
                        assert(buf@ =~= mid + op_text(*op));
                    }
                },
                BinOp::Greater => {
                    buf.append("  cmp rax, rdi\n");
                    buf.append("  setg al\n");
                    buf.append("  movzb rax, al\n");
                    proof {
                        assert(buf@ =~= mid + op_text(*op));
                    }
                },
                BinOp::GreaterEqual => {
                    buf.append("  cmp rax, rdi\n");
                    buf.append("  setge al\n");
                    buf.append("  movzb rax, al\n");
                    proof {
                        assert(buf@ =~= mid + op_text(*op));
                    }
                },
            }
            buf.append("  push rax\n");
            proof {
                reveal_with_fuel(insns_text, 2);
                let l = node_insns(**lhs);
                let r = node_insns(**rhs);
                let last = seq![Insn::Apply(*op)];
                lemma_insns_text_append(l + r, last);
                lemma_insns_text_append(l, r);
                assert(last.drop_first() =~= Seq::<Insn>::empty());
                assert(insn_text(Insn::Apply(*op)) + Seq::<char>::empty() =~= insn_text(
                    Insn::Apply(*op),
                ));
                assert(insns_text(last) =~= insn_text(Insn::Apply(*op)));
                assert(buf@ =~= old(buf)@ + insns_text(node_insns(*node)));
            }
        },
    }
}

/// Generates the whole assembly program of a tree: header, `main` label,
/// the tree's post-order instruction body, and the epilogue returning the
/// value left on the stack.  Pure text generation; it cannot fail.
pub fn generate(node: &Node) -> (r: String)
    ensures
        r@ == program_text(*node),
{
    let mut buf = String::new();
    buf.append(".intel_syntax noprefix\n");
    buf.append(".globl main\n");
    buf.append("main:\n");
    write_node(&mut buf, node);
    buf.append("  pop rax\n");
    buf.append("  ret\n");
    proof {
        assert(buf@ =~= program_text(*node));
    }
    buf
}

} // verus!
