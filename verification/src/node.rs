//! Recursive-descent parsing: the token sequence becomes one abstract syntax
//! tree, or a syntax error.
//!
//! Grammar, from loosest to tightest binding, every binary operator
//! left-associative:
//!
//! ```text
//! expr           := equality
//! equality       := relational (('==' | '!=') relational)*
//! relational     := additive (('<' | '<=' | '>' | '>=') additive)*
//! additive       := multiplicative (('+' | '-') multiplicative)*
//! multiplicative := unary (('*' | '/') unary)*
//! unary          := ('+' | '-')? unary | primary
//! primary        := NUMBER | '(' expr ')'
//! ```
//!
//! Left-associativity is realized by folding: each level parses one
//! sub-expression, then repeatedly consumes a matching operator and folds a
//! new binary node with the node built so far as the left child.  Unary `+`
//! is discarded; unary `-` desugars to `0 - operand`.
//!
//! The specification-level parser is the family of `spec_*` functions below;
//! each executable function is proved to return exactly its result.  As in
//! the grammar, the parser consumes a prefix of the token sequence and does
//! not demand that the cursor be exhausted: trailing tokens after a complete
//! expression are ignored.

use vstd::prelude::*;

use crate::token::Token;

verus! {

/// The operator of a binary syntax-tree node.
#[derive(Clone, Copy, Debug, PartialEq, Eq, Structural)]
pub enum BinOp {
    Add,
    Sub,
    Mul,
    Div,
    Equal,
    NotEqual,
    Less,
    LessEqual,
    Greater,
    GreaterEqual,
}

/// One node of the abstract syntax tree: a numeric leaf, or a binary
/// operation owning its two children.  A well-formed tree is finite, its
/// leaves are numbers, and every internal node has exactly two children —
/// the type admits nothing else.
#[derive(Debug, PartialEq, Eq)]
pub enum Node {
    Number(u64),
    Binary { op: BinOp, lhs: Box<Node>, rhs: Box<Node> },
}

/// A syntax error.
#[derive(Clone, Copy, Debug, PartialEq, Eq, Structural)]
pub enum ParseError {
    /// A parenthesized sub-expression is not closed by `)`.
    UnterminatedParenthesis,
    /// The token at a primary position is neither a number nor `(`.
    ExpectedPrimary,
}

/// `primary := NUMBER | '(' expr ')'`
pub open spec fn spec_primary(s: Seq<Token>, pos: nat) -> Result<(Node, nat), ParseError>
    decreases s.len() - pos, 0int,
{
    if pos < s.len() {
        match s[pos as int] {
            Token::Number(n) => Ok((Node::Number(n), (pos + 1) as nat)),
            Token::LParen => match spec_expr(s, (pos + 1) as nat) {
                Ok((node, p)) => if p < s.len() && s[p as int] is RParen {
                    Ok((node, (p + 1) as nat))
                } else {
                    Err(ParseError::UnterminatedParenthesis)
                },
                Err(e) => Err(e),
            },
            _ => Err(ParseError::ExpectedPrimary),
        }
    } else {
        Err(ParseError::ExpectedPrimary)
    }
}

/// `unary := ('+' | '-')? unary | primary`; `+` is a no-op, `-` desugars to
/// `0 - operand`.
pub open spec fn spec_unary(s: Seq<Token>, pos: nat) -> Result<(Node, nat), ParseError>
    decreases s.len() - pos, 1int,
{
    if pos < s.len() && s[pos as int] is Plus {
        spec_unary(s, (pos + 1) as nat)
    } else if pos < s.len() && s[pos as int] is Minus {
        match spec_unary(s, (pos + 1) as nat) {
            Ok((rhs, p)) => Ok(
                (
                    Node::Binary {
                        op: BinOp::Sub,
                        lhs: Box::new(Node::Number(0)),
                        rhs: Box::new(rhs),
                    },
                    p,
                ),
            ),
            Err(e) => Err(e),
        }
    } else {
        spec_primary(s, pos)
    }
}

/// `multiplicative := unary (('*' | '/') unary)*`
pub open spec fn spec_multiplicative(s: Seq<Token>, pos: nat) -> Result<(Node, nat), ParseError>
    decreases s.len() - pos, 2int,
{
    match spec_unary(s, pos) {
        Ok((node, p)) => if pos < p <= s.len() {
            spec_multiplicative_rest(s, p, node)
        } else {
            // A successful sub-parse always advances the cursor and stays
            // within the sequence; this branch only bounds the recursion.
            Err(ParseError::ExpectedPrimary)
        },
        Err(e) => Err(e),
    }
}

/// The fold of `multiplicative`: with `lhs` built so far, consume
/// `('*' | '/') unary` as long as one matches.
pub open spec fn spec_multiplicative_rest(s: Seq<Token>, pos: nat, lhs: Node) -> Result<
    (Node, nat),
    ParseError,
>
    decreases s.len() - pos, 3int,
{
    if pos < s.len() && (s[pos as int] is Star || s[pos as int] is Slash) {
        let op = if s[pos as int] is Star {
            BinOp::Mul
        } else {
            BinOp::Div
        };
        match spec_unary(s, (pos + 1) as nat) {
            Ok((rhs, p)) => if pos < p <= s.len() {
                spec_multiplicative_rest(
                    s,
                    p,
                    Node::Binary { op, lhs: Box::new(lhs), rhs: Box::new(rhs) },
                )
            } else {
                Err(ParseError::ExpectedPrimary)
            },
            Err(e) => Err(e),
        }
    } else {
        Ok((lhs, pos))
    }
}

/// `additive := multiplicative (('+' | '-') multiplicative)*`
pub open spec fn spec_additive(s: Seq<Token>, pos: nat) -> Result<(Node, nat), ParseError>
    decreases s.len() - pos, 4int,
{
    match spec_multiplicative(s, pos) {
        Ok((node, p)) => if pos < p <= s.len() {
            spec_additive_rest(s, p, node)
        } else {
            Err(ParseError::ExpectedPrimary)
        },
        Err(e) => Err(e),
    }
}

/// The fold of `additive`.
pub open spec fn spec_additive_rest(s: Seq<Token>, pos: nat, lhs: Node) -> Result<
    (Node, nat),
    ParseError,
>
    decreases s.len() - pos, 5int,
{
    if pos < s.len() && (s[pos as int] is Plus || s[pos as int] is Minus) {
        let op = if s[pos as int] is Plus {
            BinOp::Add
        } else {
            BinOp::Sub
        };
        match spec_multiplicative(s, (pos + 1) as nat) {
            Ok((rhs, p)) => if pos < p <= s.len() {
                spec_additive_rest(s, p, Node::Binary { op, lhs: Box::new(lhs), rhs: Box::new(rhs) })
            } else {
                Err(ParseError::ExpectedPrimary)
            },
            Err(e) => Err(e),
        }
    } else {
        Ok((lhs, pos))
    }
}

/// `relational := additive (('<' | '<=' | '>' | '>=') additive)*`
pub open spec fn spec_relational(s: Seq<Token>, pos: nat) -> Result<(Node, nat), ParseError>
    decreases s.len() - pos, 6int,
{
    match spec_additive(s, pos) {
        Ok((node, p)) => if pos < p <= s.len() {
            spec_relational_rest(s, p, node)
        } else {
            Err(ParseError::ExpectedPrimary)
        },
        Err(e) => Err(e),
    }
}

/// The fold of `relational`.
pub open spec fn spec_relational_rest(s: Seq<Token>, pos: nat, lhs: Node) -> Result<
    (Node, nat),
    ParseError,
>
    decreases s.len() - pos, 7int,
{
    if pos < s.len() && (s[pos as int] is Less || s[pos as int] is LessEqual || s[pos as int]
        is Greater || s[pos as int] is GreaterEqual) {
        let op = if s[pos as int] is Less {
            BinOp::Less
        } else if s[pos as int] is LessEqual {
            BinOp::LessEqual
        } else if s[pos as int] is Greater {
            BinOp::Greater
        } else {
            BinOp::GreaterEqual
        };
        match spec_additive(s, (pos + 1) as nat) {
            Ok((rhs, p)) => if pos < p <= s.len() {
                spec_relational_rest(
                    s,
                    p,
                    Node::Binary { op, lhs: Box::new(lhs), rhs: Box::new(rhs) },
                )
            } else {
                Err(ParseError::ExpectedPrimary)
            },
            Err(e) => Err(e),
        }
    } else {
        Ok((lhs, pos))
    }
}

/// `equality := relational (('==' | '!=') relational)*`
pub open spec fn spec_equality(s: Seq<Token>, pos: nat) -> Result<(Node, nat), ParseError>
    decreases s.len() - pos, 8int,
{
    match spec_relational(s, pos) {
        Ok((node, p)) => if pos < p <= s.len() {
            spec_equality_rest(s, p, node)
        } else {
            Err(ParseError::ExpectedPrimary)
        },
        Err(e) => Err(e),
    }
}

/// The fold of `equality`.
pub open spec fn spec_equality_rest(s: Seq<Token>, pos: nat, lhs: Node) -> Result<
    (Node, nat),
    ParseError,
>
    decreases s.len() - pos, 9int,
{
    if pos < s.len() && (s[pos as int] is Equal || s[pos as int] is NotEqual) {
        let op = if s[pos as int] is Equal {
            BinOp::Equal
        } else {
            BinOp::NotEqual
        };
        match spec_relational(s, (pos + 1) as nat) {
            Ok((rhs, p)) => if pos < p <= s.len() {
                spec_equality_rest(s, p, Node::Binary { op, lhs: Box::new(lhs), rhs: Box::new(rhs) })
            } else {
                Err(ParseError::ExpectedPrimary)
            },
            Err(e) => Err(e),
        }
    } else {
        Ok((lhs, pos))
    }
}

/// `expr := equality`
pub open spec fn spec_expr(s: Seq<Token>, pos: nat) -> Result<(Node, nat), ParseError>
    decreases s.len() - pos, 10int,
{
    spec_equality(s, pos)
}

/// The tree parsed from a token sequence: the result of `spec_expr` at the
/// start, with the final cursor dropped.
pub open spec fn spec_parse(s: Seq<Token>) -> Result<Node, ParseError> {
    match spec_expr(s, 0) {
        Ok((node, _)) => Ok(node),
        Err(e) => Err(e),
    }
}

fn primary(tokens: &[Token], pos: usize) -> (r: Result<(Node, usize), ParseError>)
    requires
        pos <= tokens@.len(),
    ensures
        match r {
            Ok((node, p)) => spec_primary(tokens@, pos as nat) == Ok::<(Node, nat), ParseError>(
                (node, p as nat),
            ) && pos < p <= tokens@.len(),
            Err(e) => spec_primary(tokens@, pos as nat) == Err::<(Node, nat), ParseError>(e),
        },
    decreases tokens@.len() - pos, 0int,
{
    if pos < tokens.len() {
        match tokens[pos] {
            Token::Number(n) => Ok((Node::Number(n), pos + 1)),
            Token::LParen => match expr(tokens, pos + 1) {
                Ok((node, p)) => {
                    if p < tokens.len() {
                        match tokens[p] {
                            Token::RParen => Ok((node, p + 1)),
                            _ => Err(ParseError::UnterminatedParenthesis),
                        }
                    } else {
                        Err(ParseError::UnterminatedParenthesis)
                    }
                },
                Err(e) => Err(e),
            },
            _ => Err(ParseError::ExpectedPrimary),
        }
    } else {
        Err(ParseError::ExpectedPrimary)
    }
}

fn unary(tokens: &[Token], pos: usize) -> (r: Result<(Node, usize), ParseError>)
    requires
        pos <= tokens@.len(),
    ensures
        match r {
            Ok((node, p)) => spec_unary(tokens@, pos as nat) == Ok::<(Node, nat), ParseError>(
                (node, p as nat),
            ) && pos < p <= tokens@.len(),
            Err(e) => spec_unary(tokens@, pos as nat) == Err::<(Node, nat), ParseError>(e),
        },
    decreases tokens@.len() - pos, 1int,
{
    if pos < tokens.len() {
        match tokens[pos] {
            Token::Plus => {
                return unary(tokens, pos + 1);
            },
            Token::Minus => {
                return match unary(tokens, pos + 1) {
                    Ok((rhs, p)) => Ok(
                        (
                            Node::Binary {
                                op: BinOp::Sub,
                                lhs: Box::new(Node::Number(0)),
                                rhs: Box::new(rhs),
                            },
                            p,
                        ),
                    ),
                    Err(e) => Err(e),
                };
            },
            _ => {},
        }
    }
    primary(tokens, pos)
}

#[verifier::loop_isolation(false)]
fn multiplicative(tokens: &[Token], pos: usize) -> (r: Result<(Node, usize), ParseError>)
    requires
        pos <= tokens@.len(),
    ensures
        match r {
            Ok((node, p)) => spec_multiplicative(tokens@, pos as nat) == Ok::<(Node, nat), ParseError>(
                (node, p as nat),
            ) && pos < p <= tokens@.len(),
            Err(e) => spec_multiplicative(tokens@, pos as nat) == Err::<(Node, nat), ParseError>(e),
        },
    decreases tokens@.len() - pos, 2int,
{
    let mut node: Node;
    let mut p: usize;
    match unary(tokens, pos) {
        Ok((n0, p0)) => {
            node = n0;
            p = p0;
        },
        Err(e) => {
            return Err(e);
        },
    }
    loop
        invariant
            pos < p <= tokens@.len(),
            spec_multiplicative(tokens@, pos as nat) == spec_multiplicative_rest(tokens@, p as nat, node),
        decreases tokens@.len() - p,
    {
        if p < tokens.len() {
            match tokens[p] {
                Token::Star => match unary(tokens, p + 1) {
                    Ok((rhs, p2)) => {
                        node = Node::Binary {
                            op: BinOp::Mul,
                            lhs: Box::new(node),
                            rhs: Box::new(rhs),
                        };
                        p = p2;
                    },
                    Err(e) => {
                        return Err(e);
                    },
                },
                Token::Slash => match unary(tokens, p + 1) {
                    Ok((rhs, p2)) => {
                        node = Node::Binary {
                            op: BinOp::Div,
                            lhs: Box::new(node),
                            rhs: Box::new(rhs),
                        };
                        p = p2;
                    },
                    Err(e) => {
                        return Err(e);
                    },
                },
                _ => {
                    return Ok((node, p));
                },
            }
        } else {
            return Ok((node, p));
        }
    }
}

#[verifier::loop_isolation(false)]
fn additive(tokens: &[Token], pos: usize) -> (r: Result<(Node, usize), ParseError>)
    requires
        pos <= tokens@.len(),
    ensures
        match r {
            Ok((node, p)) => spec_additive(tokens@, pos as nat) == Ok::<(Node, nat), ParseError>(
                (node, p as nat),
            ) && pos < p <= tokens@.len(),
            Err(e) => spec_additive(tokens@, pos as nat) == Err::<(Node, nat), ParseError>(e),
        },
    decreases tokens@.len() - pos, 4int,
{
    let mut node: Node;
    let mut p: usize;
    match multiplicative(tokens, pos) {
        Ok((n0, p0)) => {
            node = n0;
            p = p0;
        },
        Err(e) => {
            return Err(e);
        },
    }
    loop
        invariant
            pos < p <= tokens@.len(),
            spec_additive(tokens@, pos as nat) == spec_additive_rest(tokens@, p as nat, node),
        decreases tokens@.len() - p,
    {
        if p < tokens.len() {
            match tokens[p] {
                Token::Plus => match multiplicative(tokens, p + 1) {
                    Ok((rhs, p2)) => {
                        node = Node::Binary {
                            op: BinOp::Add,
                            lhs: Box::new(node),
                            rhs: Box::new(rhs),
                        };
                        p = p2;
                    },
                    Err(e) => {
                        return Err(e);
                    },
                },
                Token::Minus => match multiplicative(tokens, p + 1) {
                    Ok((rhs, p2)) => {
                        node = Node::Binary {
                            op: BinOp::Sub,
                            lhs: Box::new(node),
                            rhs: Box::new(rhs),
                        };
                        p = p2;
                    },
                    Err(e) => {
                        return Err(e);
                    },
                },
                _ => {
                    return Ok((node, p));
                },
            }
        } else {
            return Ok((node, p));
        }
    }
}

#[verifier::loop_isolation(false)]
fn relational(tokens: &[Token], pos: usize) -> (r: Result<(Node, usize), ParseError>)
    requires
        pos <= tokens@.len(),
    ensures
        match r {
            Ok((node, p)) => spec_relational(tokens@, pos as nat) == Ok::<(Node, nat), ParseError>(
                (node, p as nat),
            ) && pos < p <= tokens@.len(),
            Err(e) => spec_relational(tokens@, pos as nat) == Err::<(Node, nat), ParseError>(e),
        },
    decreases tokens@.len() - pos, 6int,
{
    let mut node: Node;
    let mut p: usize;
    match additive(tokens, pos) {
        Ok((n0, p0)) => {
            node = n0;
            p = p0;
        },
        Err(e) => {
            return Err(e);
        },
    }
    loop
        invariant
            pos < p <= tokens@.len(),
            spec_relational(tokens@, pos as nat) == spec_relational_rest(tokens@, p as nat, node),
        decreases tokens@.len() - p,
    {
        if p < tokens.len() {
            match tokens[p] {
                Token::Less => match additive(tokens, p + 1) {
                    Ok((rhs, p2)) => {
                        node = Node::Binary {
                            op: BinOp::Less,
                            lhs: Box::new(node),
                            rhs: Box::new(rhs),
                        };
                        p = p2;
                    },
                    Err(e) => {
                        return Err(e);
                    },
                },
                Token::LessEqual => match additive(tokens, p + 1) {
                    Ok((rhs, p2)) => {
                        node = Node::Binary {
                            op: BinOp::LessEqual,
                            lhs: Box::new(node),
                            rhs: Box::new(rhs),
                        };
                        p = p2;
                    },
                    Err(e) => {
                        return Err(e);
                    },
                },
                Token::Greater => match additive(tokens, p + 1) {
                    Ok((rhs, p2)) => {
                        node = Node::Binary {
                            op: BinOp::Greater,
                            lhs: Box::new(node),
                            rhs: Box::new(rhs),
                        };
                        p = p2;
                    },
                    Err(e) => {
                        return Err(e);
                    },
                },
                Token::GreaterEqual => match additive(tokens, p + 1) {
                    Ok((rhs, p2)) => {
                        node = Node::Binary {
                            op: BinOp::GreaterEqual,
                            lhs: Box::new(node),
                            rhs: Box::new(rhs),
                        };
                        p = p2;
                    },
                    Err(e) => {
                        return Err(e);
                    },
                },
                _ => {
                    return Ok((node, p));
                },
            }
        } else {
            return Ok((node, p));
        }
    }
}

#[verifier::loop_isolation(false)]
fn equality(tokens: &[Token], pos: usize) -> (r: Result<(Node, usize), ParseError>)
    requires
        pos <= tokens@.len(),
    ensures
        match r {
            Ok((node, p)) => spec_equality(tokens@, pos as nat) == Ok::<(Node, nat), ParseError>(
                (node, p as nat),
            ) && pos < p <= tokens@.len(),
            Err(e) => spec_equality(tokens@, pos as nat) == Err::<(Node, nat), ParseError>(e),
        },
    decreases tokens@.len() - pos, 8int,
{
    let mut node: Node;
    let mut p: usize;
    match relational(tokens, pos) {
        Ok((n0, p0)) => {
            node = n0;
            p = p0;
        },
        Err(e) => {
            return Err(e);
        },
    }
    loop
        invariant
            pos < p <= tokens@.len(),
            spec_equality(tokens@, pos as nat) == spec_equality_rest(tokens@, p as nat, node),
        decreases tokens@.len() - p,
    {
        if p < tokens.len() {
            match tokens[p] {
                Token::Equal => match relational(tokens, p + 1) {
                    Ok((rhs, p2)) => {
                        node = Node::Binary {
                            op: BinOp::Equal,
                            lhs: Box::new(node),
                            rhs: Box::new(rhs),
                        };
                        p = p2;
                    },
                    Err(e) => {
                        return Err(e);
                    },
                },
                Token::NotEqual => match relational(tokens, p + 1) {
                    Ok((rhs, p2)) => {
                        node = Node::Binary {
                            op: BinOp::NotEqual,
                            lhs: Box::new(node),
                            rhs: Box::new(rhs),
                        };
                        p = p2;
                    },
                    Err(e) => {
                        return Err(e);
                    },
                },
                _ => {
                    return Ok((node, p));
                },
            }
        } else {
            return Ok((node, p));
        }
    }
}

fn expr(tokens: &[Token], pos: usize) -> (r: Result<(Node, usize), ParseError>)
    requires
        pos <= tokens@.len(),
    ensures
        match r {
            Ok((node, p)) => spec_expr(tokens@, pos as nat) == Ok::<(Node, nat), ParseError>(
                (node, p as nat),
            ) && pos < p <= tokens@.len(),
            Err(e) => spec_expr(tokens@, pos as nat) == Err::<(Node, nat), ParseError>(e),
        },
    decreases tokens@.len() - pos, 10int,
{
    equality(tokens, pos)
}

/// Parses one expression from the front of the token sequence, returning its
/// syntax tree.  The result is exactly what the specification-level parser
/// `spec_parse` yields; tokens left over after the expression are ignored,
/// as the grammar consumes only a prefix.
pub fn parse(tokens: &[Token]) -> (r: Result<Node, ParseError>)
    ensures
        match r {
            Ok(node) => spec_parse(tokens@) == Ok::<Node, ParseError>(node),
            Err(e) => spec_parse(tokens@) == Err::<Node, ParseError>(e),
        },
{
    match expr(tokens, 0) {
        Ok((node, _)) => Ok(node),
        Err(e) => Err(e),
    }
}



} // verus!
