//! Lexical scanning: the input text becomes an ordered sequence of tokens.
//!
//! The scanner walks the characters left to right.  At each position it first
//! tries the two-character operators (`==`, `!=`, `>=`, `<=`), then classifies
//! the single character: whitespace is skipped, a digit starts a maximal run
//! of digits folded into an unsigned 64-bit accumulator with wraparound, and
//! the remaining operator characters each give one token.  Any other
//! character is a lexical error carrying its character offset.
//!
//! The specification-level scanner is `lex_from`; `tokenize` is proved to
//! return exactly its result.

use vstd::prelude::*;
use vstd::std_specs::iter::IteratorSpec;

verus! {

broadcast use vstd::string::axiom_spec_iter, vstd::string::next_postcondition;

/// One lexical token of the expression language.
#[derive(Clone, Copy, Debug, PartialEq, Eq, Structural)]
pub enum Token {
    /// A decimal numeral.
    Number(u64),
    /// `+`
    Plus,
    /// `-`
    Minus,
    /// `*`
    Star,
    /// `/`
    Slash,
    /// `(`
    LParen,
    /// `)`
    RParen,
    /// `==`
    Equal,
    /// `!=`
    NotEqual,
    /// `<`
    Less,
    /// `<=`
    LessEqual,
    /// `>`
    Greater,
    /// `>=`
    GreaterEqual,
}

/// A lexical error: the scanned text together with the character offset of
/// the first unrecognized character, for a caret-style diagnostic.
#[derive(Debug, PartialEq, Eq)]
pub struct LexError {
    pub input: String,
    pub offset: usize,
}

/// The characters the scanner skips.
pub open spec fn is_space_char(c: char) -> bool {
    c == ' ' || c == '\n'
}

/// Decimal digits `0` through `9`.
pub open spec fn is_digit_char(c: char) -> bool {
    48 <= c as u32 && c as u32 <= 57
}

/// The numeric value of a decimal digit.
pub open spec fn digit_value(c: char) -> u64 {
    (c as u32 - 48) as u64
}

/// One step of numeral scanning: append a digit to the accumulator,
/// wrapping per unsigned 64-bit arithmetic.
pub open spec fn push_digit(acc: u64, c: char) -> u64 {
    acc.wrapping_mul(10).wrapping_add(digit_value(c))
}

/// Whether the two characters form one of the two-character operators
/// `==`, `!=`, `>=`, `<=`.
pub open spec fn is_two_char_op(a: char, b: char) -> bool {
    b == '=' && (a == '=' || a == '!' || a == '>' || a == '<')
}

/// The token of a two-character operator; meaningful under `is_two_char_op`.
pub open spec fn two_char_token(a: char) -> Token {
    if a == '=' {
        Token::Equal
    } else if a == '!' {
        Token::NotEqual
    } else if a == '>' {
        Token::GreaterEqual
    } else {
        Token::LessEqual
    }
}

/// Whether the character is one of the single-character operators.
pub open spec fn is_single_char_op(c: char) -> bool {
    c == '+' || c == '-' || c == '*' || c == '/' || c == '(' || c == ')' || c == '>' || c == '<'
}

/// The token of a single-character operator; meaningful under
/// `is_single_char_op`.
pub open spec fn single_char_token(c: char) -> Token {
    if c == '+' {
        Token::Plus
    } else if c == '-' {
        Token::Minus
    } else if c == '*' {
        Token::Star
    } else if c == '/' {
        Token::Slash
    } else if c == '(' {
        Token::LParen
    } else if c == ')' {
        Token::RParen
    } else if c == '>' {
        Token::Greater
    } else {
        Token::Less
    }
}

/// The length of the maximal run of digits starting at `pos`.
pub open spec fn digit_run_len(s: Seq<char>, pos: int) -> nat
    decreases s.len() - pos,
{
    if 0 <= pos < s.len() && is_digit_char(s[pos]) {
        (1 + digit_run_len(s, pos + 1)) as nat
    } else {
        0
    }
}

/// The accumulator after folding the maximal digit run starting at `pos`
/// into `acc`, with 64-bit wraparound.
pub open spec fn number_run_value(s: Seq<char>, pos: int, acc: u64) -> u64
    decreases s.len() - pos,
{
    if 0 <= pos < s.len() && is_digit_char(s[pos]) {
        number_run_value(s, pos + 1, push_digit(acc, s[pos]))
    } else {
        acc
    }
}

/// The exact (unbounded) value of the digit run starting at `pos`, folded
/// into `acc` without wraparound.
pub open spec fn numeral_value_from(s: Seq<char>, pos: int, acc: nat) -> nat
    decreases s.len() - pos,
{
    if 0 <= pos < s.len() && is_digit_char(s[pos]) {
        numeral_value_from(s, pos + 1, (acc * 10 + digit_value(s[pos])) as nat)
    } else {
        acc
    }
}

/// The exact mathematical value of a string of digits.
pub open spec fn numeral_value(s: Seq<char>) -> nat {
    numeral_value_from(s, 0, 0)
}

/// The scanner from position `pos` onward, while inside a run of digits whose
/// accumulated value so far is `acc`.  Emits the `Number` token once the run
/// ends and continues with `lex_from`.
pub open spec fn lex_number(s: Seq<char>, pos: nat, acc: u64) -> Result<Seq<Token>, nat>
    decreases s.len() - pos, 1int,
{
    if pos < s.len() && is_digit_char(s[pos as int]) {
        lex_number(s, (pos + 1) as nat, push_digit(acc, s[pos as int]))
    } else {
        match lex_from(s, pos) {
            Ok(rest) => Ok(seq![Token::Number(acc)] + rest),
            Err(e) => Err(e),
        }
    }
}

/// The scanner from position `pos` onward: the token sequence of the rest of
/// the input, or the offset of the first unrecognized character.
pub open spec fn lex_from(s: Seq<char>, pos: nat) -> Result<Seq<Token>, nat>
    decreases s.len() - pos, 0int,
{
    if pos >= s.len() {
        Ok(Seq::empty())
    } else if pos + 1 < s.len() && is_two_char_op(s[pos as int], s[pos as int + 1]) {
        match lex_from(s, (pos + 2) as nat) {
            Ok(rest) => Ok(seq![two_char_token(s[pos as int])] + rest),
            Err(e) => Err(e),
        }
    } else if is_space_char(s[pos as int]) {
        lex_from(s, (pos + 1) as nat)
    } else if is_digit_char(s[pos as int]) {
        lex_number(s, (pos + 1) as nat, digit_value(s[pos as int]))
    } else if is_single_char_op(s[pos as int]) {
        match lex_from(s, (pos + 1) as nat) {
            Ok(rest) => Ok(seq![single_char_token(s[pos as int])] + rest),
            Err(e) => Err(e),
        }
    } else {
        Err(pos)
    }
}

/// Prepends already-emitted tokens to the outcome of scanning the rest.
pub open spec fn lex_cont(prefix: Seq<Token>, rest: Result<Seq<Token>, nat>) -> Result<
    Seq<Token>,
    nat,
> {
    match rest {
        Ok(tokens) => Ok(prefix + tokens),
        Err(e) => Err(e),
    }
}

proof fn lemma_lex_cont_assoc(pre: Seq<Token>, mid: Seq<Token>, rest: Result<Seq<Token>, nat>)
    ensures
        lex_cont(pre, lex_cont(mid, rest)) == lex_cont(pre + mid, rest),
{
    match rest {
        Ok(tokens) => {
            assert(pre + (mid + tokens) =~= (pre + mid) + tokens);
        },
        Err(_) => {},
    }
}

/// Scanning inside a digit run emits one `Number` token holding the folded
/// run value and resumes after the run.
proof fn lemma_lex_number(s: Seq<char>, pos: nat, acc: u64)
    ensures
        lex_number(s, pos, acc) == lex_cont(
            seq![Token::Number(number_run_value(s, pos as int, acc))],
            lex_from(s, (pos + digit_run_len(s, pos as int)) as nat),
        ),
    decreases s.len() - pos,
{
    if pos < s.len() && is_digit_char(s[pos as int]) {
        lemma_lex_number(s, (pos + 1) as nat, push_digit(acc, s[pos as int]));
    }
}

proof fn lemma_numeral_from_lower_bound(s: Seq<char>, pos: int, acc: nat)
    ensures
        numeral_value_from(s, pos, acc) >= acc,
    decreases s.len() - pos,
{
    if 0 <= pos < s.len() && is_digit_char(s[pos]) {
        lemma_numeral_from_lower_bound(s, pos + 1, (acc * 10 + digit_value(s[pos])) as nat);
    }
}

/// As long as the exact numeral value fits in 64 bits, the wrapping fold
/// agrees with it.
proof fn lemma_run_value_exact(s: Seq<char>, pos: int, acc: u64)
    requires
        numeral_value_from(s, pos, acc as nat) < 0x1_0000_0000_0000_0000,
    ensures
        number_run_value(s, pos, acc) == numeral_value_from(s, pos, acc as nat),
    decreases s.len() - pos,
{
    if 0 <= pos < s.len() && is_digit_char(s[pos]) {
        let d = digit_value(s[pos]);
        let exact: nat = (acc * 10 + d) as nat;
        lemma_numeral_from_lower_bound(s, pos + 1, exact);
        vstd::arithmetic::div_mod::lemma_small_mod(
            (acc as nat) * 10,
            0x1_0000_0000_0000_0000,
        );
        assert(push_digit(acc, s[pos]) == exact as u64);
        lemma_run_value_exact(s, pos + 1, exact as u64);
    }
}

proof fn lemma_full_digit_run(s: Seq<char>, pos: int)
    requires
        0 <= pos <= s.len(),
        forall|i: int| 0 <= i < s.len() ==> is_digit_char(s[i]),
    ensures
        digit_run_len(s, pos) == s.len() - pos,
    decreases s.len() - pos,
{
    if pos < s.len() {
        lemma_full_digit_run(s, pos + 1);
    }
}

/// Law: a non-empty string made only of decimal digits scans to exactly one
/// `Number` token, whose value is the numeral's value and whose digit run
/// covers the whole string — provided that value fits in 64 bits (beyond
/// that, scanning wraps).
pub proof fn lemma_digit_string_scans_to_number(s: Seq<char>)
    requires
        s.len() > 0,
        forall|i: int| 0 <= i < s.len() ==> is_digit_char(s[i]),
        numeral_value(s) < 0x1_0000_0000_0000_0000,
    ensures
        lex_from(s, 0) == Ok::<Seq<Token>, nat>(seq![Token::Number(numeral_value(s) as u64)]),
        digit_run_len(s, 0) == s.len(),
    decreases s.len(),
{
    lemma_full_digit_run(s, 0);
    let c = s[0];
    assert(is_digit_char(c));
    assert(!is_space_char(c) && !is_two_char_op(c, if s.len() > 1 {
        s[1]
    } else {
        c
    }));
    assert(lex_from(s, 0) == lex_number(s, 1, digit_value(c)));
    lemma_lex_number(s, 1, digit_value(c));
    assert(number_run_value(s, 0, 0) == number_run_value(s, 1, push_digit(0, c)));
    assert(push_digit(0, c) == digit_value(c));
    assert(1 + digit_run_len(s, 1) == s.len());
    assert(lex_from(s, s.len() as nat) == Ok::<Seq<Token>, nat>(Seq::empty()));
    lemma_run_value_exact(s, 0, 0);
    assert(seq![Token::Number(number_run_value(s, 0, 0))] + Seq::empty() =~= seq![
        Token::Number(numeral_value(s) as u64),
    ]);
}

fn is_digit_exec(c: char) -> (b: bool)
    ensures
        b == is_digit_char(c),
{
    let u: u32 = c as u32;
    48 <= u && u <= 57
}

fn digit_of(c: char) -> (d: u64)
    requires
        is_digit_char(c),
    ensures
        d == digit_value(c),
{
    (c as u32 - 48) as u64
}

/// The characters of the input, in order.
fn chars_of(s: &str) -> (r: Vec<char>)
    ensures
        r@ == s@,
{
    let mut it = s.chars();
    let mut v: Vec<char> = Vec::new();
    loop
        invariant
            v@ + it.remaining() == s@,
            it.decrease() is Some,
        decreases it.decrease()->0,
    {
        match it.next() {
            Some(c) => {
                v.push(c);
                proof {
                    assert(v@ + it.remaining() =~= s@);
                }
            },
            None => {
                proof {
                    assert(v@ =~= s@);
                }
                return v;
            },
        }
    }
}

/// Scans the maximal digit run starting at `start`, returning the folded
/// value and the number of digits consumed.
fn scan_number(s: &Vec<char>, start: usize) -> (r: (u64, usize))
    requires
        start < s@.len(),
        is_digit_char(s@[start as int]),
    ensures
        r.1 == digit_run_len(s@, start as int),
        r.0 == number_run_value(s@, start as int, 0),
        1 <= r.1 && start + r.1 <= s@.len(),
{
    let mut n: u64 = 0;
    let mut i: usize = start;
    while i < s.len() && is_digit_exec(s[i])
        invariant
            start <= i <= s@.len(),
            digit_run_len(s@, start as int) == i - start + digit_run_len(s@, i as int),
            number_run_value(s@, start as int, 0) == number_run_value(s@, i as int, n),
        decreases s@.len() - i,
    {
        let d: u64 = digit_of(s[i]);
        n = n.wrapping_mul(10).wrapping_add(d);
        i = i + 1;
    }
    (n, i - start)
}

/// Reads a numeral from the head of the text: its value (with 64-bit
/// wraparound) and the count of digits consumed.  Fails when the text does
/// not start with a digit.
pub fn read_number(s: &str) -> (r: Result<(u64, usize), LexError>)
    ensures
        match r {
            Ok((n, cnt)) => s@.len() > 0 && is_digit_char(s@[0]) && n == number_run_value(s@, 0, 0)
                && cnt == digit_run_len(s@, 0) && 1 <= cnt <= s@.len(),
            Err(e) => (s@.len() == 0 || !is_digit_char(s@[0])) && e.offset == 0 && e.input@ == s@,
        },
{
    let cs = chars_of(s);
    if cs.len() == 0 {
        return Err(LexError { input: s.to_owned(), offset: 0 });
    }
    if !is_digit_exec(cs[0]) {
        return Err(LexError { input: s.to_owned(), offset: 0 });
    }
    Ok(scan_number(&cs, 0))
}

/// Scans the whole input into its token sequence, or reports the offset of
/// the first unrecognized character.  The result is exactly what the
/// specification-level scanner `lex_from` yields on the input's characters.
pub fn tokenize(input: &str) -> (r: Result<Vec<Token>, LexError>)
    ensures
        match r {
            Ok(tokens) => lex_from(input@, 0) == Ok::<Seq<Token>, nat>(tokens@),
            Err(e) => lex_from(input@, 0) == Err::<Seq<Token>, nat>(e.offset as nat) && e.input@
                == input@ && e.offset < input@.len(),
        },
{
    let s = chars_of(input);
    let mut tokens: Vec<Token> = Vec::new();
    let mut i: usize = 0;
    loop
        invariant
            i <= s@.len(),
            s@ == input@,
            lex_from(input@, 0) == lex_cont(tokens@, lex_from(input@, i as nat)),
        decreases s@.len() - i,
    {
        if i >= s.len() {
            return Ok(tokens);
        }
        let c: char = s[i];
        if i + 1 < s.len() && s[i + 1] == '=' && (c == '=' || c == '!' || c == '>' || c == '<') {
            let t = if c == '=' {
                Token::Equal
            } else if c == '!' {
                Token::NotEqual
            } else if c == '>' {
                Token::GreaterEqual
            } else {
                Token::LessEqual
            };
            proof {
                assert(lex_from(s@, i as nat) == lex_cont(
                    seq![t],
                    lex_from(s@, (i + 2) as nat),
                ));
                lemma_lex_cont_assoc(tokens@, seq![t], lex_from(s@, (i + 2) as nat));
                assert(tokens@ + seq![t] =~= tokens@.push(t));
            }
            tokens.push(t);
            i = i + 2;
        } else if c == ' ' || c == '\n' {
            i = i + 1;
        } else if is_digit_exec(c) {
            let (n, cnt) = scan_number(&s, i);
            let t = Token::Number(n);
            proof {
                lemma_lex_number(s@, (i + 1) as nat, digit_value(s@[i as int]));
                assert(number_run_value(s@, i as int, 0) == number_run_value(
                    s@,
                    i as int + 1,
                    push_digit(0, s@[i as int]),
                ));
                assert(push_digit(0, s@[i as int]) == digit_value(s@[i as int]));
                assert(lex_from(s@, i as nat) == lex_cont(
                    seq![t],
                    lex_from(s@, (i + cnt) as nat),
                ));
                lemma_lex_cont_assoc(tokens@, seq![t], lex_from(s@, (i + cnt) as nat));
                assert(tokens@ + seq![t] =~= tokens@.push(t));
            }
            tokens.push(t);
            i = i + cnt;
        } else if c == '+' || c == '-' || c == '*' || c == '/' || c == '(' || c == ')' || c == '>'
            || c == '<' {
            let t = if c == '+' {
                Token::Plus
            } else if c == '-' {
                Token::Minus
            } else if c == '*' {
                Token::Star
            } else if c == '/' {
                Token::Slash
            } else if c == '(' {
                Token::LParen
            } else if c == ')' {
                Token::RParen
            } else if c == '>' {
                Token::Greater
            } else {
                Token::Less
            };
            proof {
                assert(lex_from(s@, i as nat) == lex_cont(
                    seq![t],
                    lex_from(s@, (i + 1) as nat),
                ));
                lemma_lex_cont_assoc(tokens@, seq![t], lex_from(s@, (i + 1) as nat));
                assert(tokens@ + seq![t] =~= tokens@.push(t));
            }
            tokens.push(t);
            i = i + 1;
        } else {
            return Err(LexError { input: input.to_owned(), offset: i });
        }
    }
}

} // verus!
