//! The grammar as spec functions over a character sequence: each production,
//! given the input and a position, gives the node it recognises there and the
//! position after it, or why it does not match.

use vstd::prelude::*;
use crate::ast::Ast;

verus! {

/// Why a production gave no node.
#[derive(Debug, Clone, Copy, PartialEq, Eq, Structural)]
pub enum ParseError {
    /// The input does not start with this production; another may be tried.
    NoMatch,
    /// A run of digits whose value does not fit in `i32`; the whole parse fails.
    BadNumber,
    /// Text after the last top-level item that is not blanks or `;`, such as
    /// an unclosed brace or parenthesis; the whole parse fails.
    TrailingInput,
}

/// The characters that a run of one kind may hold.
#[derive(Debug, Clone, Copy, PartialEq, Eq, Structural)]
pub enum CharClass {
    Space,
    Blank,
    AlphaNum,
    Digit,
    NotQuote,
    Separator,
}

pub type PRes = Result<(Ast, int), ParseError>;

pub type LRes = Result<(Seq<Ast>, int), ParseError>;

pub open spec fn in_class(c: char, k: CharClass) -> bool {
    match k {
        CharClass::Space => c == ' ',
        CharClass::Blank => c == ' ' || c == '\t' || c == '\n',
        CharClass::AlphaNum => ('a' <= c && c <= 'z') || ('A' <= c && c <= 'Z') || ('0' <= c && c
            <= '9'),
        CharClass::Digit => '0' <= c && c <= '9',
        CharClass::NotQuote => c != '"',
        CharClass::Separator => c == ' ' || c == '\t' || c == '\n' || c == ';',
    }
}

/// The end of the longest run of class `k` that starts at `p`.
pub open spec fn span_end(s: Seq<char>, p: int, k: CharClass) -> int
    decreases s.len() - p,
{
    if 0 <= p < s.len() && in_class(s[p], k) {
        span_end(s, p + 1, k)
    } else {
        p
    }
}

/// Whether `t` occurs in `s` at `p`.
pub open spec fn has_tag(s: Seq<char>, p: int, t: Seq<char>) -> bool {
    0 <= p && p + t.len() <= s.len() && s.subrange(p, p + t.len()) == t
}

/// Whether `s` holds `c` at `p`.
pub open spec fn char_at(s: Seq<char>, p: int, c: char) -> bool {
    0 <= p < s.len() && s[p] == c
}

/// The value of a run of decimal digits.
pub open spec fn decimal(x: Seq<char>) -> int
    decreases x.len(),
{
    if x.len() == 0 {
        0
    } else {
        10 * decimal(x.drop_last()) + (x.last() as int - '0' as int)
    }
}

/// The first alternative that matches, or the first fatal failure.
pub open spec fn or_else<T>(a: Result<T, ParseError>, b: Result<T, ParseError>) -> Result<T, ParseError> {
    if a == Err::<T, ParseError>(ParseError::NoMatch) {
        b
    } else {
        a
    }
}

pub open spec fn identifier(s: Seq<char>, p: int) -> PRes {
    let a = span_end(s, p, CharClass::Space);
    let b = span_end(s, a, CharClass::AlphaNum);
    if p <= a < b <= s.len() {
        Ok((Ast::Identifier(s.subrange(a, b)), b))
    } else {
        Err(ParseError::NoMatch)
    }
}

pub open spec fn number(s: Seq<char>, p: int) -> PRes {
    let b = span_end(s, p, CharClass::Digit);
    if 0 <= p < b <= s.len() {
        let v = decimal(s.subrange(p, b));
        if v <= i32::MAX {
            Ok((Ast::Number(v as i32), b))
        } else {
            Err(ParseError::BadNumber)
        }
    } else {
        Err(ParseError::NoMatch)
    }
}

pub open spec fn boolean(s: Seq<char>, p: int) -> PRes {
    if has_tag(s, p, seq!['t', 'r', 'u', 'e']) {
        Ok((Ast::Bool(true), p + 4))
    } else if has_tag(s, p, seq!['f', 'a', 'l', 's', 'e']) {
        Ok((Ast::Bool(false), p + 5))
    } else {
        Err(ParseError::NoMatch)
    }
}

pub open spec fn string(s: Seq<char>, p: int) -> PRes {
    let b = span_end(s, p + 1, CharClass::NotQuote);
    if char_at(s, p, '"') && p + 1 < b && char_at(s, b, '"') {
        Ok((Ast::Str(s.subrange(p + 1, b)), b + 1))
    } else {
        Err(ParseError::NoMatch)
    }
}

/// The operators of precedence level `lv`: 1 adds, 2 multiplies, 3 raises.
pub open spec fn is_op(c: char, lv: nat) -> bool {
    if lv == 1 {
        c == '+' || c == '-'
    } else if lv == 2 {
        c == '*' || c == '/'
    } else {
        lv == 3 && c == '^'
    }
}

pub open spec fn infix_op(n: Ast) -> Seq<char> {
    match n {
        Ast::MathExpression(op, _) => op,
        _ => Seq::empty(),
    }
}

pub open spec fn infix_arg(n: Ast) -> Ast {
    match n {
        Ast::MathExpression(_, ch) => if ch.len() > 0 {
            ch.last()
        } else {
            n
        },
        _ => n,
    }
}

/// The tree of a head operand followed by operator and operand pairs, each
/// pair holding the rest to its right: `a - b - c` is `a - (b - c)`.
pub open spec fn chain(head: Ast, tail: Seq<Ast>) -> Ast
    decreases tail.len(),
{
    if tail.len() == 0 {
        head
    } else {
        Ast::MathExpression(
            infix_op(tail[0]),
            seq![head, chain(infix_arg(tail[0]), tail.subrange(1, tail.len() as int))],
        )
    }
}

pub open spec fn level_rank(lv: nat) -> int {
    if lv >= 4 {
        2
    } else {
        6 - lv
    }
}

/// An arithmetic expression of precedence level `lv` (1 to 3), or an operand
/// (4): a call, a number, an identifier or a parenthesised expression.
pub open spec fn level(s: Seq<char>, p: int, lv: nat) -> PRes
    decreases s.len() - p, level_rank(lv),
{
    if lv >= 4 {
        or_else(
            function_call(s, p),
            or_else(number(s, p), or_else(identifier(s, p), parenthetical_expression(s, p))),
        )
    } else {
        match level(s, p, lv + 1) {
            Err(e) => Err(e),
            Ok((h, q)) => if p < q <= s.len() {
                match level_tail(s, q, lv, Seq::empty()) {
                    Err(e) => Err(e),
                    Ok((t, r)) => Ok((chain(h, t), r)),
                }
            } else {
                Err(ParseError::NoMatch)
            },
        }
    }
}

/// An operator of level `lv` and its operand, as a one-child math node.
pub open spec fn infix(s: Seq<char>, p: int, lv: nat) -> PRes
    decreases s.len() - p, 1int,
{
    let a = span_end(s, p, CharClass::Space);
    let b = span_end(s, a + 1, CharClass::Space);
    if p <= a && 0 <= a < s.len() && is_op(s[a], lv) && a + 1 <= b <= s.len() && lv < 4 {
        match level(s, b, lv + 1) {
            Err(e) => Err(e),
            Ok((x, q)) => Ok((Ast::MathExpression(seq![s[a]], seq![x]), q)),
        }
    } else {
        Err(ParseError::NoMatch)
    }
}

/// The operator and operand pairs of level `lv` from `p` on, after `acc`.
pub open spec fn level_tail(s: Seq<char>, p: int, lv: nat, acc: Seq<Ast>) -> LRes
    decreases s.len() - p, 2int,
{
    match infix(s, p, lv) {
        Err(ParseError::NoMatch) => Ok((acc, p)),
        Err(e) => Err(e),
        Ok((n, q)) => if p < q <= s.len() {
            level_tail(s, q, lv, acc.push(n))
        } else {
            Ok((acc, p))
        },
    }
}

pub open spec fn parenthetical_expression(s: Seq<char>, p: int) -> PRes
    decreases s.len() - p, 1int,
{
    if char_at(s, p, '(') && p + 1 <= s.len() {
        match level(s, p + 1, 1) {
            Err(e) => Err(e),
            Ok((x, q)) => if char_at(s, q, ')') {
                Ok((x, q + 1))
            } else {
                Err(ParseError::NoMatch)
            },
        }
    } else {
        Err(ParseError::NoMatch)
    }
}

pub open spec fn function_call(s: Seq<char>, p: int) -> PRes
    decreases s.len() - p, 1int,
{
    let a = span_end(s, p, CharClass::AlphaNum);
    if 0 <= p < a && char_at(s, a, '(') {
        match expression_list(s, a + 1) {
            Err(e) => Err(e),
            Ok((args, q)) => if char_at(s, q, ')') {
                Ok((Ast::FunctionCall(s.subrange(p, a), seq![Ast::FunctionArguments(args)]), q + 1))
            } else {
                Err(ParseError::NoMatch)
            },
        }
    } else {
        Err(ParseError::NoMatch)
    }
}

/// Expressions separated by commas; none at all is an empty list.
pub open spec fn expression_list(s: Seq<char>, p: int) -> LRes
    decreases s.len() - p, 8int,
{
    match expression(s, p) {
        Err(ParseError::NoMatch) => Ok((Seq::empty(), p)),
        Err(e) => Err(e),
        Ok((x, q)) => if p < q <= s.len() {
            expression_list_tail(s, q, seq![x])
        } else {
            Ok((seq![x], q))
        },
    }
}

pub open spec fn expression_list_tail(s: Seq<char>, p: int, acc: Seq<Ast>) -> LRes
    decreases s.len() - p, 1int,
{
    if char_at(s, p, ',') {
        match expression(s, p + 1) {
            Err(ParseError::NoMatch) => Ok((acc, p)),
            Err(e) => Err(e),
            Ok((x, q)) => if p < q <= s.len() {
                expression_list_tail(s, q, acc.push(x))
            } else {
                Ok((acc.push(x), q))
            },
        }
    } else {
        Ok((acc, p))
    }
}

pub open spec fn expression(s: Seq<char>, p: int) -> PRes
    decreases s.len() - p, 7int,
{
    let r = or_else(
        boolean(s, p),
        or_else(
            level(s, p, 1),
            or_else(
                number(s, p),
                or_else(function_call(s, p), or_else(string(s, p), identifier(s, p))),
            ),
        ),
    );
    match r {
        Ok((x, q)) => Ok((Ast::Expression(seq![x]), q)),
        Err(e) => Err(e),
    }
}

pub open spec fn conditional(s: Seq<char>, p: int) -> PRes
    decreases s.len() - p, 8int,
{
    match expression(s, p) {
        Err(e) => Err(e),
        Ok((l, q)) => {
            let a = span_end(s, q, CharClass::Space);
            let b = span_end(s, a + 2, CharClass::Space);
            if p < q <= a && a + 2 <= b <= s.len() && (has_tag(s, a, seq!['=', '='])
                || has_tag(s, a, seq!['!', '='])) {
                match expression(s, b) {
                    Err(e) => Err(e),
                    Ok((r, q2)) => Ok((Ast::Conditional(s.subrange(a, a + 2), seq![l, r]), q2)),
                }
            } else {
                Err(ParseError::NoMatch)
            }
        },
    }
}

/// One or more statements from `p` on, after `acc`.
pub open spec fn statements(s: Seq<char>, p: int, acc: Seq<Ast>) -> LRes
    decreases s.len() - p, 3int,
{
    match statement(s, p) {
        Err(ParseError::NoMatch) => if acc.len() == 0 {
            Err(ParseError::NoMatch)
        } else {
            Ok((acc, p))
        },
        Err(e) => Err(e),
        Ok((x, q)) => if p < q <= s.len() {
            statements(s, q, acc.push(x))
        } else {
            Ok((acc.push(x), q))
        },
    }
}

/// A block: optional blanks, `{`, blanks, statements, blanks, `}`. Gives
/// the statements and the position after the brace.
pub open spec fn block(s: Seq<char>, p: int) -> LRes
    decreases s.len() - p, 4int,
{
    let b = span_end(s, p, CharClass::Blank);
    let d = span_end(s, b + 1, CharClass::Blank);
    if 0 <= p <= b && char_at(s, b, '{') && b + 1 <= d <= s.len() {
        match statements(s, d, Seq::empty()) {
            Err(e) => Err(e),
            Ok((body, e1)) => {
                let g = span_end(s, e1, CharClass::Blank);
                if e1 <= g && char_at(s, g, '}') {
                    Ok((body, g + 1))
                } else {
                    Err(ParseError::NoMatch)
                }
            },
        }
    } else {
        Err(ParseError::NoMatch)
    }
}

pub open spec fn if_statement(s: Seq<char>, p: int) -> PRes
    decreases s.len() - p, 1int,
{
    let a = span_end(s, p + 2, CharClass::Space);
    if has_tag(s, p, seq!['i', 'f']) && p + 2 <= a && char_at(s, a, '(') {
        match conditional(s, a + 1) {
            Err(e) => Err(e),
            Ok((c, q)) => if a + 1 <= q && char_at(s, q, ')') {
                match block(s, q + 1) {
                    Err(e) => Err(e),
                    Ok((body, e1)) => Ok((Ast::IfStatement(seq![c] + body), e1)),
                }
            } else {
                Err(ParseError::NoMatch)
            },
        }
    } else {
        Err(ParseError::NoMatch)
    }
}

pub open spec fn variable_define(s: Seq<char>, p: int) -> PRes
    decreases s.len() - p, 1int,
{
    if has_tag(s, p, seq!['l', 'e', 't', ' ']) {
        match identifier(s, p + 4) {
            Err(e) => Err(e),
            Ok((id, q)) => {
                let a = span_end(s, q, CharClass::Space);
                let b = span_end(s, a + 1, CharClass::Space);
                if p + 4 <= q <= a && char_at(s, a, '=') && a + 1 <= b <= s.len() {
                    match expression(s, b) {
                        Err(e) => Err(e),
                        Ok((x, q2)) => if char_at(s, q2, ';') {
                            Ok((Ast::VariableDefine(seq![id, x]), q2 + 1))
                        } else {
                            Err(ParseError::NoMatch)
                        },
                    }
                } else {
                    Err(ParseError::NoMatch)
                }
            },
        }
    } else {
        Err(ParseError::NoMatch)
    }
}

pub open spec fn function_return(s: Seq<char>, p: int) -> PRes
    decreases s.len() - p, 1int,
{
    if has_tag(s, p, seq!['r', 'e', 't', 'u', 'r', 'n', ' ']) {
        match or_else(
            function_call(s, p + 7),
            or_else(expression(s, p + 7), identifier(s, p + 7)),
        ) {
            Err(e) => Err(e),
            Ok((x, q)) => if char_at(s, q, ';') {
                Ok((Ast::FunctionReturn(seq![x]), q + 1))
            } else {
                Err(ParseError::NoMatch)
            },
        }
    } else {
        Err(ParseError::NoMatch)
    }
}

pub open spec fn statement(s: Seq<char>, p: int) -> PRes
    decreases s.len() - p, 2int,
{
    match or_else(
        variable_define(s, p),
        or_else(function_call(s, p), or_else(function_return(s, p), if_statement(s, p))),
    ) {
        Err(e) => Err(e),
        Ok((x, q)) => Ok((Ast::Statement(seq![x]), span_end(s, q, CharClass::Blank))),
    }
}

pub open spec fn function_definition(s: Seq<char>, p: int) -> PRes
    decreases s.len() - p, 1int,
{
    let a = span_end(s, p, CharClass::Blank);
    let b = span_end(s, a + 3, CharClass::Blank);
    if p <= a && has_tag(s, a, seq!['f', 'n', ' ']) && a + 3 <= b <= s.len() {
        match identifier(s, b) {
            Err(e) => Err(e),
            Ok((name, q)) => if b <= q && char_at(s, q, '(') {
                match expression_list(s, q + 1) {
                    Err(e) => Err(e),
                    Ok((params, q2)) => if q + 1 <= q2 && char_at(s, q2, ')') {
                        match block(s, q2 + 1) {
                            Err(e) => Err(e),
                            Ok((body, e1)) => Ok((
                                Ast::FunctionDefine(seq![name, Ast::FunctionArguments(params)] + body),
                                span_end(s, e1, CharClass::Blank),
                            )),
                        }
                    } else {
                        Err(ParseError::NoMatch)
                    },
                }
            } else {
                Err(ParseError::NoMatch)
            },
        }
    } else {
        Err(ParseError::NoMatch)
    }
}

/// One top-level item: a definition, a statement or a bare expression.
#[verifier::opaque]
pub open spec fn item(s: Seq<char>, p: int) -> PRes
    decreases s.len() - p, 7int,
{
    or_else(function_definition(s, p), or_else(statement(s, p), expression(s, p)))
}

/// Top-level items from `p` on, after `acc`: definitions, statements or bare
/// expressions, at least one in all.
pub open spec fn items(s: Seq<char>, p: int, acc: Seq<Ast>) -> LRes
    decreases s.len() - p, 8int,
{
    match item(s, p) {
        Err(ParseError::NoMatch) => if acc.len() == 0 {
            Err(ParseError::NoMatch)
        } else {
            Ok((acc, p))
        },
        Err(e) => Err(e),
        Ok((x, q)) => if p < q <= s.len() {
            items(s, q, acc.push(x))
        } else {
            Ok((acc.push(x), q))
        },
    }
}

/// A whole source text: top-level items, then nothing but blanks and `;`.
pub open spec fn program(s: Seq<char>) -> PRes {
    match items(s, 0, Seq::empty()) {
        Err(e) => Err(e),
        Ok((xs, q)) => if span_end(s, q, CharClass::Separator) == s.len() {
            Ok((Ast::Program(xs), q))
        } else {
            Err(ParseError::TrailingInput)
        },
    }
}

} // verus!
