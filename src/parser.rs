//! The parser: recursive descent over the characters of the source text.
//! Each production takes the input and a position and returns the node it
//! recognises there with the position after it; it fails with `NoMatch`,
//! consuming nothing, so that an alternative can be tried.

use vstd::prelude::*;
use vstd::std_specs::iter::IteratorSpec;
use crate::ast::{asts_of, lemma_asts_of, Ast, Node};
use crate::grammar;
use crate::grammar::{
    chain, decimal, has_tag, in_class, infix_arg, infix_op, level_rank, span_end, CharClass, LRes,
    PRes, ParseError,
};

verus! {

pub open spec fn pview(r: Result<(Node, usize), ParseError>) -> PRes {
    match r {
        Ok((n, q)) => Ok((n@, q as int)),
        Err(e) => Err(e),
    }
}

pub open spec fn lview(r: Result<(Vec<Node>, usize), ParseError>) -> LRes {
    match r {
        Ok((v, q)) => Ok((asts_of(v@), q as int)),
        Err(e) => Err(e),
    }
}

/// A successful result ends after `p` and within the input.
pub open spec fn advances(r: Result<(Node, usize), ParseError>, p: int, len: int) -> bool {
    match r {
        Ok((_, q)) => p < q <= len,
        Err(_) => true,
    }
}

/// A successful list result ends at or after `p` and within the input.
pub open spec fn stays_within(r: Result<(Vec<Node>, usize), ParseError>, p: int, len: int) -> bool {
    match r {
        Ok((_, q)) => p <= q <= len,
        Err(_) => true,
    }
}

/// Relies on std's `FromIterator<&char>` for `String`: the string holds the
/// characters `s[a..b]` in order.
#[verifier::external_body]
fn text_of(s: &[char], a: usize, b: usize) -> (r: String)
    requires
        a <= b <= s@.len(),
    ensures
        r@ == s@.subrange(a as int, b as int),
{
    s[a..b].iter().collect()
}

/// The characters of `s` in order.
fn chars_of(s: &str) -> (r: Vec<char>)
    ensures
        r@ == s@,
{
    let mut it = s.chars();
    let mut r: Vec<char> = Vec::new();
    proof {
        assert(r@ + IteratorSpec::remaining(&it) =~= s@);
    }
    loop
        invariant
            r@ + IteratorSpec::remaining(&it) == s@,
            IteratorSpec::decrease(&it) is Some,
        decreases IteratorSpec::decrease(&it)->0,
    {
        let ghost before = IteratorSpec::remaining(&it);
        match it.next() {
            Some(c) => {
                let ghost prev = r@;
                r.push(c);
                proof {
                    assert(r@ + IteratorSpec::remaining(&it) =~= prev + before);
                }
            },
            None => {
                proof {
                    assert(r@ =~= s@);
                }
                return r;
            },
        }
    }
}

fn class_has(c: char, k: CharClass) -> (r: bool)
    ensures
        r == in_class(c, k),
{
    match k {
        CharClass::Space => c == ' ',
        CharClass::Blank => c == ' ' || c == '\t' || c == '\n',
        CharClass::AlphaNum => ('a' <= c && c <= 'z') || ('A' <= c && c <= 'Z') || ('0' <= c && c
            <= '9'),
        CharClass::Digit => '0' <= c && c <= '9',
        CharClass::NotQuote => c != '"',
        CharClass::Separator => c == ' ' || c == '\t' || c == '\n' || c == ';',
    }
}

/// The end of the run of class `k` that starts at `p`.
fn span(s: &[char], p: usize, k: CharClass) -> (r: usize)
    requires
        p <= s.len(),
    ensures
        r as int == span_end(s@, p as int, k),
        p <= r <= s@.len(),
        forall|j: int| p <= j < r ==> in_class(#[trigger] s@[j], k),
{
    let mut i = p;
    while i < s.len() && class_has(s[i], k)
        invariant
            p <= i <= s@.len(),
            span_end(s@, p as int, k) == span_end(s@, i as int, k),
            forall|j: int| p <= j < i ==> in_class(#[trigger] s@[j], k),
        decreases s@.len() - i,
    {
        i += 1;
    }
    i
}

fn char_is(s: &[char], p: usize, c: char) -> (r: bool)
    ensures
        r == grammar::char_at(s@, p as int, c),
{
    p < s.len() && s[p] == c
}

fn tag_at(s: &[char], p: usize, t: &Vec<char>) -> (r: bool)
    ensures
        r == has_tag(s@, p as int, t@),
{
    let n = s.len();
    if p > n || t.len() > n - p {
        return false;
    }
    let mut i: usize = 0;
    while i < t.len()
        invariant
            p + t@.len() <= s@.len(),
            s@.len() == n,
            i <= t@.len(),
            forall|j: int| 0 <= j < i ==> s@[p + j] == t@[j],
        decreases t@.len() - i,
    {
        if s[p + i] != t[i] {
            proof {
                assert(s@.subrange(p as int, p + t@.len())[i as int] != t@[i as int]);
            }
            return false;
        }
        i += 1;
    }
    proof {
        assert(s@.subrange(p as int, p + t@.len()) =~= t@);
    }
    true
}

proof fn lemma_decimal_prefix(x: Seq<char>, k: int)
    requires
        0 <= k <= x.len(),
        forall|j: int| 0 <= j < x.len() ==> in_class(#[trigger] x[j], CharClass::Digit),
    ensures
        0 <= decimal(x.subrange(0, k)) <= decimal(x),
    decreases x.len(),
{
    if k == x.len() {
        assert(x.subrange(0, k) =~= x);
        if x.len() > 0 {
            lemma_decimal_prefix(x.drop_last(), 0);
        }
    } else {
        lemma_decimal_prefix(x.drop_last(), k);
        assert(x.drop_last().subrange(0, k) =~= x.subrange(0, k));
        lemma_decimal_prefix(x.drop_last(), x.len() - 1);
        assert(x.drop_last().subrange(0, x.len() - 1) =~= x.drop_last());
    }
}

/// Optional spaces, then one or more letters or digits.
pub fn identifier(s: &[char], pos: usize) -> (r: Result<(Node, usize), ParseError>)
    requires
        pos <= s.len(),
    ensures
        pview(r) == grammar::identifier(s@, pos as int),
        advances(r, pos as int, s@.len() as int),
{
    let a = span(s, pos, CharClass::Space);
    let b = span(s, a, CharClass::AlphaNum);
    if a < b {
        Ok((Node::Identifier { value: text_of(s, a, b) }, b))
    } else {
        Err(ParseError::NoMatch)
    }
}

/// One or more digits, as an `i32`; a value too large for it is `BadNumber`.
pub fn number(s: &[char], pos: usize) -> (r: Result<(Node, usize), ParseError>)
    requires
        pos <= s.len(),
    ensures
        pview(r) == grammar::number(s@, pos as int),
        advances(r, pos as int, s@.len() as int),
{
    let b = span(s, pos, CharClass::Digit);
    if b == pos {
        return Err(ParseError::NoMatch);
    }
    let ghost run = s@.subrange(pos as int, b as int);
    let mut v: i32 = 0;
    let mut i = pos;
    proof {
        assert(s@.subrange(pos as int, pos as int) =~= Seq::<char>::empty());
    }
    while i < b
        invariant
            pos <= i <= b <= s@.len(),
            b as int == span_end(s@, pos as int, CharClass::Digit),
            run == s@.subrange(pos as int, b as int),
            forall|j: int| pos <= j < b ==> in_class(#[trigger] s@[j], CharClass::Digit),
            v as int == decimal(s@.subrange(pos as int, i as int)),
            0 <= v,
        decreases b - i,
    {
        let d = (s[i] as u32 - '0' as u32) as i32;
        proof {
            assert(s@.subrange(pos as int, i + 1).drop_last() =~= s@.subrange(pos as int, i as int));
        }
        let next = match v.checked_mul(10) {
            Some(m) => m.checked_add(d),
            None => None,
        };
        match next {
            Some(n) => {
                v = n;
            },
            None => {
                proof {
                    assert(0 <= d <= 9);
                    assert(v * 10 + d > i32::MAX);
                    assert(decimal(s@.subrange(pos as int, i + 1)) == v * 10 + d);
                    assert forall|j: int| 0 <= j < run.len() implies in_class(
                        #[trigger] run[j],
                        CharClass::Digit,
                    ) by {
                        assert(run[j] == s@[pos + j]);
                    }
                    lemma_decimal_prefix(run, i + 1 - pos);
                    assert(run.subrange(0, i + 1 - pos) =~= s@.subrange(pos as int, i + 1));
                    assert(decimal(run) > i32::MAX);
                }
                return Err(ParseError::BadNumber);
            },
        }
        i += 1;
    }
    Ok((Node::Number { value: v }, b))
}

/// `true` or `false`.
pub fn boolean(s: &[char], pos: usize) -> (r: Result<(Node, usize), ParseError>)
    requires
        pos <= s.len(),
    ensures
        pview(r) == grammar::boolean(s@, pos as int),
        advances(r, pos as int, s@.len() as int),
{
    if tag_at(s, pos, &vec!['t', 'r', 'u', 'e']) {
        Ok((Node::Bool { value: true }, pos + 4))
    } else if tag_at(s, pos, &vec!['f', 'a', 'l', 's', 'e']) {
        Ok((Node::Bool { value: false }, pos + 5))
    } else {
        Err(ParseError::NoMatch)
    }
}

/// A double quote, one or more other characters, a double quote.
pub fn string(s: &[char], pos: usize) -> (r: Result<(Node, usize), ParseError>)
    requires
        pos <= s.len(),
    ensures
        pview(r) == grammar::string(s@, pos as int),
        advances(r, pos as int, s@.len() as int),
{
    if !char_is(s, pos, '"') {
        return Err(ParseError::NoMatch);
    }
    let b = span(s, pos + 1, CharClass::NotQuote);
    if pos + 1 < b && char_is(s, b, '"') {
        Ok((Node::String { value: text_of(s, pos + 1, b) }, b + 1))
    } else {
        Err(ParseError::NoMatch)
    }
}

/// Whether a production failed without matching.
fn no_match(r: &Result<(Node, usize), ParseError>) -> (b: bool)
    ensures
        b == (pview(*r) == Err::<(Ast, int), ParseError>(ParseError::NoMatch)),
{
    matches!(r, Err(ParseError::NoMatch))
}

/// The operator and the operand of a one-child math node.
fn split_infix(n: Node) -> (r: (String, Node))
    ensures
        r.0@ == infix_op(n@),
        r.1@ == infix_arg(n@),
{
    match n {
        Node::MathExpression { name, children } => {
            let mut children = children;
            proof {
                lemma_asts_of(children@);
            }
            if children.len() > 0 {
                let x = children.pop().unwrap();
                (name, x)
            } else {
                let op = name.clone();
                (op, Node::MathExpression { name, children })
            }
        },
        _ => (String::new(), n),
    }
}

fn binary(op: String, l: Node, r: Node) -> (n: Node)
    ensures
        n@ == Ast::MathExpression(op@, seq![l@, r@]),
{
    let ghost (lv, rv) = (l@, r@);
    let children = vec![l, r];
    proof {
        lemma_asts_of(children@);
        assert(asts_of(children@) =~= seq![lv, rv]);
    }
    Node::MathExpression { name: op, children }
}

/// The tree of `head` followed by the one-child math nodes of `tail`.
fn chain_exec(head: Node, tail: Vec<Node>) -> (r: Node)
    ensures
        r@ == chain(head@, asts_of(tail@)),
{
    let ghost t = asts_of(tail@);
    let ghost n = tail@.len();
    proof {
        lemma_asts_of(tail@);
    }
    if tail.len() == 0 {
        return head;
    }
    let mut tail = tail;
    let last = tail.pop().unwrap();
    let (op0, acc0) = split_infix(last);
    let mut op = op0;
    let mut acc = acc0;
    proof {
        assert(t.subrange(n as int, n as int) =~= Seq::<Ast>::empty());
    }
    while tail.len() > 0
        invariant
            tail@.len() < n,
            t.len() == n,
            forall|j: int| 0 <= j < tail@.len() ==> #[trigger] t[j] == tail@[j]@,
            op@ == infix_op(t[tail@.len() as int]),
            acc@ == chain(infix_arg(t[tail@.len() as int]), t.subrange(tail@.len() as int + 1, n as int)),
        decreases tail@.len(),
    {
        let ghost k = tail@.len() as int;
        let item = tail.pop().unwrap();
        let (op2, x) = split_infix(item);
        let ghost prev = acc@;
        acc = binary(op, x, acc);
        op = op2;
        proof {
            assert(t.subrange(k, n as int).subrange(1, n - k) =~= t.subrange(k + 1, n as int));
            assert(t.subrange(k, n as int)[0] == t[k]);
        }
    }
    proof {
        assert(t.subrange(1, n as int) =~= t.subrange(0int + 1, n as int));
    }
    binary(op, head, acc)
}

/// An arithmetic expression of precedence level `lv` (1 to 3), or an operand
/// (4): a call, a number, an identifier or a parenthesised expression.
fn level(s: &[char], pos: usize, lv: u8) -> (r: Result<(Node, usize), ParseError>)
    requires
        pos <= s.len(),
    ensures
        pview(r) == grammar::level(s@, pos as int, lv as nat),
        advances(r, pos as int, s@.len() as int),
    decreases s@.len() - pos, level_rank(lv as nat),
{
    if lv >= 4 {
        let r = function_call(s, pos);
        if !no_match(&r) {
            return r;
        }
        let r = number(s, pos);
        if !no_match(&r) {
            return r;
        }
        let r = identifier(s, pos);
        if !no_match(&r) {
            return r;
        }
        return parenthetical_expression(s, pos);
    }
    let (h, q) = match level(s, pos, lv + 1) {
        Ok(x) => x,
        Err(e) => return Err(e),
    };
    match level_tail(s, q, lv) {
        Ok((t, r)) => Ok((chain_exec(h, t), r)),
        Err(e) => Err(e),
    }
}

/// An operator of level `lv` and its operand, as a one-child math node.
fn infix(s: &[char], pos: usize, lv: u8) -> (r: Result<(Node, usize), ParseError>)
    requires
        pos <= s.len(),
    ensures
        pview(r) == grammar::infix(s@, pos as int, lv as nat),
        advances(r, pos as int, s@.len() as int),
    decreases s@.len() - pos, 1int,
{
    let a = span(s, pos, CharClass::Space);
    if a >= s.len() {
        return Err(ParseError::NoMatch);
    }
    let c = s[a];
    let is_op = if lv == 1 {
        c == '+' || c == '-'
    } else if lv == 2 {
        c == '*' || c == '/'
    } else {
        lv == 3 && c == '^'
    };
    if !is_op {
        return Err(ParseError::NoMatch);
    }
    let b = span(s, a + 1, CharClass::Space);
    let (x, q) = match level(s, b, lv + 1) {
        Ok(x) => x,
        Err(e) => return Err(e),
    };
    let op = text_of(s, a, a + 1);
    let arg = vec![x];
    proof {
        lemma_asts_of(arg@);
        assert(asts_of(arg@) =~= seq![x@]);
        assert(s@.subrange(a as int, a + 1) =~= seq![c]);
    }
    Ok((Node::MathExpression { name: op, children: arg }, q))
}

/// The operator and operand pairs of level `lv` from `pos` on.
fn level_tail(s: &[char], pos: usize, lv: u8) -> (r: Result<(Vec<Node>, usize), ParseError>)
    requires
        pos <= s.len(),
    ensures
        lview(r) == grammar::level_tail(s@, pos as int, lv as nat, Seq::empty()),
        stays_within(r, pos as int, s@.len() as int),
    decreases s@.len() - pos, 2int,
{
    let mut acc: Vec<Node> = Vec::new();
    let mut p = pos;
    proof {
        assert(asts_of(acc@) =~= Seq::<Ast>::empty());
    }
    loop
        invariant
            pos <= p <= s.len(),
            grammar::level_tail(s@, pos as int, lv as nat, Seq::empty()) == grammar::level_tail(
                s@,
                p as int,
                lv as nat,
                asts_of(acc@),
            ),
        decreases s@.len() - p,
    {
        match infix(s, p, lv) {
            Err(ParseError::NoMatch) => {
                return Ok((acc, p));
            },
            Err(e) => {
                return Err(e);
            },
            Ok((n, q)) => {
                let ghost before = acc@;
                acc.push(n);
                proof {
                    lemma_asts_of(before);
                    lemma_asts_of(acc@);
                    assert(asts_of(acc@) =~= asts_of(before).push(n@));
                }
                p = q;
            },
        }
    }
}

/// `(`, an arithmetic expression, `)`.
pub fn parenthetical_expression(s: &[char], pos: usize) -> (r: Result<(Node, usize), ParseError>)
    requires
        pos <= s.len(),
    ensures
        pview(r) == grammar::parenthetical_expression(s@, pos as int),
        advances(r, pos as int, s@.len() as int),
    decreases s@.len() - pos, 1int,
{
    if !char_is(s, pos, '(') {
        return Err(ParseError::NoMatch);
    }
    let (x, q) = match level(s, pos + 1, 1) {
        Ok(x) => x,
        Err(e) => return Err(e),
    };
    if char_is(s, q, ')') {
        Ok((x, q + 1))
    } else {
        Err(ParseError::NoMatch)
    }
}

/// A name, `(`, expressions separated by commas, `)`.
pub fn function_call(s: &[char], pos: usize) -> (r: Result<(Node, usize), ParseError>)
    requires
        pos <= s.len(),
    ensures
        pview(r) == grammar::function_call(s@, pos as int),
        advances(r, pos as int, s@.len() as int),
    decreases s@.len() - pos, 1int,
{
    let a = span(s, pos, CharClass::AlphaNum);
    if !(pos < a && char_is(s, a, '(')) {
        return Err(ParseError::NoMatch);
    }
    let (args, q) = match expression_list(s, a + 1) {
        Ok(x) => x,
        Err(e) => return Err(e),
    };
    if !char_is(s, q, ')') {
        return Err(ParseError::NoMatch);
    }
    let ghost argsv = asts_of(args@);
    let wrapped = vec![Node::FunctionArguments { children: args }];
    proof {
        lemma_asts_of(wrapped@);
        assert(asts_of(wrapped@) =~= seq![Ast::FunctionArguments(argsv)]);
    }
    Ok((Node::FunctionCall { name: text_of(s, pos, a), children: wrapped }, q + 1))
}

/// Expressions separated by commas; none at all is an empty list.
fn expression_list(s: &[char], pos: usize) -> (r: Result<(Vec<Node>, usize), ParseError>)
    requires
        pos <= s.len(),
    ensures
        lview(r) == grammar::expression_list(s@, pos as int),
        stays_within(r, pos as int, s@.len() as int),
    decreases s@.len() - pos, 8int,
{
    match expression(s, pos) {
        Err(ParseError::NoMatch) => {
            let v: Vec<Node> = Vec::new();
            proof {
                assert(asts_of(v@) =~= Seq::<Ast>::empty());
            }
            Ok((v, pos))
        },
        Err(e) => Err(e),
        Ok((x, q)) => {
            let ghost xv = x@;
            let first = vec![x];
            proof {
                lemma_asts_of(first@);
                assert(asts_of(first@) =~= seq![xv]);
            }
            expression_list_tail(s, q, first)
        },
    }
}

fn expression_list_tail(s: &[char], pos: usize, init: Vec<Node>) -> (r: Result<
    (Vec<Node>, usize),
    ParseError,
>)
    requires
        pos <= s.len(),
    ensures
        lview(r) == grammar::expression_list_tail(s@, pos as int, asts_of(init@)),
        stays_within(r, pos as int, s@.len() as int),
    decreases s@.len() - pos, 1int,
{
    let mut acc = init;
    let mut p = pos;
    loop
        invariant
            pos <= p <= s.len(),
            grammar::expression_list_tail(s@, pos as int, asts_of(init@)) == grammar::expression_list_tail(
                s@,
                p as int,
                asts_of(acc@),
            ),
        decreases s@.len() - p,
    {
        if !char_is(s, p, ',') {
            return Ok((acc, p));
        }
        match expression(s, p + 1) {
            Err(ParseError::NoMatch) => {
                return Ok((acc, p));
            },
            Err(e) => {
                return Err(e);
            },
            Ok((x, q)) => {
                let ghost before = acc@;
                acc.push(x);
                proof {
                    lemma_asts_of(before);
                    lemma_asts_of(acc@);
                    assert(asts_of(acc@) =~= asts_of(before).push(x@));
                }
                p = q;
            },
        }
    }
}

/// A boolean, an arithmetic expression, a number, a call, a string or an
/// identifier, tried in that order, wrapped in an expression node.
pub fn expression(s: &[char], pos: usize) -> (r: Result<(Node, usize), ParseError>)
    requires
        pos <= s.len(),
    ensures
        pview(r) == grammar::expression(s@, pos as int),
        advances(r, pos as int, s@.len() as int),
    decreases s@.len() - pos, 7int,
{
    let mut r = boolean(s, pos);
    if no_match(&r) {
        r = level(s, pos, 1);
    }
    if no_match(&r) {
        r = number(s, pos);
    }
    if no_match(&r) {
        r = function_call(s, pos);
    }
    if no_match(&r) {
        r = string(s, pos);
    }
    if no_match(&r) {
        r = identifier(s, pos);
    }
    match r {
        Ok((x, q)) => {
            let ghost xv = x@;
            let inner = vec![x];
            proof {
                lemma_asts_of(inner@);
                assert(asts_of(inner@) =~= seq![xv]);
            }
            Ok((Node::Expression { children: inner }, q))
        },
        Err(e) => Err(e),
    }
}

fn single(x: Node) -> (v: Vec<Node>)
    ensures
        asts_of(v@) == seq![x@],
{
    let ghost xv = x@;
    let v = vec![x];
    proof {
        lemma_asts_of(v@);
        assert(asts_of(v@) =~= seq![xv]);
    }
    v
}

fn pair(x: Node, y: Node) -> (v: Vec<Node>)
    ensures
        asts_of(v@) == seq![x@, y@],
{
    let ghost (xv, yv) = (x@, y@);
    let v = vec![x, y];
    proof {
        lemma_asts_of(v@);
        assert(asts_of(v@) =~= seq![xv, yv]);
    }
    v
}

fn push_node(v: &mut Vec<Node>, x: Node)
    ensures
        asts_of(final(v)@) == asts_of(old(v)@).push(x@),
{
    let ghost before = v@;
    v.push(x);
    proof {
        lemma_asts_of(before);
        lemma_asts_of(v@);
        assert(asts_of(v@) =~= asts_of(before).push(x@));
    }
}

/// `front` followed by the nodes of `rest`.
fn prepend(front: Vec<Node>, rest: Vec<Node>) -> (v: Vec<Node>)
    ensures
        asts_of(v@) == asts_of(front@) + asts_of(rest@),
{
    let mut v = front;
    let mut rest = rest;
    let ghost (f0, r0) = (v@, rest@);
    v.append(&mut rest);
    proof {
        lemma_asts_of(f0);
        lemma_asts_of(r0);
        lemma_asts_of(v@);
        assert(asts_of(v@) =~= asts_of(f0) + asts_of(r0));
    }
    v
}

/// An expression, `==` or `!=`, an expression.
pub fn conditional(s: &[char], pos: usize) -> (r: Result<(Node, usize), ParseError>)
    requires
        pos <= s.len(),
    ensures
        pview(r) == grammar::conditional(s@, pos as int),
        advances(r, pos as int, s@.len() as int),
    decreases s@.len() - pos, 8int,
{
    let (l, q) = match expression(s, pos) {
        Ok(x) => x,
        Err(e) => return Err(e),
    };
    let a = span(s, q, CharClass::Space);
    if !(tag_at(s, a, &vec!['=', '=']) || tag_at(s, a, &vec!['!', '='])) {
        return Err(ParseError::NoMatch);
    }
    let b = span(s, a + 2, CharClass::Space);
    let (rhs, q2) = match expression(s, b) {
        Ok(x) => x,
        Err(e) => return Err(e),
    };
    Ok((Node::Conditional { name: text_of(s, a, a + 2), children: pair(l, rhs) }, q2))
}

/// One or more statements.
fn statements(s: &[char], pos: usize) -> (r: Result<(Vec<Node>, usize), ParseError>)
    requires
        pos <= s.len(),
    ensures
        lview(r) == grammar::statements(s@, pos as int, Seq::empty()),
        stays_within(r, pos as int, s@.len() as int),
    decreases s@.len() - pos, 3int,
{
    let mut acc: Vec<Node> = Vec::new();
    let mut p = pos;
    proof {
        assert(asts_of(acc@) =~= Seq::<Ast>::empty());
    }
    loop
        invariant
            pos <= p <= s.len(),
            grammar::statements(s@, pos as int, Seq::empty()) == grammar::statements(
                s@,
                p as int,
                asts_of(acc@),
            ),
        decreases s@.len() - p,
    {
        match statement(s, p) {
            Err(ParseError::NoMatch) => {
                if acc.len() == 0 {
                    proof {
                        lemma_asts_of(acc@);
                    }
                    return Err(ParseError::NoMatch);
                }
                proof {
                    lemma_asts_of(acc@);
                }
                return Ok((acc, p));
            },
            Err(e) => {
                return Err(e);
            },
            Ok((x, q)) => {
                push_node(&mut acc, x);
                p = q;
            },
        }
    }
}

/// Optional blanks, `{`, statements, `}`: the statements and the position
/// after the brace.
fn block(s: &[char], pos: usize) -> (r: Result<(Vec<Node>, usize), ParseError>)
    requires
        pos <= s.len(),
    ensures
        lview(r) == grammar::block(s@, pos as int),
        stays_within(r, pos as int, s@.len() as int),
    decreases s@.len() - pos, 4int,
{
    let b = span(s, pos, CharClass::Blank);
    if !char_is(s, b, '{') {
        return Err(ParseError::NoMatch);
    }
    let d = span(s, b + 1, CharClass::Blank);
    let (body, e1) = match statements(s, d) {
        Ok(x) => x,
        Err(e) => return Err(e),
    };
    let g = span(s, e1, CharClass::Blank);
    if char_is(s, g, '}') {
        Ok((body, g + 1))
    } else {
        Err(ParseError::NoMatch)
    }
}

/// `if`, `(`, a condition, `)`, a block.
pub fn if_statement(s: &[char], pos: usize) -> (r: Result<(Node, usize), ParseError>)
    requires
        pos <= s.len(),
    ensures
        pview(r) == grammar::if_statement(s@, pos as int),
        advances(r, pos as int, s@.len() as int),
    decreases s@.len() - pos, 1int,
{
    if !tag_at(s, pos, &vec!['i', 'f']) {
        return Err(ParseError::NoMatch);
    }
    let a = span(s, pos + 2, CharClass::Space);
    if !char_is(s, a, '(') {
        return Err(ParseError::NoMatch);
    }
    let (c, q) = match conditional(s, a + 1) {
        Ok(x) => x,
        Err(e) => return Err(e),
    };
    if !char_is(s, q, ')') {
        return Err(ParseError::NoMatch);
    }
    let (body, e1) = match block(s, q + 1) {
        Ok(x) => x,
        Err(e) => return Err(e),
    };
    Ok((Node::IfStatement { children: prepend(single(c), body) }, e1))
}

/// `let `, a name, `=`, an expression, `;`.
pub fn variable_define(s: &[char], pos: usize) -> (r: Result<(Node, usize), ParseError>)
    requires
        pos <= s.len(),
    ensures
        pview(r) == grammar::variable_define(s@, pos as int),
        advances(r, pos as int, s@.len() as int),
    decreases s@.len() - pos, 1int,
{
    if !tag_at(s, pos, &vec!['l', 'e', 't', ' ']) {
        return Err(ParseError::NoMatch);
    }
    let (id, q) = match identifier(s, pos + 4) {
        Ok(x) => x,
        Err(e) => return Err(e),
    };
    let a = span(s, q, CharClass::Space);
    if !char_is(s, a, '=') {
        return Err(ParseError::NoMatch);
    }
    let b = span(s, a + 1, CharClass::Space);
    let (x, q2) = match expression(s, b) {
        Ok(x) => x,
        Err(e) => return Err(e),
    };
    if char_is(s, q2, ';') {
        Ok((Node::VariableDefine { children: pair(id, x) }, q2 + 1))
    } else {
        Err(ParseError::NoMatch)
    }
}

/// `return `, a call, an expression or a name, `;`.
pub fn function_return(s: &[char], pos: usize) -> (r: Result<(Node, usize), ParseError>)
    requires
        pos <= s.len(),
    ensures
        pview(r) == grammar::function_return(s@, pos as int),
        advances(r, pos as int, s@.len() as int),
    decreases s@.len() - pos, 1int,
{
    if !tag_at(s, pos, &vec!['r', 'e', 't', 'u', 'r', 'n', ' ']) {
        return Err(ParseError::NoMatch);
    }
    let mut r = function_call(s, pos + 7);
    if no_match(&r) {
        r = expression(s, pos + 7);
    }
    if no_match(&r) {
        r = identifier(s, pos + 7);
    }
    let (x, q) = match r {
        Ok(x) => x,
        Err(e) => return Err(e),
    };
    if char_is(s, q, ';') {
        Ok((Node::FunctionReturn { children: single(x) }, q + 1))
    } else {
        Err(ParseError::NoMatch)
    }
}

/// A variable definition, a call, a return or an `if`, and the blanks after it.
pub fn statement(s: &[char], pos: usize) -> (r: Result<(Node, usize), ParseError>)
    requires
        pos <= s.len(),
    ensures
        pview(r) == grammar::statement(s@, pos as int),
        advances(r, pos as int, s@.len() as int),
    decreases s@.len() - pos, 2int,
{
    let mut r = variable_define(s, pos);
    if no_match(&r) {
        r = function_call(s, pos);
    }
    if no_match(&r) {
        r = function_return(s, pos);
    }
    if no_match(&r) {
        r = if_statement(s, pos);
    }
    let (x, q) = match r {
        Ok(x) => x,
        Err(e) => return Err(e),
    };
    let b = span(s, q, CharClass::Blank);
    Ok((Node::Statement { children: single(x) }, b))
}

/// `fn `, a name, `(`, parameters separated by commas, `)`, a block, and the
/// blanks around it.
#[verifier::rlimit(100)]
pub fn function_definition(s: &[char], pos: usize) -> (r: Result<(Node, usize), ParseError>)
    requires
        pos <= s.len(),
    ensures
        pview(r) == grammar::function_definition(s@, pos as int),
        advances(r, pos as int, s@.len() as int),
    decreases s@.len() - pos, 1int,
{
    let a = span(s, pos, CharClass::Blank);
    if !tag_at(s, a, &vec!['f', 'n', ' ']) {
        return Err(ParseError::NoMatch);
    }
    let b = span(s, a + 3, CharClass::Blank);
    let (name, q) = match identifier(s, b) {
        Ok(x) => x,
        Err(e) => return Err(e),
    };
    if !char_is(s, q, '(') {
        return Err(ParseError::NoMatch);
    }
    let (params, q2) = match expression_list(s, q + 1) {
        Ok(x) => x,
        Err(e) => return Err(e),
    };
    if !char_is(s, q2, ')') {
        return Err(ParseError::NoMatch);
    }
    let (body, e1) = match block(s, q2 + 1) {
        Ok(x) => x,
        Err(e) => return Err(e),
    };
    let end = span(s, e1, CharClass::Blank);
    let head = pair(name, Node::FunctionArguments { children: params });
    Ok((Node::FunctionDefine { children: prepend(head, body) }, end))
}

/// A definition, a statement or a bare expression.
fn item(s: &[char], pos: usize) -> (r: Result<(Node, usize), ParseError>)
    requires
        pos <= s.len(),
    ensures
        pview(r) == grammar::item(s@, pos as int),
        advances(r, pos as int, s@.len() as int),
    decreases s@.len() - pos, 7int,
{
    proof {
        reveal(grammar::item);
    }
    let mut r = function_definition(s, pos);
    if no_match(&r) {
        r = statement(s, pos);
    }
    if no_match(&r) {
        r = expression(s, pos);
    }
    r
}

/// Top-level items: definitions, statements or bare expressions, one or more.
fn items(s: &[char], pos: usize) -> (r: Result<(Vec<Node>, usize), ParseError>)
    requires
        pos <= s.len(),
    ensures
        lview(r) == grammar::items(s@, pos as int, Seq::empty()),
        stays_within(r, pos as int, s@.len() as int),
    decreases s@.len() - pos, 8int,
{
    let mut acc: Vec<Node> = Vec::new();
    let mut p = pos;
    proof {
        assert(asts_of(acc@) =~= Seq::<Ast>::empty());
    }
    loop
        invariant
            pos <= p <= s.len(),
            grammar::items(s@, pos as int, Seq::empty()) == grammar::items(s@, p as int, asts_of(acc@)),
        decreases s@.len() - p,
    {
        match item(s, p) {
            Err(ParseError::NoMatch) => {
                proof {
                    lemma_asts_of(acc@);
                }
                if acc.len() == 0 {
                    return Err(ParseError::NoMatch);
                }
                return Ok((acc, p));
            },
            Err(e) => {
                return Err(e);
            },
            Ok((x, q)) => {
                push_node(&mut acc, x);
                p = q;
            },
        }
    }
}

/// Parses a whole source text: the program node and the number of
/// characters its items span. Text after the items other than blanks and
/// `;` is `TrailingInput`.
pub fn program(input: &str) -> (r: Result<(Node, usize), ParseError>)
    ensures
        pview(r) == grammar::program(input@),
{
    let cs = chars_of(input);
    let s = cs.as_slice();
    match items(s, 0) {
        Ok((xs, q)) => {
            if span(s, q, CharClass::Separator) == s.len() {
                Ok((Node::Program { children: xs }, q))
            } else {
                Err(ParseError::TrailingInput)
            }
        },
        Err(e) => Err(e),
    }
}

/// An arithmetic expression.
pub fn math_expression(s: &[char], pos: usize) -> (r: Result<(Node, usize), ParseError>)
    requires
        pos <= s.len(),
    ensures
        pview(r) == grammar::level(s@, pos as int, 1),
        advances(r, pos as int, s@.len() as int),
{
    level(s, pos, 1)
}

/// Sums and differences of products.
pub fn l1(s: &[char], pos: usize) -> (r: Result<(Node, usize), ParseError>)
    requires
        pos <= s.len(),
    ensures
        pview(r) == grammar::level(s@, pos as int, 1),
        advances(r, pos as int, s@.len() as int),
{
    level(s, pos, 1)
}

/// Products and quotients of powers.
pub fn l2(s: &[char], pos: usize) -> (r: Result<(Node, usize), ParseError>)
    requires
        pos <= s.len(),
    ensures
        pview(r) == grammar::level(s@, pos as int, 2),
        advances(r, pos as int, s@.len() as int),
{
    level(s, pos, 2)
}

/// Powers of operands.
pub fn l3(s: &[char], pos: usize) -> (r: Result<(Node, usize), ParseError>)
    requires
        pos <= s.len(),
    ensures
        pview(r) == grammar::level(s@, pos as int, 3),
        advances(r, pos as int, s@.len() as int),
{
    level(s, pos, 3)
}

/// An operand: a call, a number, an identifier or a parenthesised expression.
pub fn l4(s: &[char], pos: usize) -> (r: Result<(Node, usize), ParseError>)
    requires
        pos <= s.len(),
    ensures
        pview(r) == grammar::level(s@, pos as int, 4),
        advances(r, pos as int, s@.len() as int),
{
    level(s, pos, 4)
}

/// `+` or `-` and a product.
pub fn l1_infix(s: &[char], pos: usize) -> (r: Result<(Node, usize), ParseError>)
    requires
        pos <= s.len(),
    ensures
        pview(r) == grammar::infix(s@, pos as int, 1),
        advances(r, pos as int, s@.len() as int),
{
    infix(s, pos, 1)
}

/// `*` or `/` and a power.
pub fn l2_infix(s: &[char], pos: usize) -> (r: Result<(Node, usize), ParseError>)
    requires
        pos <= s.len(),
    ensures
        pview(r) == grammar::infix(s@, pos as int, 2),
        advances(r, pos as int, s@.len() as int),
{
    infix(s, pos, 2)
}

/// `^` and an operand.
pub fn l3_infix(s: &[char], pos: usize) -> (r: Result<(Node, usize), ParseError>)
    requires
        pos <= s.len(),
    ensures
        pview(r) == grammar::infix(s@, pos as int, 3),
        advances(r, pos as int, s@.len() as int),
{
    infix(s, pos, 3)
}

} // verus!
