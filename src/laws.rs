//! Properties of the language that hold for all inputs, proved from the
//! grammar and the evaluation semantics.

use vstd::prelude::*;
use crate::ast::{Ast, Val};
use crate::grammar::{
    chain, decimal, in_class, infix, infix_arg, level, level_tail, span_end, CharClass, ParseError,
};
use crate::runtime::{
    bind, call_args, eval, lookup, param_name, pop_frame, run_block, EvalError, Frame, State,
    ends_block,
};

verus! {

/// Operators of one precedence level nest to the right: the operands
/// `a op1 b op2 c` form `a op1 (b op2 c)`.
pub proof fn lemma_right_fold(a: Ast, b: Ast, c: Ast, op1: Seq<char>, op2: Seq<char>)
    ensures
        chain(a, seq![Ast::MathExpression(op1, seq![b]), Ast::MathExpression(op2, seq![c])])
            == Ast::MathExpression(op1, seq![a, Ast::MathExpression(op2, seq![b, c])]),
{
    let t = seq![Ast::MathExpression(op1, seq![b]), Ast::MathExpression(op2, seq![c])];
    let t1 = t.subrange(1, 2);
    assert(t1 =~= seq![Ast::MathExpression(op2, seq![c])]);
    assert(t1.subrange(1, 1) =~= Seq::<Ast>::empty());
    assert(infix_arg(t[0]) == b);
    assert(infix_arg(t1[0]) == c);
    assert(chain(c, t1.subrange(1, 1)) == c);
    assert(chain(b, t1) == Ast::MathExpression(op2, seq![b, c]));
}

/// A name is looked up in the innermost frame alone: two states with the
/// same innermost frame give the same result for it, whatever the frames
/// below hold.
pub proof fn lemma_innermost_frame_only(fuel: nat, x: Seq<char>, st1: State, st2: State)
    requires
        st1.stack.len() > 0,
        st2.stack.len() > 0,
        st1.stack.last() == st2.stack.last(),
    ensures
        eval(fuel, Ast::Identifier(x), st1).0 == eval(fuel, Ast::Identifier(x), st2).0,
        eval(fuel, Ast::Identifier(x), st1).1 == st1,
{
}

/// A name that the innermost frame does not bind is an undefined variable,
/// even where an outer frame binds it.
pub proof fn lemma_unbound_name(fuel: nat, x: Seq<char>, st: State)
    requires
        fuel > 0,
        st.stack.len() > 0,
        lookup(st.stack.last(), x) is None,
    ensures
        eval(fuel, Ast::Identifier(x), st) == (Err::<Val, EvalError>(EvalError::UndefinedVariable), st),
{
}

/// A call of a name that no function was registered under fails with
/// `UndefinedFunction`, evaluates none of its arguments, and leaves the
/// state, output included, as it was.
pub proof fn lemma_undefined_function(fuel: nat, name: Seq<char>, children: Seq<Ast>, st: State)
    requires
        fuel > 0,
        name != "print"@,
        lookup(st.functions, name) is None,
    ensures
        eval(fuel, Ast::FunctionCall(name, children), st) == (
            Err::<Val, EvalError>(EvalError::UndefinedFunction),
            st,
        ),
{
}

/// `print` returns the value of its argument unchanged and appends that
/// value to the output; nothing else changes beyond what evaluating the
/// argument did.
pub proof fn lemma_print(fuel: nat, arg: Ast, st: State)
    requires
        fuel > 0,
    ensures
        ({
            let (r, s1) = eval((fuel - 1) as nat, arg, st);
            let call = Ast::FunctionCall("print"@, seq![Ast::FunctionArguments(seq![arg])]);
            match r {
                Ok(v) => eval(fuel, call, st) == (
                    Ok::<Val, EvalError>(v),
                    State { output: s1.output.push(v), ..s1 },
                ),
                Err(e) => eval(fuel, call, st) == (Err::<Val, EvalError>(e), s1),
            }
        }),
{
    let ch = seq![Ast::FunctionArguments(seq![arg])];
    assert(crate::runtime::call_args(ch) == seq![arg]);
}

/// A call of a registered function first evaluates its arguments in full, in
/// the caller's state; only then does it push a frame for the callee, and
/// that frame holds the parameter bindings and nothing of the caller's or of
/// any other frame. The body runs on that frame, which is popped afterwards.
pub proof fn lemma_call_frame(
    fuel: nat,
    name: Seq<char>,
    children: Seq<Ast>,
    st: State,
    params: Seq<Ast>,
    body: Seq<Ast>,
    frame: Frame,
    s1: State,
)
    requires
        fuel > 0,
        name != "print"@,
        lookup(st.functions, name) == Some((params, body)),
        bind(
            (fuel - 1) as nat,
            params,
            call_args(children),
            0,
            Seq::empty(),
            st,
        ) == (Ok::<Frame, EvalError>(frame), s1),
    ensures
        ({
            let entered = State { stack: s1.stack.push(frame), ..s1 };
            let (r, s2) = run_block(
                (fuel - 1) as nat,
                body,
                0,
                true,
                Err(EvalError::UndefinedFunction),
                entered,
            );
            &&& entered.stack.last() == frame
            &&& eval(fuel, Ast::FunctionCall(name, children), st) == (
                r,
                State { stack: pop_frame(s2.stack), ..s2 },
            )
        }),
{
}

/// Each binding of the frame that parameter binding builds is one of the
/// frame it started from, or binds a parameter from position `i` on.
pub proof fn lemma_bind_binds_parameters(
    fuel: nat,
    params: Seq<Ast>,
    args: Seq<Ast>,
    i: int,
    frame: Frame,
    st: State,
)
    requires
        0 <= i,
    ensures
        bind(fuel, params, args, i, frame, st).0 is Ok ==> ({
            let out = bind(fuel, params, args, i, frame, st).0->Ok_0;
            forall|m: int|
                0 <= m < out.len() ==> (m < frame.len() && out[m] == frame[m]) || exists|j: int|
                    i <= j < params.len() && param_name(params[j]) == Some(#[trigger] out[m].0)
        }),
    decreases params.len() - i,
{
    if i < params.len() && i < args.len() {
        let (r, s1) = eval(fuel, args[i], st);
        if r is Ok {
            let v = r->Ok_0;
            let next = match param_name(params[i]) {
                Some(nm) => frame.push((nm, v)),
                None => frame,
            };
            lemma_bind_binds_parameters(fuel, params, args, i + 1, next, s1);
            if bind(fuel, params, args, i, frame, st).0 is Ok {
                let out = bind(fuel, params, args, i, frame, st).0->Ok_0;
                assert forall|m: int| 0 <= m < out.len() implies (m < frame.len() && out[m]
                    == frame[m]) || exists|j: int|
                    i <= j < params.len() && param_name(params[j]) == Some(
                        #[trigger] out[m].0,
                    ) by {
                    if m < next.len() && out[m] == next[m] {
                        if m >= frame.len() {
                            assert(param_name(params[i]) == Some(out[m].0));
                        }
                    }
                }
            }
        }
    }
}

/// The frame in which a called function's body starts binds only names of
/// that function's parameters: nothing of the caller's frame, or of any other,
/// is visible in it.
pub proof fn lemma_call_frame_holds_parameters(
    fuel: nat,
    params: Seq<Ast>,
    args: Seq<Ast>,
    st: State,
    frame: Frame,
    s1: State,
)
    requires
        bind(fuel, params, args, 0, Seq::empty(), st) == (Ok::<Frame, EvalError>(frame), s1),
    ensures
        forall|m: int|
            0 <= m < frame.len() ==> exists|j: int|
                0 <= j < params.len() && param_name(params[j]) == Some(#[trigger] frame[m].0),
{
    lemma_bind_binds_parameters(fuel, params, args, 0, Seq::empty(), st);
    assert(bind(fuel, params, args, 0, Seq::empty(), st).0->Ok_0 == frame);
    assert forall|m: int| 0 <= m < frame.len() implies exists|j: int|
        0 <= j < params.len() && param_name(params[j]) == Some(#[trigger] frame[m].0) by {
        assert(!(m < Seq::<(Seq<char>, Val)>::empty().len()));
    }
}

/// A statement that fails, with anything but `EmptyIf`, ends the block it
/// stands in (a function body or a taken `if` branch): the block fails with
/// the same error, and no later statement runs.
pub proof fn lemma_failure_ends_block(
    fuel: nat,
    body: Seq<Ast>,
    i: int,
    stop_on_return: bool,
    acc: Result<Val, EvalError>,
    st: State,
    e: EvalError,
)
    requires
        0 <= i < body.len(),
        eval(fuel, body[i], st).0 == Err::<Val, EvalError>(e),
        e != EvalError::EmptyIf,
    ensures
        run_block(fuel, body, i, stop_on_return, acc, st) == (
            Err::<Val, EvalError>(e),
            eval(fuel, body[i], st).1,
        ),
{
    assert(ends_block(Err(e)));
}

/// A run of class `k` from `p` to `e` that the next character does not
/// continue ends at `e`.
proof fn lemma_span(s: Seq<char>, p: int, e: int, k: CharClass)
    requires
        0 <= p <= e <= s.len(),
        forall|j: int| p <= j < e ==> in_class(#[trigger] s[j], k),
        e == s.len() || !in_class(s[e], k),
    ensures
        span_end(s, p, k) == e,
    decreases e - p,
{
    if p < e {
        lemma_span(s, p + 1, e, k);
    }
}

/// What follows an operand of a sum: the end, or a space and `+` or `-`.
pub open spec fn ends_operand(s: Seq<char>, e: int) -> bool {
    e == s.len() || (e + 1 < s.len() && s[e] == ' ' && (s[e + 1] == '+' || s[e + 1] == '-'))
}

/// A run of digits followed by the end or by ` +` / ` -` is a number at
/// every level above sums.
proof fn lemma_operand(s: Seq<char>, p: int, e: int)
    requires
        0 <= p < e <= s.len(),
        forall|j: int| p <= j < e ==> in_class(#[trigger] s[j], CharClass::Digit),
        ends_operand(s, e),
        decimal(s.subrange(p, e)) <= i32::MAX,
    ensures
        level(s, p, 2) == Ok::<(Ast, int), ParseError>(
            (Ast::Number(decimal(s.subrange(p, e)) as i32), e),
        ),
{
    let v = Ast::Number(decimal(s.subrange(p, e)) as i32);
    assert forall|j: int| p <= j < e implies in_class(#[trigger] s[j], CharClass::AlphaNum) by {
        assert(in_class(s[j], CharClass::Digit));
    }
    lemma_span(s, p, e, CharClass::AlphaNum);
    lemma_span(s, p, e, CharClass::Digit);
    assert(crate::grammar::function_call(s, p) == Err::<(Ast, int), ParseError>(ParseError::NoMatch));
    assert(crate::grammar::number(s, p) == Ok::<(Ast, int), ParseError>((v, e)));
    assert(level(s, p, 4) == Ok::<(Ast, int), ParseError>((v, e)));
    let a = if e == s.len() { e } else { e + 1 };
    lemma_span(s, e, a, CharClass::Space);
    assert(infix(s, e, 3) == Err::<(Ast, int), ParseError>(ParseError::NoMatch));
    assert(level_tail(s, e, 3, Seq::empty()) == Ok::<(Seq<Ast>, int), ParseError>((Seq::empty(), e)));
    assert(level(s, p, 3) == Ok::<(Ast, int), ParseError>((v, e)));
    assert(infix(s, e, 2) == Err::<(Ast, int), ParseError>(ParseError::NoMatch));
    assert(level_tail(s, e, 2, Seq::empty()) == Ok::<(Seq<Ast>, int), ParseError>((Seq::empty(), e)));
}

/// A run of one or more decimal digits.
pub open spec fn is_digits(x: Seq<char>) -> bool {
    x.len() > 0 && forall|j: int| 0 <= j < x.len() ==> in_class(#[trigger] x[j], CharClass::Digit)
}

/// The text `a o1 b o2 c`, with one space around each operator.
pub open spec fn sum_text(a: Seq<char>, o1: char, b: Seq<char>, o2: char, c: Seq<char>) -> Seq<char> {
    a + seq![' ', o1, ' '] + b + seq![' ', o2, ' '] + c
}

/// Parsing `a o1 b o2 c`, for numbers `a`, `b`, `c` and operators `+` or
/// `-`, gives `a o1 (b o2 c)` and consumes the whole text.
pub proof fn lemma_parse_right_fold(a: Seq<char>, o1: char, b: Seq<char>, o2: char, c: Seq<char>)
    requires
        is_digits(a),
        is_digits(b),
        is_digits(c),
        decimal(a) <= i32::MAX,
        decimal(b) <= i32::MAX,
        decimal(c) <= i32::MAX,
        o1 == '+' || o1 == '-',
        o2 == '+' || o2 == '-',
    ensures
        level(sum_text(a, o1, b, o2, c), 0, 1) == Ok::<(Ast, int), ParseError>(
            (
                Ast::MathExpression(
                    seq![o1],
                    seq![
                        Ast::Number(decimal(a) as i32),
                        Ast::MathExpression(
                            seq![o2],
                            seq![Ast::Number(decimal(b) as i32), Ast::Number(decimal(c) as i32)],
                        ),
                    ],
                ),
                sum_text(a, o1, b, o2, c).len() as int,
            ),
        ),
{
    let s = sum_text(a, o1, b, o2, c);
    let ea = a.len() as int;
    let pb = ea + 3;
    let eb = pb + b.len();
    let pc = eb + 3;
    let ec = s.len() as int;
    assert(ec == pc + c.len());
    assert forall|j: int| 0 <= j < ea implies s[j] == a[j] by {}
    assert forall|j: int| pb <= j < eb implies s[j] == b[j - pb] by {}
    assert forall|j: int| pc <= j < ec implies s[j] == c[j - pc] by {}
    assert(s[ea] == ' ' && s[ea + 1] == o1 && s[ea + 2] == ' ');
    assert(s[eb] == ' ' && s[eb + 1] == o2 && s[eb + 2] == ' ');
    assert(s.subrange(0, ea) =~= a);
    assert(s.subrange(pb, eb) =~= b);
    assert(s.subrange(pc, ec) =~= c);
    assert forall|j: int| 0 <= j < ea implies in_class(#[trigger] s[j], CharClass::Digit) by {
        assert(in_class(a[j], CharClass::Digit));
    }
    assert forall|j: int| pb <= j < eb implies in_class(#[trigger] s[j], CharClass::Digit) by {
        assert(in_class(b[j - pb], CharClass::Digit));
    }
    assert forall|j: int| pc <= j < ec implies in_class(#[trigger] s[j], CharClass::Digit) by {
        assert(in_class(c[j - pc], CharClass::Digit));
    }
    let na = Ast::Number(decimal(a) as i32);
    let nb = Ast::Number(decimal(b) as i32);
    let nc = Ast::Number(decimal(c) as i32);
    lemma_operand(s, 0, ea);
    lemma_operand(s, pb, eb);
    lemma_operand(s, pc, ec);
    assert(in_class(s[pb], CharClass::Digit));
    assert(in_class(s[pc], CharClass::Digit));
    lemma_span(s, ea, ea + 1, CharClass::Space);
    lemma_span(s, ea + 2, pb, CharClass::Space);
    let m1 = Ast::MathExpression(seq![o1], seq![nb]);
    assert(seq![s[ea + 1]] == seq![o1]);
    assert(infix(s, ea, 1) == Ok::<(Ast, int), ParseError>((m1, eb)));
    lemma_span(s, eb, eb + 1, CharClass::Space);
    lemma_span(s, eb + 2, pc, CharClass::Space);
    let m2 = Ast::MathExpression(seq![o2], seq![nc]);
    assert(seq![s[eb + 1]] == seq![o2]);
    assert(infix(s, eb, 1) == Ok::<(Ast, int), ParseError>((m2, ec)));
    lemma_span(s, ec, ec, CharClass::Space);
    assert(infix(s, ec, 1) == Err::<(Ast, int), ParseError>(ParseError::NoMatch));
    let t = seq![m1, m2];
    assert(Seq::<Ast>::empty().push(m1) =~= seq![m1]);
    assert(seq![m1].push(m2) =~= t);
    assert(level_tail(s, ec, 1, t) == Ok::<(Seq<Ast>, int), ParseError>((t, ec)));
    assert(level_tail(s, eb, 1, seq![m1]) == Ok::<(Seq<Ast>, int), ParseError>((t, ec)));
    assert(level_tail(s, ea, 1, Seq::empty()) == Ok::<(Seq<Ast>, int), ParseError>((t, ec)));
    lemma_right_fold(na, nb, nc, seq![o1], seq![o2]);
}

} // verus!
