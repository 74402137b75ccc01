//! The evaluator: a function table, a stack of scope frames, and the record of
//! what `print` emitted.

use vstd::prelude::*;
use crate::ast::{ast_of, asts_of, clone_nodes, lemma_asts_of, Ast, Node, Val, Value};

verus! {

/// How deeply evaluation may nest before it gives up with `DepthExceeded`,
/// counted in nodes: each operand of an arithmetic chain, each wrapper node
/// and each call adds one level. A call in `return f(n);` costs four levels,
/// so about 500 nested calls fit; deeper recursion ends in `DepthExceeded`
/// rather than in exhausting the native stack. `Runtime::run_limited` takes
/// another bound.
pub const MAX_DEPTH: usize = 2000;

/// Why an evaluation failed.
#[derive(Debug, Clone, Copy, PartialEq, Eq, Structural)]
pub enum EvalError {
    /// Arithmetic on a value that is not a number.
    TypeMismatch,
    /// An operator that neither arithmetic nor comparison knows.
    UndefinedOperator,
    /// A name with no binding in the current frame.
    UndefinedVariable,
    /// A call of a name with no registered function.
    UndefinedFunction,
    /// A statement wrapper around something that is not a statement.
    UnknownStatement,
    /// An expression wrapper around something that is not an expression.
    UnknownExpression,
    /// An `if` whose condition is not a boolean.
    NonBooleanCondition,
    /// An `if` whose body did not run.
    EmptyIf,
    /// A node that cannot be evaluated on its own.
    UnhandledNode,
    /// A node with fewer children than its kind needs.
    MalformedNode,
    /// A call with fewer arguments than the function has parameters.
    MissingArgument,
    /// A variable definition with no frame to hold it.
    NoFrame,
    /// Division by zero.
    DivisionByZero,
    /// An arithmetic result outside the range of `i32`.
    Overflow,
    /// Evaluation nested deeper than `MAX_DEPTH`.
    DepthExceeded,
}

/// A registered function: its name, its parameter expressions and its body.
pub struct FunctionDef {
    name: String,
    params: Vec<Node>,
    body: Vec<Node>,
}

/// A variable bound in a frame.
pub struct Binding {
    name: String,
    value: Value,
}

impl View for FunctionDef {
    type V = (Seq<char>, (Seq<Ast>, Seq<Ast>));

    closed spec fn view(&self) -> Self::V {
        (self.name@, (asts_of(self.params@), asts_of(self.body@)))
    }
}

impl View for Binding {
    type V = (Seq<char>, Val);

    closed spec fn view(&self) -> Self::V {
        (self.name@, self.value@)
    }
}

/// A scope frame as a sequence of bindings; a later binding hides an earlier one.
pub type Frame = Seq<(Seq<char>, Val)>;

/// The model of the evaluator's state.
pub struct State {
    /// Registered functions; a later registration hides an earlier one.
    pub functions: Seq<(Seq<char>, (Seq<Ast>, Seq<Ast>))>,
    /// Scope frames, innermost last.
    pub stack: Seq<Frame>,
    /// The values that `print` emitted, in order.
    pub output: Seq<Val>,
}

/// The evaluator's state.
pub struct Runtime {
    functions: Vec<FunctionDef>,
    stack: Vec<Vec<Binding>>,
    output: Vec<Value>,
}

pub open spec fn frame_view(f: Vec<Binding>) -> Frame {
    f@.map_values(|b: Binding| b@)
}

impl View for Runtime {
    type V = State;

    closed spec fn view(&self) -> State {
        State {
            functions: self.functions@.map_values(|d: FunctionDef| d@),
            stack: self.stack@.map_values(|f: Vec<Binding>| frame_view(f)),
            output: self.output@.map_values(|v: Value| v@),
        }
    }
}

/// The value bound to `k` by the last entry of `s` with that key.
pub open spec fn lookup<V>(s: Seq<(Seq<char>, V)>, k: Seq<char>) -> Option<V>
    decreases s.len(),
{
    if s.len() == 0 {
        None
    } else if s.last().0 == k {
        Some(s.last().1)
    } else {
        lookup(s.drop_last(), k)
    }
}

pub open spec fn res_view(r: Result<Value, EvalError>) -> Result<Val, EvalError> {
    match r {
        Ok(v) => Ok(v@),
        Err(e) => Err(e),
    }
}

pub open spec fn fits(x: int) -> bool {
    i32::MIN <= x <= i32::MAX
}

pub open spec fn checked(x: int) -> Result<Val, EvalError> {
    if fits(x) {
        Ok(Val::Num(x as i32))
    } else {
        Err(EvalError::Overflow)
    }
}

/// Integer division rounded toward zero.
pub open spec fn div_toward_zero(x: int, d: int) -> int {
    let q = (if x < 0 { -x } else { x }) / (if d < 0 { -d } else { d });
    if (x < 0) != (d < 0) {
        -q
    } else {
        q
    }
}

/// `acc` multiplied by `b`, `e` times, failing as soon as a product leaves `i32`.
pub open spec fn power_from(b: int, e: int, acc: int) -> Option<int>
    decreases e,
{
    if e <= 0 {
        Some(acc)
    } else if fits(acc * b) {
        power_from(b, e - 1, acc * b)
    } else {
        None
    }
}

/// The result of operator `op` on numbers `a` and `b`. Division rounds toward
/// zero; `^` multiplies repeatedly, so a negative exponent gives 1, the empty
/// product. A result outside `i32` is `Overflow`.
pub open spec fn arith(op: Seq<char>, a: int, b: int) -> Result<Val, EvalError> {
    if op == "+"@ {
        checked(a + b)
    } else if op == "-"@ {
        checked(a - b)
    } else if op == "*"@ {
        checked(a * b)
    } else if op == "/"@ {
        if b == 0 {
            Err(EvalError::DivisionByZero)
        } else {
            checked(div_toward_zero(a, b))
        }
    } else if op == "^"@ {
        match power_from(a, b, 1) {
            Some(p) => Ok(Val::Num(p as i32)),
            None => Err(EvalError::Overflow),
        }
    } else {
        Err(EvalError::UndefinedOperator)
    }
}

/// The result of a binary arithmetic node whose operands evaluated to `l` and `r`.
pub open spec fn math(op: Seq<char>, l: Val, r: Val) -> Result<Val, EvalError> {
    match (l, r) {
        (Val::Num(a), Val::Num(b)) => arith(op, a as int, b as int),
        _ => Err(EvalError::TypeMismatch),
    }
}

/// The result of a comparison whose sides evaluated to `l` and `r`.
pub open spec fn compare(op: Seq<char>, l: Val, r: Val) -> Result<Val, EvalError> {
    if op == "=="@ {
        Ok(Val::Bool(l == r))
    } else if op == "!="@ {
        Ok(Val::Bool(l != r))
    } else {
        Err(EvalError::UndefinedOperator)
    }
}

/// The argument expressions of a call node's children.
pub open spec fn call_args(ch: Seq<Ast>) -> Seq<Ast> {
    if ch.len() > 0 && ch[0] is FunctionArguments {
        ch[0]->FunctionArguments_0
    } else {
        ch
    }
}

/// The variable that a parameter expression names, if it names one.
pub open spec fn param_name(p: Ast) -> Option<Seq<char>> {
    match p {
        Ast::Expression(c) => if c.len() > 0 && c[0] is Identifier {
            Some(c[0]->Identifier_0)
        } else {
            None
        },
        _ => None,
    }
}

/// A statement that wraps a return.
pub open spec fn is_return(n: Ast) -> bool {
    match n {
        Ast::Statement(c) => c.len() > 0 && c[0] is FunctionReturn,
        _ => false,
    }
}

/// The stack without its innermost frame; an empty stack stays empty.
pub open spec fn pop_frame(stack: Seq<Frame>) -> Seq<Frame> {
    if stack.len() > 0 {
        stack.drop_last()
    } else {
        stack
    }
}

pub open spec fn with_function(st: State, name: Seq<char>, params: Seq<Ast>, body: Seq<Ast>) -> State {
    State { functions: st.functions.push((name, (params, body))), ..st }
}

/// Registration of a function definition with children `ch`: the name, then
/// the parameter list, then the body.
pub open spec fn define(ch: Seq<Ast>, st: State) -> State {
    if ch.len() > 0 && ch[0] is Identifier {
        if ch.len() > 1 && ch[1] is FunctionArguments {
            with_function(st, ch[0]->Identifier_0, ch[1]->FunctionArguments_0, ch.subrange(2, ch.len() as int))
        } else {
            with_function(st, ch[0]->Identifier_0, Seq::empty(), ch.subrange(1, ch.len() as int))
        }
    } else {
        st
    }
}

/// The entry function's name.
pub open spec fn main_name() -> Seq<char> {
    "main"@
}

/// Registration of one top-level child of a program: a definition registers
/// itself, a bare expression or statement becomes the body of `main`.
pub open spec fn register_one(n: Ast, st: State) -> State {
    match n {
        Ast::FunctionDefine(ch) => define(ch, st),
        Ast::Expression(_) => with_function(st, main_name(), Seq::empty(), seq![Ast::FunctionReturn(seq![n])]),
        Ast::Statement(_) => with_function(st, main_name(), Seq::empty(), seq![n]),
        _ => st,
    }
}

pub open spec fn register_all(ch: Seq<Ast>, st: State) -> State
    decreases ch.len(),
{
    if ch.len() == 0 {
        st
    } else {
        register_one(ch.last(), register_all(ch.drop_last(), st))
    }
}

/// What running a whole program gives: the tree is evaluated to register its
/// functions, then `main` is called with no arguments. The result of that
/// call (or the failure of the first step) and the values printed.
pub open spec fn outcome(n: Ast) -> (Result<Val, EvalError>, Seq<Val>) {
    let (r0, s0) = eval(MAX_DEPTH as nat, n, empty_state());
    match r0 {
        Err(e) => (Err(e), s0.output),
        Ok(_) => {
            let (r, s) = eval(MAX_DEPTH as nat, Ast::FunctionCall(main_name(), Seq::empty()), s0);
            (r, s.output)
        },
    }
}

/// Evaluation of `n` in state `st`, nesting at most `fuel` deep: the result and
/// the state after it.
pub open spec fn eval(fuel: nat, n: Ast, st: State) -> (Result<Val, EvalError>, State)
    decreases fuel, 0int,
{
    if fuel == 0 {
        (Err(EvalError::DepthExceeded), st)
    } else {
        let f = (fuel - 1) as nat;
        match n {
            Ast::Program(ch) => (Ok(Val::Bool(true)), register_all(ch, st)),
            Ast::FunctionDefine(ch) => (Ok(Val::Bool(true)), define(ch, st)),
            Ast::MathExpression(op, ch) => if ch.len() < 2 {
                (Err(EvalError::MalformedNode), st)
            } else {
                match eval(f, ch[0], st) {
                    (Err(e), s1) => (Err(e), s1),
                    (Ok(l), s1) => match eval(f, ch[1], s1) {
                        (Err(e), s2) => (Err(e), s2),
                        (Ok(r), s2) => (math(op, l, r), s2),
                    },
                }
            },
            Ast::Conditional(op, ch) => if ch.len() < 2 {
                (Err(EvalError::MalformedNode), st)
            } else {
                match eval(f, ch[0], st) {
                    (Err(e), s1) => (Err(e), s1),
                    (Ok(l), s1) => match eval(f, ch[1], s1) {
                        (Err(e), s2) => (Err(e), s2),
                        (Ok(r), s2) => (compare(op, l, r), s2),
                    },
                }
            },
            Ast::FunctionCall(name, ch) => {
                let args = call_args(ch);
                if name == "print"@ {
                    if args.len() == 0 {
                        (Err(EvalError::MissingArgument), st)
                    } else {
                        match eval(f, args[0], st) {
                            (Err(e), s1) => (Err(e), s1),
                            (Ok(v), s1) => (Ok(v), State { output: s1.output.push(v), ..s1 }),
                        }
                    }
                } else {
                    match lookup(st.functions, name) {
                        None => (Err(EvalError::UndefinedFunction), st),
                        Some(def) => match bind(f, def.0, args, 0, Seq::empty(), st) {
                            (Err(e), s1) => (Err(e), s1),
                            (Ok(frame), s1) => {
                                let entered = State { stack: s1.stack.push(frame), ..s1 };
                                let (r, s2) = run_block(f, def.1, 0, true, Err(EvalError::UndefinedFunction), entered);
                                (r, State { stack: pop_frame(s2.stack), ..s2 })
                            },
                        },
                    }
                }
            },
            Ast::IfStatement(ch) => if ch.len() == 0 {
                (Err(EvalError::MalformedNode), st)
            } else {
                match eval(f, ch[0], st) {
                    (Err(e), s1) => (Err(e), s1),
                    (Ok(Val::Bool(b)), s1) => if b {
                        run_block(f, ch, 1, true, Err(EvalError::EmptyIf), s1)
                    } else {
                        (Err(EvalError::EmptyIf), s1)
                    },
                    (Ok(_), s1) => (Err(EvalError::NonBooleanCondition), s1),
                }
            },
            Ast::FunctionReturn(ch) => if ch.len() == 0 {
                (Err(EvalError::MalformedNode), st)
            } else {
                eval(f, ch[0], st)
            },
            Ast::Identifier(v) => if st.stack.len() == 0 {
                (Err(EvalError::UndefinedVariable), st)
            } else {
                match lookup(st.stack.last(), v) {
                    Some(x) => (Ok(x), st),
                    None => (Err(EvalError::UndefinedVariable), st),
                }
            },
            Ast::Statement(ch) => if ch.len() > 0 && (ch[0] is VariableDefine || ch[0] is FunctionReturn
                || ch[0] is IfStatement || ch[0] is FunctionCall) {
                eval(f, ch[0], st)
            } else {
                (Err(EvalError::UnknownStatement), st)
            },
            Ast::VariableDefine(ch) => if ch.len() < 2 {
                (Err(EvalError::MalformedNode), st)
            } else {
                let name = if ch[0] is Identifier { ch[0]->Identifier_0 } else { Seq::empty() };
                match eval(f, ch[1], st) {
                    (Err(e), s1) => (Err(e), s1),
                    (Ok(v), s1) => if s1.stack.len() == 0 {
                        (Err(EvalError::NoFrame), s1)
                    } else {
                        let top = s1.stack.len() - 1;
                        (Ok(v), State { stack: s1.stack.update(top, s1.stack[top].push((name, v))), ..s1 })
                    },
                }
            },
            Ast::Expression(ch) => if ch.len() > 0 && (ch[0] is MathExpression || ch[0] is Number
                || ch[0] is FunctionCall || ch[0] is Str || ch[0] is Bool || ch[0] is Identifier) {
                eval(f, ch[0], st)
            } else {
                (Err(EvalError::UnknownExpression), st)
            },
            Ast::Number(v) => (Ok(Val::Num(v)), st),
            Ast::Str(s) => (Ok(Val::Str(s)), st),
            Ast::Bool(b) => (Ok(Val::Bool(b)), st),
            _ => (Err(EvalError::UnhandledNode), st),
        }
    }
}

/// Binding of parameters `params[i..]` to the values of `args[i..]`, each
/// argument evaluated in turn in the caller's state.
pub open spec fn bind(fuel: nat, params: Seq<Ast>, args: Seq<Ast>, i: int, frame: Frame, st: State) -> (
    Result<Frame, EvalError>,
    State,
)
    decreases fuel, params.len() - i,
{
    if i >= params.len() {
        (Ok(frame), st)
    } else if i >= args.len() {
        (Err(EvalError::MissingArgument), st)
    } else {
        match eval(fuel, args[i], st) {
            (Err(e), s1) => (Err(e), s1),
            (Ok(v), s1) => {
                let next = match param_name(params[i]) {
                    Some(nm) => frame.push((nm, v)),
                    None => frame,
                };
                bind(fuel, params, args, i + 1, next, s1)
            },
        }
    }
}

/// A statement result that ends the block it stands in: any failure but `EmptyIf`.
pub open spec fn ends_block(r: Result<Val, EvalError>) -> bool {
    match r {
        Err(e) => e != EvalError::EmptyIf,
        Ok(_) => false,
    }
}

/// Evaluation of `body[i..]` in order; the result is that of the last
/// statement run, or `acc` where none runs. With `stop_on_return`, a return
/// statement ends the block. A statement that fails ends the block with its
/// failure, except `EmptyIf`: an `if` whose body did not run is replaced by
/// the result of the statements after it, if any.
pub open spec fn run_block(
    fuel: nat,
    body: Seq<Ast>,
    i: int,
    stop_on_return: bool,
    acc: Result<Val, EvalError>,
    st: State,
) -> (Result<Val, EvalError>, State)
    decreases fuel, body.len() - i,
{
    if i >= body.len() || i < 0 {
        (acc, st)
    } else {
        let (r, s1) = eval(fuel, body[i], st);
        if stop_on_return && is_return(body[i]) || ends_block(r) {
            (r, s1)
        } else {
            run_block(fuel, body, i + 1, stop_on_return, r, s1)
        }
    }
}

pub open spec fn empty_state() -> State {
    State { functions: Seq::empty(), stack: Seq::empty(), output: Seq::empty() }
}

pub open spec fn frame_res(r: Result<Vec<Binding>, EvalError>) -> Result<Frame, EvalError> {
    match r {
        Ok(f) => Ok(frame_view(f)),
        Err(e) => Err(e),
    }
}

/// Whether `s` holds exactly the characters of `lit`.
fn str_is(s: &String, lit: &str) -> (r: bool)
    ensures
        r == (s@ == lit@),
{
    let t = lit.to_owned();
    s.eq(&t)
}

/// `b` raised to `e` by repeated multiplication, failing on overflow.
fn power(b: i32, e: i32) -> (r: Result<Value, EvalError>)
    ensures
        res_view(r) == (match power_from(b as int, e as int, 1) {
            Some(p) => Ok(Val::Num(p as i32)),
            None => Err::<Val, EvalError>(EvalError::Overflow),
        }),
{
    let mut acc: i32 = 1;
    let mut i: i32 = 0;
    while i < e
        invariant
            0 <= i,
            e >= 0 ==> i <= e,
            power_from(b as int, e as int, 1) == power_from(b as int, e - i, acc as int),
        decreases e - i,
    {
        match acc.checked_mul(b) {
            Some(p) => {
                acc = p;
            },
            None => {
                return Err(EvalError::Overflow);
            },
        }
        i += 1;
    }
    Ok(Value::Number(acc))
}

fn arith_exec(op: &String, a: i32, b: i32) -> (r: Result<Value, EvalError>)
    ensures
        res_view(r) == arith(op@, a as int, b as int),
{
    let res = if str_is(op, "+") {
        a.checked_add(b)
    } else if str_is(op, "-") {
        a.checked_sub(b)
    } else if str_is(op, "*") {
        a.checked_mul(b)
    } else if str_is(op, "/") {
        if b == 0 {
            return Err(EvalError::DivisionByZero);
        }
        a.checked_div(b)
    } else if str_is(op, "^") {
        return power(a, b);
    } else {
        return Err(EvalError::UndefinedOperator);
    };
    match res {
        Some(x) => Ok(Value::Number(x)),
        None => Err(EvalError::Overflow),
    }
}

fn math_exec(op: &String, l: &Value, r: &Value) -> (res: Result<Value, EvalError>)
    ensures
        res_view(res) == math(op@, l@, r@),
{
    match (l, r) {
        (Value::Number(a), Value::Number(b)) => arith_exec(op, *a, *b),
        _ => Err(EvalError::TypeMismatch),
    }
}

fn compare_exec(op: &String, l: &Value, r: &Value) -> (res: Result<Value, EvalError>)
    ensures
        res_view(res) == compare(op@, l@, r@),
{
    if str_is(op, "==") {
        Ok(Value::Bool(l.eq(r)))
    } else if str_is(op, "!=") {
        Ok(Value::Bool(!l.eq(r)))
    } else {
        Err(EvalError::UndefinedOperator)
    }
}

fn call_args_exec(ch: &Vec<Node>) -> (r: &Vec<Node>)
    ensures
        asts_of(r@) == call_args(asts_of(ch@)),
{
    proof {
        lemma_asts_of(ch@);
    }
    if ch.len() > 0 {
        match &ch[0] {
            Node::FunctionArguments { children } => children,
            _ => ch,
        }
    } else {
        ch
    }
}

fn param_name_exec(p: &Node) -> (r: Option<String>)
    ensures
        match r {
            Some(s) => param_name(p@) == Some(s@),
            None => param_name(p@) is None,
        },
{
    match p {
        Node::Expression { children } => {
            proof {
                lemma_asts_of(children@);
            }
            if children.len() > 0 {
                match &children[0] {
                    Node::Identifier { value } => Some(value.clone()),
                    _ => None,
                }
            } else {
                None
            }
        },
        _ => None,
    }
}

fn is_return_exec(n: &Node) -> (r: bool)
    ensures
        r == is_return(n@),
{
    match n {
        Node::Statement { children } => {
            proof {
                lemma_asts_of(children@);
            }
            children.len() > 0 && matches!(children[0], Node::FunctionReturn { .. })
        },
        _ => false,
    }
}

fn find_binding(frame: &Vec<Binding>, name: &String) -> (r: Option<usize>)
    ensures
        match r {
            Some(i) => i < frame.len() && lookup(frame_view(*frame), name@) == Some(frame@[i as int].value@),
            None => lookup(frame_view(*frame), name@) is None,
        },
{
    let ghost fs = frame_view(*frame);
    let mut i = frame.len();
    proof {
        assert(fs.subrange(0, i as int) =~= fs);
    }
    while i > 0
        invariant
            i <= frame.len(),
            fs == frame_view(*frame),
            lookup(fs, name@) == lookup(fs.subrange(0, i as int), name@),
        decreases i,
    {
        if frame[i - 1].name.eq(name) {
            return Some(i - 1);
        }
        proof {
            assert(fs.subrange(0, i as int).drop_last() =~= fs.subrange(0, i - 1));
        }
        i -= 1;
    }
    None
}

impl Runtime {
    /// A runtime with no functions, no frames and no output.
    pub fn new() -> (r: Runtime)
        ensures
            r@ == empty_state(),
    {
        let r = Runtime { functions: Vec::new(), stack: Vec::new(), output: Vec::new() };
        proof {
            assert(r@.functions =~= Seq::empty());
            assert(r@.stack =~= Seq::empty());
            assert(r@.output =~= Seq::empty());
        }
        r
    }

    /// The values that `print` emitted so far, in order.
    pub fn output(&self) -> (r: &Vec<Value>)
        ensures
            r@.map_values(|v: Value| v@) == self@.output,
    {
        &self.output
    }

    fn find_function(&self, name: &String) -> (r: Option<usize>)
        ensures
            match r {
                Some(i) => i < self.functions.len() && lookup(self@.functions, name@) == Some(
                    self.functions@[i as int]@.1,
                ),
                None => lookup(self@.functions, name@) is None,
            },
    {
        let ghost fs = self@.functions;
        let mut i = self.functions.len();
        proof {
            assert(fs.subrange(0, i as int) =~= fs);
        }
        while i > 0
            invariant
                i <= self.functions.len(),
                fs == self@.functions,
                lookup(fs, name@) == lookup(fs.subrange(0, i as int), name@),
            decreases i,
        {
            if self.functions[i - 1].name.eq(name) {
                return Some(i - 1);
            }
            proof {
                assert(fs.subrange(0, i as int).drop_last() =~= fs.subrange(0, i - 1));
            }
            i -= 1;
        }
        None
    }

    fn add_function(&mut self, name: String, params: Vec<Node>, body: Vec<Node>)
        ensures
            final(self)@ == with_function(old(self)@, name@, asts_of(params@), asts_of(body@)),
    {
        let d = FunctionDef { name, params, body };
        self.functions.push(d);
        proof {
            assert(self@.functions =~= old(self)@.functions.push(d@));
        }
    }

    fn define(&mut self, ch: &Vec<Node>)
        ensures
            final(self)@ == define(asts_of(ch@), old(self)@),
    {
        proof {
            lemma_asts_of(ch@);
        }
        if ch.len() > 0 {
            match &ch[0] {
                Node::Identifier { value } => {
                    let name = value.clone();
                    if ch.len() > 1 {
                        match &ch[1] {
                            Node::FunctionArguments { children } => {
                                let params = clone_nodes(children, 0);
                                let body = clone_nodes(ch, 2);
                                self.add_function(name, params, body);
                                return;
                            },
                            _ => {},
                        }
                    }
                    let body = clone_nodes(ch, 1);
                    let params: Vec<Node> = Vec::new();
                    proof {
                        assert(asts_of(params@) =~= Seq::<Ast>::empty());
                    }
                    self.add_function(name, params, body);
                },
                _ => {},
            }
        }
    }

    fn register_one(&mut self, n: &Node)
        ensures
            final(self)@ == register_one(n@, old(self)@),
    {
        match n {
            Node::FunctionDefine { children } => self.define(children),
            Node::Expression { .. } => {
                let inner = vec![n.deep_clone()];
                let wrapped = Node::FunctionReturn { children: inner };
                let body = vec![wrapped];
                let params: Vec<Node> = Vec::new();
                proof {
                    lemma_asts_of(inner@);
                    lemma_asts_of(body@);
                    assert(asts_of(inner@) =~= seq![n@]);
                    assert(asts_of(body@) =~= seq![Ast::FunctionReturn(seq![n@])]);
                    assert(asts_of(params@) =~= Seq::<Ast>::empty());
                }
                self.add_function("main".to_owned(), params, body);
            },
            Node::Statement { .. } => {
                let body = vec![n.deep_clone()];
                let params: Vec<Node> = Vec::new();
                proof {
                    lemma_asts_of(body@);
                    assert(asts_of(body@) =~= seq![n@]);
                    assert(asts_of(params@) =~= Seq::<Ast>::empty());
                }
                self.add_function("main".to_owned(), params, body);
            },
            _ => {},
        }
    }

    fn register_all(&mut self, ch: &Vec<Node>)
        ensures
            final(self)@ == register_all(asts_of(ch@), old(self)@),
    {
        let ghost cs = asts_of(ch@);
        proof {
            lemma_asts_of(ch@);
        }
        let mut i: usize = 0;
        while i < ch.len()
            invariant
                i <= ch.len(),
                cs == asts_of(ch@),
                cs.len() == ch.len(),
                forall|j: int| 0 <= j < ch.len() ==> #[trigger] cs[j] == ast_of(ch@[j]),
                self@ == register_all(cs.subrange(0, i as int), old(self)@),
            decreases ch.len() - i,
        {
            self.register_one(&ch[i]);
            proof {
                assert(cs.subrange(0, i + 1).drop_last() =~= cs.subrange(0, i as int));
            }
            i += 1;
        }
        proof {
            assert(cs.subrange(0, ch.len() as int) =~= cs);
        }
    }
    /// Evaluates `node`, nesting at most `MAX_DEPTH` deep.
    pub fn run(&mut self, node: &Node) -> (r: Result<Value, EvalError>)
        ensures
            res_view(r) == eval(MAX_DEPTH as nat, node@, old(self)@).0,
            final(self)@ == eval(MAX_DEPTH as nat, node@, old(self)@).1,
    {
        self.eval(node, MAX_DEPTH)
    }

    /// Evaluates `node`, nesting at most `depth` deep.
    pub fn run_limited(&mut self, node: &Node, depth: usize) -> (r: Result<Value, EvalError>)
        ensures
            res_view(r) == eval(depth as nat, node@, old(self)@).0,
            final(self)@ == eval(depth as nat, node@, old(self)@).1,
    {
        self.eval(node, depth)
    }

    fn eval(&mut self, node: &Node, fuel: usize) -> (r: Result<Value, EvalError>)
        ensures
            res_view(r) == eval(fuel as nat, node@, old(self)@).0,
            final(self)@ == eval(fuel as nat, node@, old(self)@).1,
        decreases fuel, 1int,
    {
        if fuel == 0 {
            return Err(EvalError::DepthExceeded);
        }
        let f = fuel - 1;
        match node {
            Node::Program { children } => {
                self.register_all(children);
                Ok(Value::Bool(true))
            },
            Node::FunctionDefine { children } => {
                self.define(children);
                Ok(Value::Bool(true))
            },
            Node::MathExpression { name, children } => self.eval_math(name, children, f),
            Node::Conditional { name, children } => self.eval_compare(name, children, f),
            Node::FunctionCall { name, children } => self.eval_call(name, children, f),
            Node::IfStatement { children } => self.eval_if(children, f),
            Node::FunctionReturn { children } => {
                proof {
                    lemma_asts_of(children@);
                }
                if children.len() == 0 {
                    return Err(EvalError::MalformedNode);
                }
                self.eval(&children[0], f)
            },
            Node::Identifier { value } => {
                let n = self.stack.len();
                if n == 0 {
                    return Err(EvalError::UndefinedVariable);
                }
                match find_binding(&self.stack[n - 1], value) {
                    Some(j) => Ok(self.stack[n - 1][j].value.clone()),
                    None => Err(EvalError::UndefinedVariable),
                }
            },
            Node::Statement { children } => {
                proof {
                    lemma_asts_of(children@);
                }
                if children.len() > 0 && (matches!(children[0], Node::VariableDefine { .. })
                    || matches!(children[0], Node::FunctionReturn { .. })
                    || matches!(children[0], Node::IfStatement { .. })
                    || matches!(children[0], Node::FunctionCall { .. })) {
                    self.eval(&children[0], f)
                } else {
                    Err(EvalError::UnknownStatement)
                }
            },
            Node::VariableDefine { children } => self.eval_var(children, f),
            Node::Expression { children } => {
                proof {
                    lemma_asts_of(children@);
                }
                if children.len() > 0 && (matches!(children[0], Node::MathExpression { .. })
                    || matches!(children[0], Node::Number { .. })
                    || matches!(children[0], Node::FunctionCall { .. })
                    || matches!(children[0], Node::String { .. })
                    || matches!(children[0], Node::Bool { .. })
                    || matches!(children[0], Node::Identifier { .. })) {
                    self.eval(&children[0], f)
                } else {
                    Err(EvalError::UnknownExpression)
                }
            },
            Node::Number { value } => Ok(Value::Number(*value)),
            Node::String { value } => Ok(Value::String(value.clone())),
            Node::Bool { value } => Ok(Value::Bool(*value)),
            _ => Err(EvalError::UnhandledNode),
        }
    }

    fn eval_call(&mut self, name: &String, children: &Vec<Node>, f: usize) -> (r: Result<Value, EvalError>)
        ensures
            res_view(r) == eval(f as nat + 1, Ast::FunctionCall(name@, asts_of(children@)), old(self)@).0,
            final(self)@ == eval(f as nat + 1, Ast::FunctionCall(name@, asts_of(children@)), old(self)@).1,
        decreases f + 1, 0int,
    {
        let args = call_args_exec(children);
        proof {
            lemma_asts_of(args@);
        }
        if str_is(name, "print") {
            if args.len() == 0 {
                return Err(EvalError::MissingArgument);
            }
            let v = match self.eval(&args[0], f) {
                Ok(v) => v,
                Err(e) => return Err(e),
            };
            let ghost mid = self@;
            self.output.push(v.clone());
            proof {
                assert(self@.output =~= mid.output.push(v@));
                assert(self@.functions =~= mid.functions);
                assert(self@.stack =~= mid.stack);
            }
            Ok(v)
        } else {
            match self.find_function(name) {
                None => Err(EvalError::UndefinedFunction),
                Some(idx) => {
                    let params = clone_nodes(&self.functions[idx].params, 0);
                    let body = clone_nodes(&self.functions[idx].body, 0);
                    let frame = match self.bind(&params, args, f) {
                        Ok(fr) => fr,
                        Err(e) => return Err(e),
                    };
                    let ghost s1 = self@;
                    self.stack.push(frame);
                    proof {
                        assert(self@.stack =~= s1.stack.push(frame_view(frame)));
                    }
                    let r = self.run_block(&body, 0, true, EvalError::UndefinedFunction, f);
                    let ghost s2 = self@;
                    let _ = self.stack.pop();
                    proof {
                        assert(self@.stack =~= pop_frame(s2.stack));
                    }
                    r
                },
            }
        }
    }

    fn eval_if(&mut self, children: &Vec<Node>, f: usize) -> (r: Result<Value, EvalError>)
        ensures
            res_view(r) == eval(f as nat + 1, Ast::IfStatement(asts_of(children@)), old(self)@).0,
            final(self)@ == eval(f as nat + 1, Ast::IfStatement(asts_of(children@)), old(self)@).1,
        decreases f + 1, 0int,
    {
        proof {
            lemma_asts_of(children@);
        }
        if children.len() == 0 {
            return Err(EvalError::MalformedNode);
        }
        let c = match self.eval(&children[0], f) {
            Ok(v) => v,
            Err(e) => return Err(e),
        };
        match c {
            Value::Bool(b) => if b {
                self.run_block(children, 1, true, EvalError::EmptyIf, f)
            } else {
                Err(EvalError::EmptyIf)
            },
            _ => Err(EvalError::NonBooleanCondition),
        }
    }

    fn eval_var(&mut self, children: &Vec<Node>, f: usize) -> (r: Result<Value, EvalError>)
        ensures
            res_view(r) == eval(f as nat + 1, Ast::VariableDefine(asts_of(children@)), old(self)@).0,
            final(self)@ == eval(f as nat + 1, Ast::VariableDefine(asts_of(children@)), old(self)@).1,
        decreases f + 1, 0int,
    {
        proof {
            lemma_asts_of(children@);
        }
        if children.len() < 2 {
            return Err(EvalError::MalformedNode);
        }
        let name = match &children[0] {
            Node::Identifier { value } => value.clone(),
            _ => String::new(),
        };
        let v = match self.eval(&children[1], f) {
            Ok(v) => v,
            Err(e) => return Err(e),
        };
        let n = self.stack.len();
        if n == 0 {
            return Err(EvalError::NoFrame);
        }
        let ghost s1 = self@;
        let b = Binding { name, value: v.clone() };
        let mut top = self.stack.pop().unwrap();
        let ghost old_top = frame_view(top);
        top.push(b);
        proof {
            assert(frame_view(top) =~= old_top.push(b@));
        }
        self.stack.push(top);
        proof {
            assert(self@.stack =~= s1.stack.update(n - 1, s1.stack[n - 1].push((name@, v@))));
        }
        Ok(v)
    }

    fn eval_math(&mut self, name: &String, children: &Vec<Node>, f: usize) -> (r: Result<Value, EvalError>)
        ensures
            res_view(r) == eval(f as nat + 1, Ast::MathExpression(name@, asts_of(children@)), old(self)@).0,
            final(self)@ == eval(f as nat + 1, Ast::MathExpression(name@, asts_of(children@)), old(self)@).1,
        decreases f + 1, 0int,
    {
        proof {
            lemma_asts_of(children@);
        }
        if children.len() < 2 {
            return Err(EvalError::MalformedNode);
        }
        let l = match self.eval(&children[0], f) {
            Ok(v) => v,
            Err(e) => return Err(e),
        };
        let r = match self.eval(&children[1], f) {
            Ok(v) => v,
            Err(e) => return Err(e),
        };
        math_exec(name, &l, &r)
    }

    fn eval_compare(&mut self, name: &String, children: &Vec<Node>, f: usize) -> (r: Result<Value, EvalError>)
        ensures
            res_view(r) == eval(f as nat + 1, Ast::Conditional(name@, asts_of(children@)), old(self)@).0,
            final(self)@ == eval(f as nat + 1, Ast::Conditional(name@, asts_of(children@)), old(self)@).1,
        decreases f + 1, 0int,
    {
        proof {
            lemma_asts_of(children@);
        }
        if children.len() < 2 {
            return Err(EvalError::MalformedNode);
        }
        let l = match self.eval(&children[0], f) {
            Ok(v) => v,
            Err(e) => return Err(e),
        };
        let r = match self.eval(&children[1], f) {
            Ok(v) => v,
            Err(e) => return Err(e),
        };
        compare_exec(name, &l, &r)
    }

    fn bind(&mut self, params: &Vec<Node>, args: &Vec<Node>, fuel: usize) -> (r: Result<
        Vec<Binding>,
        EvalError,
    >)
        ensures
            frame_res(r) == bind(fuel as nat, asts_of(params@), asts_of(args@), 0, Seq::empty(), old(self)@).0,
            final(self)@ == bind(fuel as nat, asts_of(params@), asts_of(args@), 0, Seq::empty(), old(self)@).1,
        decreases fuel, 2int,
    {
        let ghost ps = asts_of(params@);
        let ghost xs = asts_of(args@);
        proof {
            lemma_asts_of(params@);
            lemma_asts_of(args@);
        }
        let mut frame: Vec<Binding> = Vec::new();
        proof {
            assert(frame_view(frame) =~= Seq::empty());
        }
        let mut i: usize = 0;
        while i < params.len()
            invariant
                i <= params.len(),
                ps == asts_of(params@),
                xs == asts_of(args@),
                ps.len() == params.len(),
                xs.len() == args.len(),
                forall|j: int| 0 <= j < params.len() ==> #[trigger] ps[j] == ast_of(params@[j]),
                forall|j: int| 0 <= j < args.len() ==> #[trigger] xs[j] == ast_of(args@[j]),
                bind(fuel as nat, ps, xs, 0, Seq::empty(), old(self)@) == bind(
                    fuel as nat,
                    ps,
                    xs,
                    i as int,
                    frame_view(frame),
                    self@,
                ),
            decreases params.len() - i,
        {
            if i >= args.len() {
                return Err(EvalError::MissingArgument);
            }
            let v = match self.eval(&args[i], fuel) {
                Ok(v) => v,
                Err(e) => return Err(e),
            };
            match param_name_exec(&params[i]) {
                Some(nm) => {
                    let ghost before = frame_view(frame);
                    let b = Binding { name: nm, value: v };
                    frame.push(b);
                    proof {
                        assert(frame_view(frame) =~= before.push(b@));
                    }
                },
                None => {},
            }
            i += 1;
        }
        Ok(frame)
    }

    fn run_block(
        &mut self,
        body: &Vec<Node>,
        start: usize,
        stop_on_return: bool,
        init: EvalError,
        fuel: usize,
    ) -> (r: Result<Value, EvalError>)
        ensures
            (res_view(r), final(self)@) == run_block(
                fuel as nat,
                asts_of(body@),
                start as int,
                stop_on_return,
                Err(init),
                old(self)@,
            ),
        decreases fuel, 2int,
    {
        let ghost bs = asts_of(body@);
        proof {
            lemma_asts_of(body@);
        }
        let mut acc: Result<Value, EvalError> = Err(init);
        let mut i: usize = start;
        while i < body.len()
            invariant
                bs == asts_of(body@),
                bs.len() == body.len(),
                forall|j: int| 0 <= j < body.len() ==> #[trigger] bs[j] == ast_of(body@[j]),
                run_block(fuel as nat, bs, start as int, stop_on_return, Err(init), old(self)@)
                    == run_block(fuel as nat, bs, i as int, stop_on_return, res_view(acc), self@),
            decreases body.len() - i,
        {
            let r = self.eval(&body[i], fuel);
            let fails = match &r {
                Err(e) => *e != EvalError::EmptyIf,
                Ok(_) => false,
            };
            if stop_on_return && is_return_exec(&body[i]) || fails {
                return r;
            }
            acc = r;
            i += 1;
        }
        acc
    }
}

/// Runs a parsed program: registers its functions, then calls `main`.
/// Returns the result of that call and the values that `print` emitted.
/// Evaluation nests at most `MAX_DEPTH` deep (about 500 nested calls).
pub fn run(node: &Node) -> (r: (Result<Value, EvalError>, Vec<Value>))
    ensures
        (res_view(r.0), r.1@.map_values(|v: Value| v@)) == outcome(node@),
{
    let mut rt = Runtime::new();
    match rt.run(node) {
        Err(e) => {
            return (Err(e), rt.output);
        },
        Ok(_) => {},
    }
    let no_args: Vec<Node> = Vec::new();
    proof {
        assert(asts_of(no_args@) =~= Seq::<Ast>::empty());
    }
    let start = Node::FunctionCall { name: "main".to_owned(), children: no_args };
    let r = rt.run(&start);
    (r, rt.output)
}

} // verus!
