//! The syntax tree, the runtime values, and their mathematical models.

use vstd::prelude::*;

verus! {

/// A node of the syntax tree produced by the parser.
#[derive(Debug)]
#[allow(inconsistent_fields)]
pub enum Node {
    Program { children: Vec<Node> },
    Statement { children: Vec<Node> },
    FunctionReturn { children: Vec<Node> },
    FunctionDefine { children: Vec<Node> },
    IfStatement { children: Vec<Node> },
    FunctionArguments { children: Vec<Node> },
    FunctionStatements { children: Vec<Node> },
    Expression { children: Vec<Node> },
    MathExpression { name: String, children: Vec<Node> },
    FunctionCall { name: String, children: Vec<Node> },
    VariableDefine { children: Vec<Node> },
    Number { value: i32 },
    Bool { value: bool },
    Identifier { value: String },
    String { value: String },
    Conditional { name: String, children: Vec<Node> },
}

/// The mathematical model of a `Node`: names and text as character sequences,
/// children as sequences of models.
pub enum Ast {
    Program(Seq<Ast>),
    Statement(Seq<Ast>),
    FunctionReturn(Seq<Ast>),
    FunctionDefine(Seq<Ast>),
    IfStatement(Seq<Ast>),
    FunctionArguments(Seq<Ast>),
    FunctionStatements(Seq<Ast>),
    Expression(Seq<Ast>),
    MathExpression(Seq<char>, Seq<Ast>),
    FunctionCall(Seq<char>, Seq<Ast>),
    VariableDefine(Seq<Ast>),
    Number(i32),
    Bool(bool),
    Identifier(Seq<char>),
    Str(Seq<char>),
    Conditional(Seq<char>, Seq<Ast>),
}

pub open spec fn ast_of(n: Node) -> Ast
    decreases n, 0nat,
{
    match n {
        Node::Program { children } => Ast::Program(asts_of(children@)),
        Node::Statement { children } => Ast::Statement(asts_of(children@)),
        Node::FunctionReturn { children } => Ast::FunctionReturn(asts_of(children@)),
        Node::FunctionDefine { children } => Ast::FunctionDefine(asts_of(children@)),
        Node::IfStatement { children } => Ast::IfStatement(asts_of(children@)),
        Node::FunctionArguments { children } => Ast::FunctionArguments(asts_of(children@)),
        Node::FunctionStatements { children } => Ast::FunctionStatements(asts_of(children@)),
        Node::Expression { children } => Ast::Expression(asts_of(children@)),
        Node::MathExpression { name, children } => Ast::MathExpression(name@, asts_of(children@)),
        Node::FunctionCall { name, children } => Ast::FunctionCall(name@, asts_of(children@)),
        Node::VariableDefine { children } => Ast::VariableDefine(asts_of(children@)),
        Node::Number { value } => Ast::Number(value),
        Node::Bool { value } => Ast::Bool(value),
        Node::Identifier { value } => Ast::Identifier(value@),
        Node::String { value } => Ast::Str(value@),
        Node::Conditional { name, children } => Ast::Conditional(name@, asts_of(children@)),
    }
}

pub open spec fn asts_of(s: Seq<Node>) -> Seq<Ast>
    decreases s, 1nat,
{
    if s.len() == 0 {
        Seq::empty()
    } else {
        asts_of(s.subrange(0, s.len() - 1)).push(ast_of(s[s.len() - 1]))
    }
}

impl View for Node {
    type V = Ast;

    open spec fn view(&self) -> Ast {
        ast_of(*self)
    }
}

/// The models of a sequence of nodes, element by element.
pub proof fn lemma_asts_of(s: Seq<Node>)
    ensures
        asts_of(s).len() == s.len(),
        forall|i: int| 0 <= i < s.len() ==> #[trigger] asts_of(s)[i] == ast_of(s[i]),
    decreases s.len(),
{
    if s.len() > 0 {
        lemma_asts_of(s.subrange(0, s.len() - 1));
    }
}

impl Node {
    /// A copy of the whole tree.
    pub fn deep_clone(&self) -> (r: Node)
        ensures
            r@ == self@,
        decreases self, 0nat,
    {
        match self {
            Node::Program { children } => Node::Program { children: clone_nodes(children, 0) },
            Node::Statement { children } => Node::Statement { children: clone_nodes(children, 0) },
            Node::FunctionReturn { children } => Node::FunctionReturn { children: clone_nodes(children, 0) },
            Node::FunctionDefine { children } => Node::FunctionDefine { children: clone_nodes(children, 0) },
            Node::IfStatement { children } => Node::IfStatement { children: clone_nodes(children, 0) },
            Node::FunctionArguments { children } => Node::FunctionArguments {
                children: clone_nodes(children, 0),
            },
            Node::FunctionStatements { children } => Node::FunctionStatements {
                children: clone_nodes(children, 0),
            },
            Node::Expression { children } => Node::Expression { children: clone_nodes(children, 0) },
            Node::MathExpression { name, children } => Node::MathExpression {
                name: name.clone(),
                children: clone_nodes(children, 0),
            },
            Node::FunctionCall { name, children } => Node::FunctionCall {
                name: name.clone(),
                children: clone_nodes(children, 0),
            },
            Node::VariableDefine { children } => Node::VariableDefine { children: clone_nodes(children, 0) },
            Node::Number { value } => Node::Number { value: *value },
            Node::Bool { value } => Node::Bool { value: *value },
            Node::Identifier { value } => Node::Identifier { value: value.clone() },
            Node::String { value } => Node::String { value: value.clone() },
            Node::Conditional { name, children } => Node::Conditional {
                name: name.clone(),
                children: clone_nodes(children, 0),
            },
        }
    }
}

impl Clone for Node {
    fn clone(&self) -> (r: Node)
        ensures
            r@ == self@,
    {
        self.deep_clone()
    }
}

/// Copies of the nodes `v[from..]`.
pub fn clone_nodes(v: &Vec<Node>, from: usize) -> (r: Vec<Node>)
    ensures
        from <= v.len() ==> asts_of(r@) == asts_of(v@).subrange(from as int, v.len() as int),
        from == 0 ==> asts_of(r@) == asts_of(v@),
    decreases v, 1nat,
{
    let mut r: Vec<Node> = Vec::new();
    let mut i: usize = from;
    proof {
        lemma_asts_of(v@);
        lemma_asts_of(r@);
    }
    while i < v.len()
        invariant
            from <= i <= v.len() || (i == from && from > v.len()),
            asts_of(v@).len() == v.len(),
            forall|j: int| 0 <= j < v.len() ==> #[trigger] asts_of(v@)[j] == ast_of(v@[j]),
            i <= v.len() ==> asts_of(r@) =~= asts_of(v@).subrange(from as int, i as int),
        decreases v.len() - i,
    {
        proof {
            assert(decreases_to!(v => v@));
            assert(decreases_to!(v@ => v@[i as int]));
        }
        let c = v[i].deep_clone();
        let ghost before = r@;
        r.push(c);
        proof {
            lemma_asts_of(before);
            lemma_asts_of(r@);
            assert(asts_of(r@) =~= asts_of(v@).subrange(from as int, i + 1));
        }
        i += 1;
    }
    proof {
        assert(asts_of(v@).subrange(0, v.len() as int) =~= asts_of(v@));
    }
    r
}

/// A runtime value.
#[derive(Debug)]
pub enum Value {
    String(String),
    Number(i32),
    Bool(bool),
}

/// The mathematical model of a `Value`.
pub enum Val {
    Str(Seq<char>),
    Num(i32),
    Bool(bool),
}

impl View for Value {
    type V = Val;

    open spec fn view(&self) -> Val {
        match self {
            Value::String(s) => Val::Str(s@),
            Value::Number(n) => Val::Num(*n),
            Value::Bool(b) => Val::Bool(*b),
        }
    }
}

impl Clone for Value {
    fn clone(&self) -> (r: Value)
        ensures
            r@ == self@,
    {
        match self {
            Value::String(s) => Value::String(s.clone()),
            Value::Number(n) => Value::Number(*n),
            Value::Bool(b) => Value::Bool(*b),
        }
    }
}

impl PartialEq for Value {
    fn eq(&self, o: &Value) -> (r: bool) {
        match (self, o) {
            (Value::String(a), Value::String(b)) => a.eq(b),
            (Value::Number(a), Value::Number(b)) => *a == *b,
            (Value::Bool(a), Value::Bool(b)) => *a == *b,
            _ => false,
        }
    }
}

impl vstd::std_specs::cmp::PartialEqSpecImpl for Value {
    open spec fn obeys_eq_spec() -> bool {
        true
    }

    open spec fn eq_spec(&self, o: &Value) -> bool {
        self@ == o@
    }
}

} // verus!
