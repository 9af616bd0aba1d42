//! The syntax tree that the parser builds and the evaluator walks.
use vstd::prelude::*;

verus! {

/// A node of the syntax tree. Every node owns its children.
#[allow(inconsistent_fields)]
#[derive(Debug)]
pub enum Node {
    /// The top-level declarations and statements, in source order.
    Program { children: Vec<Node> },
    /// A wrapper around one variable definition or one return.
    Statement { inner: Box<Node> },
    FunctionReturn { expression: Box<Node> },
    /// `parameters` are the declared parameters, `body` the statements of the function.
    FunctionDefine { name: String, parameters: Vec<Node>, body: Vec<Node> },
    /// A comma-separated list of expressions, as written between parentheses.
    FunctionArguments { children: Vec<Node> },
    /// A wrapper around a literal, an identifier, a call, arithmetic or a conditional.
    Expression { inner: Box<Node> },
    /// `operands` holds the left and the right operand, in this order.
    MathExpression { operator: String, operands: Vec<Node> },
    FunctionCall { name: String, arguments: Vec<Node> },
    VariableDefine { name: String, expression: Box<Node> },
    Number { value: i32 },
    Bool { value: bool },
    Identifier { name: String },
    String { value: String },
    /// Only the first element of `condition` is evaluated.
    If { condition: Vec<Node>, then_branch: Box<Node> },
    Condition { conditions: Vec<Node> },
    ConditionExpression { operator: String, rhs: Box<Node> },
    TestEquality { lhs: Box<Node>, rhs: Box<Node> },
}

/// The mathematical value of a [`Node`]: the same tree over sequences.
#[allow(inconsistent_fields)]
pub ghost enum Ast {
    Program { children: Seq<Ast> },
    Statement { inner: Box<Ast> },
    FunctionReturn { expression: Box<Ast> },
    FunctionDefine { name: Seq<char>, parameters: Seq<Ast>, body: Seq<Ast> },
    FunctionArguments { children: Seq<Ast> },
    Expression { inner: Box<Ast> },
    MathExpression { operator: Seq<char>, operands: Seq<Ast> },
    FunctionCall { name: Seq<char>, arguments: Seq<Ast> },
    VariableDefine { name: Seq<char>, expression: Box<Ast> },
    Number { value: i32 },
    Bool { value: bool },
    Identifier { name: Seq<char> },
    String { value: Seq<char> },
    If { condition: Seq<Ast>, then_branch: Box<Ast> },
    Condition { conditions: Seq<Ast> },
    ConditionExpression { operator: Seq<char>, rhs: Box<Ast> },
    TestEquality { lhs: Box<Ast>, rhs: Box<Ast> },
}

/// The views of a sequence of nodes, element by element. (The sequence is built from its
/// length, so the closure is applied within it only.)
pub open spec fn view_all(nodes: Seq<Node>) -> Seq<Ast>
    decreases nodes,
{
    Seq::new(
        nodes.len(),
        |i: int|
            if 0 <= i < nodes.len() {
                ast_of(nodes[i])
            } else {
                Ast::Bool { value: false }
            },
    )
}

/// The tree that a node stands for.
pub open spec fn ast_of(node: Node) -> Ast
    decreases node,
{
    match node {
        Node::Program { children } => Ast::Program { children: view_all(children@) },
        Node::Statement { inner } => Ast::Statement { inner: Box::new(ast_of(*inner)) },
        Node::FunctionReturn { expression } => Ast::FunctionReturn {
            expression: Box::new(ast_of(*expression)),
        },
        Node::FunctionDefine { name, parameters, body } => Ast::FunctionDefine {
            name: name@,
            parameters: view_all(parameters@),
            body: view_all(body@),
        },
        Node::FunctionArguments { children } => Ast::FunctionArguments {
            children: view_all(children@),
        },
        Node::Expression { inner } => Ast::Expression { inner: Box::new(ast_of(*inner)) },
        Node::MathExpression { operator, operands } => Ast::MathExpression {
            operator: operator@,
            operands: view_all(operands@),
        },
        Node::FunctionCall { name, arguments } => Ast::FunctionCall {
            name: name@,
            arguments: view_all(arguments@),
        },
        Node::VariableDefine { name, expression } => Ast::VariableDefine {
            name: name@,
            expression: Box::new(ast_of(*expression)),
        },
        Node::Number { value } => Ast::Number { value },
        Node::Bool { value } => Ast::Bool { value },
        Node::Identifier { name } => Ast::Identifier { name: name@ },
        Node::String { value } => Ast::String { value: value@ },
        Node::If { condition, then_branch } => Ast::If {
            condition: view_all(condition@),
            then_branch: Box::new(ast_of(*then_branch)),
        },
        Node::Condition { conditions } => Ast::Condition { conditions: view_all(conditions@) },
        Node::ConditionExpression { operator, rhs } => Ast::ConditionExpression {
            operator: operator@,
            rhs: Box::new(ast_of(*rhs)),
        },
        Node::TestEquality { lhs, rhs } => Ast::TestEquality {
            lhs: Box::new(ast_of(*lhs)),
            rhs: Box::new(ast_of(*rhs)),
        },
    }
}

impl View for Node {
    type V = Ast;

    open spec fn view(&self) -> Ast {
        ast_of(*self)
    }
}

/// A copy of each node of `nodes`, in the same order.
pub fn clone_all(nodes: &Vec<Node>) -> (res: Vec<Node>)
    ensures
        view_all(res@) == view_all(nodes@),
    decreases nodes,
{
    let mut res: Vec<Node> = Vec::new();
    let mut i: usize = 0;
    while i < nodes.len()
        invariant
            i <= nodes.len(),
            res.len() == i,
            forall|j: int| 0 <= j < i ==> ast_of(#[trigger] res[j]) == ast_of(nodes[j]),
        decreases nodes.len() - i,
    {
        let copy = nodes[i].clone();
        res.push(copy);
        i += 1;
    }
    assert(view_all(res@) =~= view_all(nodes@));
    res
}

impl Clone for Node {
    fn clone(&self) -> (res: Node)
        ensures
            res@ == self@,
        decreases self,
    {
        match self {
            Node::Program { children } => Node::Program { children: clone_all(children) },
            Node::Statement { inner } => Node::Statement { inner: Box::new((&**inner).clone()) },
            Node::FunctionReturn { expression } => Node::FunctionReturn {
                expression: Box::new((&**expression).clone()),
            },
            Node::FunctionDefine { name, parameters, body } => Node::FunctionDefine {
                name: name.clone(),
                parameters: clone_all(parameters),
                body: clone_all(body),
            },
            Node::FunctionArguments { children } => Node::FunctionArguments {
                children: clone_all(children),
            },
            Node::Expression { inner } => Node::Expression { inner: Box::new((&**inner).clone()) },
            Node::MathExpression { operator, operands } => Node::MathExpression {
                operator: operator.clone(),
                operands: clone_all(operands),
            },
            Node::FunctionCall { name, arguments } => Node::FunctionCall {
                name: name.clone(),
                arguments: clone_all(arguments),
            },
            Node::VariableDefine { name, expression } => Node::VariableDefine {
                name: name.clone(),
                expression: Box::new((&**expression).clone()),
            },
            Node::Number { value } => Node::Number { value: *value },
            Node::Bool { value } => Node::Bool { value: *value },
            Node::Identifier { name } => Node::Identifier { name: name.clone() },
            Node::String { value } => Node::String { value: value.clone() },
            Node::If { condition, then_branch } => Node::If {
                condition: clone_all(condition),
                then_branch: Box::new((&**then_branch).clone()),
            },
            Node::Condition { conditions } => Node::Condition { conditions: clone_all(conditions) },
            Node::ConditionExpression { operator, rhs } => Node::ConditionExpression {
                operator: operator.clone(),
                rhs: Box::new((&**rhs).clone()),
            },
            Node::TestEquality { lhs, rhs } => Node::TestEquality {
                lhs: Box::new((&**lhs).clone()),
                rhs: Box::new((&**rhs).clone()),
            },
        }
    }
}

} // verus!
