//! The tree-walking evaluator.
use crate::arithmetic::{apply_operator, test_equality};
use crate::ast::{ast_of, clone_all, view_all, Ast, Node};
use crate::semantics::{
    bind, bind_arguments, bind_at, done, entry_call, eval, initial_state, parameter_name,
    pop_frame, push_frame, register_all, run_body, run_program, Bound, Frame, Function, State,
};
use crate::table::Table;
use crate::value::{result_view, RuntimeError, Value};
use crate::MAX_CALL_DEPTH;
use vstd::prelude::*;

verus! {

/// A registered function.
pub struct FunctionEntry {
    pub parameters: Vec<Node>,
    pub body: Vec<Node>,
}

impl View for FunctionEntry {
    type V = Function;

    open spec fn view(&self) -> Function {
        Function { parameters: view_all(self.parameters@), body: view_all(self.body@) }
    }
}

/// The frames that a stack of tables stands for.
pub open spec fn frames(stack: Seq<Table<Value>>) -> Seq<Frame> {
    Seq::new(stack.len(), |i: int| stack[i]@)
}

/// The value of a frame that an evaluation of arguments ended with.
pub open spec fn frame_view(r: Result<Table<Value>, RuntimeError>) -> Result<Frame, RuntimeError> {
    match r {
        Ok(frame) => Ok(frame@),
        Err(e) => Err(e),
    }
}

/// An evaluator: the functions defined so far, and the frames of the calls in progress.
pub struct Runtime {
    functions: Table<FunctionEntry>,
    stack: Vec<Table<Value>>,
}

impl View for Runtime {
    type V = State;

    closed spec fn view(&self) -> State {
        State { functions: self.functions@, stack: frames(self.stack@) }
    }
}

/// The name that the parameter `parameter` binds, if it binds one.
fn name_of_parameter(parameter: &Node) -> (res: Option<&String>)
    ensures
        match res {
            Some(name) => parameter_name(parameter@) == Some(name@),
            None => parameter_name(parameter@) is None,
        },
{
    proof {
        reveal_with_fuel(ast_of, 2);
    }
    match parameter {
        Node::Identifier { name } => Some(name),
        Node::Expression { inner } => match &**inner {
            Node::Identifier { name } => Some(name),
            _ => None,
        },
        _ => None,
    }
}

impl Runtime {
    /// An evaluator without functions or frames.
    pub fn new() -> (res: Runtime)
        ensures
            res@ == initial_state(),
    {
        let res = Runtime { functions: Table::new(), stack: Vec::new() };
        assert(frames(res.stack@) =~= Seq::empty());
        res
    }

    /// Evaluates `node` in the evaluator's current state, with [`MAX_CALL_DEPTH`] nested
    /// calls allowed.
    pub fn run(&mut self, node: &Node) -> (res: Result<Value, RuntimeError>)
        ensures
            done(final(self)@, result_view(res)) == eval(
                node@,
                old(self)@,
                MAX_CALL_DEPTH as nat,
            ),
    {
        self.evaluate(node, MAX_CALL_DEPTH)
    }

    /// Registers `entry` under `name`.
    fn define_function(&mut self, name: String, entry: FunctionEntry)
        ensures
            final(self)@ == crate::semantics::define(old(self)@, name@, entry@),
    {
        self.functions.insert(name, entry);
    }

    /// Makes `frame` the innermost frame.
    fn push(&mut self, frame: Table<Value>)
        ensures
            final(self)@ == push_frame(old(self)@, frame@),
    {
        self.stack.push(frame);
        assert(frames(self.stack@) =~= frames(old(self).stack@).push(frame@));
    }

    /// Drops the innermost frame.
    fn pop(&mut self)
        ensures
            final(self)@ == pop_frame(old(self)@),
    {
        let dropped = self.stack.pop();
        assert(old(self).stack.len() > 0 ==> frames(self.stack@) =~= frames(
            old(self).stack@,
        ).drop_last());
        assert(old(self).stack.len() == 0 ==> self.stack@ =~= old(self).stack@);
    }

    /// What `name` is bound to in the innermost frame.
    fn lookup(&self, name: &String) -> (res: Result<Value, RuntimeError>)
        ensures
            result_view(res) == crate::semantics::lookup(self@, name@),
    {
        if self.stack.len() == 0 {
            return Err(RuntimeError::UndefinedVariable);
        }
        let last = self.stack.len() - 1;
        match self.stack[last].get(name) {
            Some(value) => Ok(value.clone()),
            None => Err(RuntimeError::UndefinedVariable),
        }
    }

    /// Binds `name` to `value` in the innermost frame.
    fn bind_variable(&mut self, name: String, value: Value)
        requires
            old(self)@.stack.len() > 0,
        ensures
            final(self)@ == bind(old(self)@, name@, value@),
    {
        match self.stack.pop() {
            Some(frame) => {
                let mut frame = frame;
                frame.insert(name, value);
                self.stack.push(frame);
                assert(frames(self.stack@) =~= frames(old(self).stack@).update(
                    old(self).stack.len() - 1,
                    frames(old(self).stack@).last().insert(name@, value@),
                ));
            },
            None => {},
        }
    }

    /// The registration pass over the top-level nodes `children`.
    fn register_children(&mut self, children: &Vec<Node>)
        ensures
            final(self)@ == register_all(view_all(children@), children.len() as nat, old(self)@),
    {
        let ghost start = self@;
        let mut i: usize = 0;
        while i < children.len()
            invariant
                i <= children.len(),
                self@ == register_all(view_all(children@), i as nat, start),
            decreases children.len() - i,
        {
            let child = &children[i];
            assert(view_all(children@)[i as int] == child@);
            match child {
                Node::FunctionDefine { name, parameters, body } => {
                    let entry = FunctionEntry {
                        parameters: clone_all(parameters),
                        body: clone_all(body),
                    };
                    self.define_function(name.clone(), entry);
                },
                Node::Expression { .. } => {
                    let mut body: Vec<Node> = Vec::new();
                    body.push(Node::FunctionReturn { expression: Box::new(child.clone()) });
                    let entry = FunctionEntry { parameters: Vec::new(), body };
                    assert(entry@.parameters =~= Seq::empty());
                    assert(entry@.body =~= seq![
                        Ast::FunctionReturn { expression: Box::new(child@) },
                    ]);
                    self.define_function(String::from_str("main"), entry);
                },
                Node::Statement { .. } => {
                    let mut body: Vec<Node> = Vec::new();
                    body.push(child.clone());
                    let entry = FunctionEntry { parameters: Vec::new(), body };
                    assert(entry@.parameters =~= Seq::empty());
                    assert(entry@.body =~= seq![child@]);
                    self.define_function(String::from_str("main"), entry);
                },
                _ => {},
            }
            i += 1;
        }
    }

    /// Evaluates `node` with `depth` nested calls allowed.
    fn evaluate(&mut self, node: &Node, depth: u32) -> (res: Result<Value, RuntimeError>)
        ensures
            done(final(self)@, result_view(res)) == eval(node@, old(self)@, depth as nat),
        decreases depth, node, 1nat,
    {
        match node {
            Node::Program { children } => {
                self.register_children(children);
                Ok(Value::Bool(true))
            },
            Node::FunctionDefine { name, parameters, body } => {
                let entry = FunctionEntry {
                    parameters: clone_all(parameters),
                    body: clone_all(body),
                };
                self.define_function(name.clone(), entry);
                Ok(Value::Bool(true))
            },
            Node::Number { value } => Ok(Value::Number(*value)),
            Node::Bool { value } => Ok(Value::Bool(*value)),
            Node::String { value } => Ok(Value::String(value.clone())),
            Node::Identifier { name } => self.lookup(name),
            Node::FunctionReturn { expression } => self.evaluate(&**expression, depth),
            Node::Statement { .. } => self.evaluate_statement(node, depth),
            Node::Expression { .. } => self.evaluate_expression(node, depth),
            Node::VariableDefine { .. } => self.evaluate_definition(node, depth),
            Node::MathExpression { .. } => self.evaluate_math(node, depth),
            Node::TestEquality { .. } => self.evaluate_equality(node, depth),
            Node::If { .. } => self.evaluate_conditional(node, depth),
            Node::FunctionCall { .. } => self.evaluate_call(node, depth),
            _ => Err(RuntimeError::UnhandledNode),
        }
    }

    /// Evaluates a statement: the definition or the return that it wraps.
    fn evaluate_statement(&mut self, node: &Node, depth: u32) -> (res: Result<
        Value,
        RuntimeError,
    >)
        requires
            node is Statement,
        ensures
            done(final(self)@, result_view(res)) == eval(node@, old(self)@, depth as nat),
        decreases depth, node, 0nat,
    {
        match node {
            Node::Statement { inner } => {
                assert(node@ == Ast::Statement { inner: Box::new(inner@) });
                match &**inner {
                    Node::VariableDefine { .. } | Node::FunctionReturn { .. } => self.evaluate(
                        &**inner,
                        depth,
                    ),
                    _ => Err(RuntimeError::UnknownStatement),
                }
            },
            _ => Err(RuntimeError::UnhandledNode),
        }
    }

    /// Evaluates an expression: the node that it wraps, where that is an expression.
    fn evaluate_expression(&mut self, node: &Node, depth: u32) -> (res: Result<
        Value,
        RuntimeError,
    >)
        requires
            node is Expression,
        ensures
            done(final(self)@, result_view(res)) == eval(node@, old(self)@, depth as nat),
        decreases depth, node, 0nat,
    {
        match node {
            Node::Expression { inner } => {
                assert(node@ == Ast::Expression { inner: Box::new(inner@) });
                match &**inner {
                    Node::If { .. }
                    | Node::MathExpression { .. }
                    | Node::Number { .. }
                    | Node::FunctionCall { .. }
                    | Node::String { .. }
                    | Node::Bool { .. }
                    | Node::Identifier { .. } => self.evaluate(&**inner, depth),
                    _ => Err(RuntimeError::UnknownExpression),
                }
            },
            _ => Err(RuntimeError::UnhandledNode),
        }
    }

    /// Evaluates a variable definition: binds the name in the innermost frame.
    fn evaluate_definition(&mut self, node: &Node, depth: u32) -> (res: Result<
        Value,
        RuntimeError,
    >)
        requires
            node is VariableDefine,
        ensures
            done(final(self)@, result_view(res)) == eval(node@, old(self)@, depth as nat),
        decreases depth, node, 0nat,
    {
        match node {
            Node::VariableDefine { name, expression } => {
                assert(node@ == Ast::VariableDefine {
                    name: name@,
                    expression: Box::new(expression@),
                });
                match self.evaluate(&**expression, depth) {
                    Err(e) => Err(e),
                    Ok(value) => {
                        if self.stack.len() == 0 {
                            Err(RuntimeError::UnhandledNode)
                        } else {
                            self.bind_variable(name.clone(), value.clone());
                            Ok(value)
                        }
                    },
                }
            },
            _ => Err(RuntimeError::UnhandledNode),
        }
    }

    /// Evaluates arithmetic: the left operand, then the right one, then the operator.
    fn evaluate_math(&mut self, node: &Node, depth: u32) -> (res: Result<Value, RuntimeError>)
        requires
            node is MathExpression,
        ensures
            done(final(self)@, result_view(res)) == eval(node@, old(self)@, depth as nat),
        decreases depth, node, 0nat,
    {
        match node {
            Node::MathExpression { operator, operands } => {
                assert(node@ == Ast::MathExpression {
                    operator: operator@,
                    operands: view_all(operands@),
                });
                if operands.len() < 2 {
                    return Err(RuntimeError::UnhandledNode);
                }
                assert(view_all(operands@)[0] == operands[0]@);
                assert(view_all(operands@)[1] == operands[1]@);
                match self.evaluate(&operands[0], depth) {
                    Err(e) => Err(e),
                    Ok(left) => match self.evaluate(&operands[1], depth) {
                        Err(e) => Err(e),
                        Ok(right) => apply_operator(operator, &left, &right),
                    },
                }
            },
            _ => Err(RuntimeError::UnhandledNode),
        }
    }

    /// Evaluates an equality test: the left side, then the right one, then the comparison.
    fn evaluate_equality(&mut self, node: &Node, depth: u32) -> (res: Result<
        Value,
        RuntimeError,
    >)
        requires
            node is TestEquality,
        ensures
            done(final(self)@, result_view(res)) == eval(node@, old(self)@, depth as nat),
        decreases depth, node, 0nat,
    {
        match node {
            Node::TestEquality { lhs, rhs } => {
                assert(node@ == Ast::TestEquality { lhs: Box::new(lhs@), rhs: Box::new(rhs@) });
                match self.evaluate(&**lhs, depth) {
                    Err(e) => Err(e),
                    Ok(left) => match self.evaluate(&**rhs, depth) {
                        Err(e) => Err(e),
                        Ok(right) => test_equality(&left, &right),
                    },
                }
            },
            _ => Err(RuntimeError::UnhandledNode),
        }
    }

    /// Evaluates a conditional: its first condition, and its branch where the condition
    /// holds.
    fn evaluate_conditional(&mut self, node: &Node, depth: u32) -> (res: Result<
        Value,
        RuntimeError,
    >)
        requires
            node is If,
        ensures
            done(final(self)@, result_view(res)) == eval(node@, old(self)@, depth as nat),
        decreases depth, node, 0nat,
    {
        match node {
            Node::If { condition, then_branch } => {
                assert(node@ == Ast::If {
                    condition: view_all(condition@),
                    then_branch: Box::new(then_branch@),
                });
                if condition.len() % 2 != 1 {
                    return Err(RuntimeError::InvalidConditionCount);
                }
                assert(view_all(condition@)[0] == condition[0]@);
                match self.evaluate(&condition[0], depth) {
                    Err(e) => Err(e),
                    Ok(Value::Bool(true)) => self.evaluate(&**then_branch, depth),
                    Ok(Value::Bool(false)) => Ok(Value::Ignore()),
                    Ok(_) => Err(RuntimeError::ConditionNotBool),
                }
            },
            _ => Err(RuntimeError::UnhandledNode),
        }
    }

    /// Evaluates a call: the arguments in the caller's frame, then the body of the function
    /// in a frame of its own, which is dropped whatever the body ends in.
    fn evaluate_call(&mut self, node: &Node, depth: u32) -> (res: Result<Value, RuntimeError>)
        requires
            node is FunctionCall,
        ensures
            done(final(self)@, result_view(res)) == eval(node@, old(self)@, depth as nat),
        decreases depth, node, 0nat,
    {
        match node {
            Node::FunctionCall { name, arguments } => {
                assert(node@ == Ast::FunctionCall {
                    name: name@,
                    arguments: view_all(arguments@),
                });
                let (parameters, body) = match self.functions.get(name) {
                    None => {
                        return Err(RuntimeError::UndefinedFunction);
                    },
                    Some(entry) => (clone_all(&entry.parameters), clone_all(&entry.body)),
                };
                if depth == 0 {
                    return Err(RuntimeError::CallDepthExceeded);
                }
                match self.evaluate_arguments(&parameters, arguments, depth) {
                    Err(e) => Err(e),
                    Ok(frame) => {
                        self.push(frame);
                        let result = self.execute_body(&body, depth - 1);
                        self.pop();
                        result
                    },
                }
            },
            _ => Err(RuntimeError::UnhandledNode),
        }
    }

    /// Evaluates the arguments of a call in the caller's frame, and binds each to the
    /// parameter at its position in a fresh frame.
    fn evaluate_arguments(
        &mut self,
        parameters: &Vec<Node>,
        arguments: &Vec<Node>,
        depth: u32,
    ) -> (res: Result<Table<Value>, RuntimeError>)
        ensures
            (Bound { state: final(self)@, result: frame_view(res) }) == bind_arguments(
                view_all(parameters@),
                view_all(arguments@),
                arguments.len() as nat,
                old(self)@,
                depth as nat,
            ),
        decreases depth, arguments, 1nat,
    {
        let ghost start = self@;
        let ghost total = arguments.len() as nat;
        let mut frame: Table<Value> = Table::new();
        let mut i: usize = 0;
        while i < arguments.len()
            invariant
                i <= arguments.len(),
                start == old(self)@,
                total == arguments.len(),
                (Bound { state: self@, result: Ok(frame@) }) == bind_arguments(
                    view_all(parameters@),
                    view_all(arguments@),
                    i as nat,
                    start,
                    depth as nat,
                ),
            decreases arguments.len() - i,
        {
            assert(view_all(arguments@)[i as int] == arguments[i as int]@);
            let ghost before = self@;
            let ghost frame_before = frame@;
            match self.evaluate(&arguments[i], depth) {
                Err(e) => {
                    proof {
                        assert(bind_arguments(
                            view_all(parameters@),
                            view_all(arguments@),
                            (i + 1) as nat,
                            start,
                            depth as nat,
                        ) == Bound { state: self@, result: Err(e) });
                        lemma_arguments_fail(
                            view_all(parameters@),
                            view_all(arguments@),
                            (i + 1) as nat,
                            total,
                            start,
                            depth as nat,
                        );
                    }
                    return Err(e);
                },
                Ok(value) => {
                    if i < parameters.len() {
                        assert(view_all(parameters@)[i as int] == parameters[i as int]@);
                        match name_of_parameter(&parameters[i]) {
                            Some(name) => {
                                frame.insert(name.clone(), value);
                            },
                            None => {},
                        }
                    }
                    assert(frame@ == bind_at(
                        frame_before,
                        view_all(parameters@),
                        i as int,
                        value@,
                    ));
                },
            }
            i += 1;
        }
        Ok(frame)
    }

    /// Executes the statements of a function body in order, up to the first that fails.
    fn execute_body(&mut self, body: &Vec<Node>, depth: u32) -> (res: Result<
        Value,
        RuntimeError,
    >)
        ensures
            done(final(self)@, result_view(res)) == run_body(
                view_all(body@),
                body.len() as nat,
                old(self)@,
                depth as nat,
            ),
        decreases depth, body, 1nat,
    {
        let ghost start = self@;
        let mut result: Result<Value, RuntimeError> = Err(RuntimeError::UndefinedFunction);
        let mut i: usize = 0;
        while i < body.len()
            invariant
                i <= body.len(),
                start == old(self)@,
                i > 0 ==> result is Ok,
                done(self@, result_view(result)) == run_body(
                    view_all(body@),
                    i as nat,
                    start,
                    depth as nat,
                ),
            decreases body.len() - i,
        {
            assert(view_all(body@)[i as int] == body[i as int]@);
            result = self.evaluate(&body[i], depth);
            assert(run_body(view_all(body@), (i + 1) as nat, start, depth as nat) == done(
                self@,
                result_view(result),
            ));
            if result.is_err() {
                proof {
                    lemma_body_fails(
                        view_all(body@),
                        (i + 1) as nat,
                        body.len() as nat,
                        start,
                        depth as nat,
                    );
                }
                return result;
            }
            i += 1;
        }
        result
    }
}

/// Once an argument of a call has failed, the evaluation of the arguments ends in that
/// failure.
proof fn lemma_arguments_fail(
    parameters: Seq<Ast>,
    arguments: Seq<Ast>,
    failed: nat,
    count: nat,
    st: State,
    depth: nat,
)
    requires
        0 < failed <= count,
        count <= arguments.len(),
        bind_arguments(parameters, arguments, failed, st, depth).result is Err,
    ensures
        bind_arguments(parameters, arguments, count, st, depth) == bind_arguments(
            parameters,
            arguments,
            failed,
            st,
            depth,
        ),
    decreases count,
{
    if failed < count {
        lemma_arguments_fail(parameters, arguments, failed, (count - 1) as nat, st, depth);
    }
}

/// Once a statement of a body has failed, the whole body ends in that failure.
proof fn lemma_body_fails(body: Seq<Ast>, failed: nat, count: nat, st: State, depth: nat)
    requires
        0 < failed <= count <= body.len(),
        run_body(body, failed, st, depth).result is Err,
    ensures
        run_body(body, count, st, depth) == run_body(body, failed, st, depth),
    decreases count,
{
    if failed < count {
        lemma_body_fails(body, failed, (count - 1) as nat, st, depth);
    }
}

/// Runs a program: evaluates `node` with a fresh evaluator, which registers the functions
/// of a program, and then calls `main` without arguments. What the first evaluation ends
/// in is dropped; the result is that of the call.
pub fn run(node: &Node) -> (res: Result<Value, RuntimeError>)
    ensures
        result_view(res) == run_program(node@),
{
    let mut runtime = Runtime::new();
    let _ = runtime.run(node);
    let start_main = Node::FunctionCall { name: String::from_str("main"), arguments: Vec::new() };
    assert(start_main@ == entry_call()) by {
        assert(view_all(Seq::<Node>::empty()) =~= Seq::<Ast>::empty());
    }
    runtime.run(&start_main)
}

} // verus!
