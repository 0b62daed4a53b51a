//! Evaluation: from a statement to the arithmetic that gives its value.
//!
//! Evaluating a statement never depends on the value of a number, only on
//! names, arities and the shape of the statement. So a statement is first
//! resolved into a straight-line [`Program`]: a list of arithmetic steps,
//! each of which names the earlier steps and the known numbers it works on.
//! An [`evaluation::Evaluation`] then walks through the program. It asks for the result
//! of one step at a time and takes the answer back; the arithmetic itself is
//! done by whoever answers.

pub mod ast;
pub mod env;
pub mod evaluation;
pub mod math;
pub mod meaning;
pub mod parser;

use self::ast::{names_view, Expr, ExprView, Stmt, StmtView};
use self::env::{Env, Func, FuncView, MemberView, UserFn};
use crate::number::Number;
use crate::scanner::TokenKind;
use crate::text::{decimal, push_decimal, str_eq};
use std::rc::Rc;
use vstd::prelude::*;
use vstd::string::StringExecFns;

verus! {

/// Number of mantissa bits of every number the calculator computes with.
pub const PREC_BITS: u32 = 256;

/// How deeply calls of user-defined functions may nest. A function that
/// calls itself has no way to stop, so it always runs into this limit.
pub const MAX_CALL_DEPTH: usize = 64;

/// The operations on one number.
#[derive(Debug, Clone, Copy, PartialEq, Eq, Structural)]
pub enum UnaryOp {
    Negate,
    SquareRoot,
    Sine,
}

/// The operations on two numbers.
#[derive(Debug, Clone, Copy, PartialEq, Eq, Structural)]
pub enum BinaryOp {
    Add,
    Subtract,
    Divide,
    Multiply,
    Power,
    /// The smaller of the two in the total order of numbers; the first of
    /// them where neither is smaller.
    Minimum,
    /// The larger of the two in the total order of numbers; the first of
    /// them where neither is larger.
    Maximum,
}

/// What a step works on: a number that is known, or the result of an
/// earlier step, given by its place in the program.
#[derive(Debug, Clone, Copy, PartialEq, Eq, Structural)]
pub enum Operand {
    Value(Number),
    Step(usize),
}

/// An operand as a mathematical value: the place of a step is a natural
/// number.
pub enum OperandView {
    Value(Number),
    Step(nat),
}

impl View for Operand {
    type V = OperandView;

    open spec fn view(&self) -> OperandView {
        match *self {
            Operand::Value(n) => OperandView::Value(n),
            Operand::Step(i) => OperandView::Step(i as nat),
        }
    }
}

/// The values of a sequence of operands.
pub open spec fn operands_view(operands: Seq<Operand>) -> Seq<OperandView> {
    Seq::new(operands.len(), |i: int| operands[i]@)
}

/// One step of arithmetic.
#[derive(Debug, PartialEq)]
pub enum Step {
    /// The number that a numeral stands for.
    Parse(String),
    Unary(UnaryOp, Operand),
    Binary(BinaryOp, Operand, Operand),
}

/// A step as a mathematical value.
pub enum StepView {
    Parse(Seq<char>),
    Unary(UnaryOp, OperandView),
    Binary(BinaryOp, OperandView, OperandView),
}

impl View for Step {
    type V = StepView;

    open spec fn view(&self) -> StepView {
        match *self {
            Step::Parse(text) => StepView::Parse(text@),
            Step::Unary(op, a) => StepView::Unary(op, a@),
            Step::Binary(op, a, b) => StepView::Binary(op, a@, b@),
        }
    }
}

/// The values of a sequence of steps.
pub open spec fn steps_view(steps: Seq<Step>) -> Seq<StepView> {
    Seq::new(steps.len(), |i: int| steps[i]@)
}

/// The values of the bindings of a scope.
pub open spec fn scope_view(scope: Seq<(String, Operand)>) -> Seq<(Seq<char>, OperandView)> {
    Seq::new(scope.len(), |i: int| (scope[i].0@, scope[i].1@))
}

/// The state of resolving a statement: the steps found so far, and the
/// scope of the call whose body is being resolved.
///
/// The scope binds the parameters of that call to its arguments. There is
/// one scope at a time: a call replaces it, and when the call is done the
/// scope is empty, whatever it was before.
pub struct Resolution {
    pub steps: Vec<Step>,
    pub scope: Vec<(String, Operand)>,
}

/// The state of resolving a statement as a mathematical value.
pub struct ResolutionView {
    pub steps: Seq<StepView>,
    pub scope: Seq<(Seq<char>, OperandView)>,
}

impl View for Resolution {
    type V = ResolutionView;

    open spec fn view(&self) -> ResolutionView {
        ResolutionView { steps: steps_view(self.steps@), scope: scope_view(self.scope@) }
    }
}

/// `a` is a known number or the result of one of the first `limit` steps.
pub open spec fn operand_below(a: OperandView, limit: int) -> bool {
    a matches OperandView::Step(i) ==> i < limit
}

/// The step at place `at` works on results of earlier steps only.
pub open spec fn step_in_order(step: StepView, at: int) -> bool {
    match step {
        StepView::Parse(_) => true,
        StepView::Unary(_, a) => operand_below(a, at),
        StepView::Binary(_, a, b) => operand_below(a, at) && operand_below(b, at),
    }
}

/// Each of `steps` works on results of earlier steps only.
pub open spec fn steps_in_order(steps: Seq<StepView>) -> bool {
    forall|k: int| 0 <= k < steps.len() ==> step_in_order(#[trigger] steps[k], k)
}

impl ResolutionView {
    /// Steps and scope speak of earlier steps only.
    pub open spec fn wf(self) -> bool {
        &&& steps_in_order(self.steps)
        &&& forall|j: int|
            0 <= j < self.scope.len() ==> operand_below(
                (#[trigger] self.scope[j]).1,
                self.steps.len() as int,
            )
    }

    /// The state after one more step, with the operand that stands for the
    /// result of that step.
    pub open spec fn emit(self, step: StepView) -> (OperandView, ResolutionView) {
        (
            OperandView::Step(self.steps.len()),
            ResolutionView { steps: self.steps.push(step), scope: self.scope },
        )
    }

    /// The state with another scope.
    pub open spec fn with_scope(self, scope: Seq<(Seq<char>, OperandView)>) -> ResolutionView {
        ResolutionView { steps: self.steps, scope }
    }
}

/// What resolving an expression gives: the operand that stands for its
/// value and the state after it, or a message.
pub type Resolved = Result<(OperandView, ResolutionView), Seq<char>>;

pub open spec fn msg_undeclared(name: Seq<char>) -> Seq<char> {
    "Undeclared variable '"@ + name + "'"@
}

pub open spec fn msg_no_function(name: Seq<char>) -> Seq<char> {
    "No function named '"@ + name + "'"@
}

pub open spec fn msg_arity(name: Seq<char>, parameters: nat) -> Seq<char> {
    "Function '"@ + name + "' takes "@ + decimal(parameters) + " args"@
}

pub open spec fn msg_missing_argument(name: Seq<char>) -> Seq<char> {
    "Function '"@ + name + "' needs at least one argument"@
}

pub open spec fn msg_too_deep(name: Seq<char>) -> Seq<char> {
    "Function '"@ + name + "' is nested too deeply"@
}

pub open spec fn msg_unexpected_token() -> Seq<char> {
    "Unexpected Token"@
}

/// The name of the last result.
pub open spec fn ans() -> Seq<char> {
    "ans"@
}

/// What `name` is bound to in `scope`; of two bindings of a name the later
/// one counts.
pub open spec fn scope_lookup<T>(scope: Seq<(Seq<char>, T)>, name: Seq<char>) -> Option<T>
    decreases scope.len(),
{
    if scope.len() == 0 {
        None
    } else if scope.last().0 == name {
        Some(scope.last().1)
    } else {
        scope_lookup(scope.drop_last(), name)
    }
}

/// The scope of a call: each parameter bound to the argument at its place.
pub open spec fn bind<T>(parameters: Seq<Seq<char>>, arguments: Seq<T>) -> Seq<(Seq<char>, T)> {
    Seq::new(parameters.len(), |i: int| (parameters[i], arguments[i]))
}

/// The operation that a binary operator token stands for.
pub open spec fn binary_op(kind: TokenKind) -> Option<BinaryOp> {
    match kind {
        TokenKind::Plus => Some(BinaryOp::Add),
        TokenKind::Minus => Some(BinaryOp::Subtract),
        TokenKind::Slash => Some(BinaryOp::Divide),
        TokenKind::Star => Some(BinaryOp::Multiply),
        TokenKind::Exp => Some(BinaryOp::Power),
        _ => None,
    }
}

/// What a name stands for where a value is wanted: the last result for
/// `ans`, else the argument bound to it in the scope, else the variable of
/// that name in the environment.
pub open spec fn spec_visit_var(
    env: Map<Seq<char>, MemberView>,
    last: Number,
    name: Seq<char>,
    st: ResolutionView,
) -> Resolved {
    if name == ans() {
        Ok((OperandView::Value(last), st))
    } else {
        match scope_lookup(st.scope, name) {
            Some(a) => Ok((a, st)),
            None => if env.contains_key(name) && env[name] is Var {
                Ok((OperandView::Value(env[name]->Var_0), st))
            } else {
                Err(msg_undeclared(name))
            },
        }
    }
}

/// What an expression resolves to in the state `st`, with `fuel` levels of
/// calls left.
pub open spec fn spec_visit_expr(
    env: Map<Seq<char>, MemberView>,
    last: Number,
    e: ExprView,
    st: ResolutionView,
    fuel: nat,
) -> Resolved
    decreases fuel, e, 0nat,
{
    match e {
        ExprView::Literal(text) => Ok(st.emit(StepView::Parse(text))),
        ExprView::Grouping(inner) => spec_visit_expr(env, last, *inner, st, fuel),
        ExprView::Var(name) => spec_visit_var(env, last, name, st),
        ExprView::Unary { operator, rhs } => match spec_visit_expr(env, last, *rhs, st, fuel) {
            Err(m) => Err(m),
            Ok((a, st1)) => if operator.kind == TokenKind::Minus {
                Ok(st1.emit(StepView::Unary(UnaryOp::Negate, a)))
            } else if operator.kind == TokenKind::Plus {
                Ok((a, st1))
            } else {
                Err(msg_unexpected_token())
            },
        },
        ExprView::Binary { lhs, operator, rhs } => match spec_visit_expr(
            env,
            last,
            *lhs,
            st,
            fuel,
        ) {
            Err(m) => Err(m),
            Ok((a, st1)) => match spec_visit_expr(env, last, *rhs, st1, fuel) {
                Err(m) => Err(m),
                Ok((b, st2)) => match binary_op(operator.kind) {
                    Some(op) => Ok(st2.emit(StepView::Binary(op, a, b))),
                    None => Err(msg_unexpected_token()),
                },
            },
        },
        ExprView::FnCall { name, arguments } => spec_visit_func_call(
            env,
            last,
            name,
            arguments,
            st,
            fuel,
        ),
    }
}

/// What the arguments of a call from place `i` on resolve to, from left to
/// right, after the operands `done` of the arguments before them.
pub open spec fn spec_visit_arguments(
    env: Map<Seq<char>, MemberView>,
    last: Number,
    arguments: Seq<ExprView>,
    i: int,
    done: Seq<OperandView>,
    st: ResolutionView,
    fuel: nat,
) -> Result<(Seq<OperandView>, ResolutionView), Seq<char>>
    decreases fuel, arguments, arguments.len() - i,
{
    if 0 <= i < arguments.len() {
        match spec_visit_expr(env, last, arguments[i], st, fuel) {
            Err(m) => Err(m),
            Ok((a, st1)) => spec_visit_arguments(
                env,
                last,
                arguments,
                i + 1,
                done.push(a),
                st1,
                fuel,
            ),
        }
    } else {
        Ok((done, st))
    }
}

/// What a call resolves to. The arguments are resolved first, in the scope
/// of the caller. A built-in function becomes arithmetic on them. The body
/// of a user-defined function is resolved in a scope of its own, which
/// takes the place of the caller's; after the call the scope is empty.
pub open spec fn spec_visit_func_call(
    env: Map<Seq<char>, MemberView>,
    last: Number,
    name: Seq<char>,
    arguments: Seq<ExprView>,
    st: ResolutionView,
    fuel: nat,
) -> Resolved
    decreases fuel, arguments, arguments.len() + 1,
{
    match spec_visit_arguments(env, last, arguments, 0, Seq::empty(), st, fuel) {
        Err(m) => Err(m),
        Ok((operands, st1)) => if !(env.contains_key(name) && env[name] is Fn) {
            Err(msg_no_function(name))
        } else {
            match env[name]->Fn_0 {
                FuncView::BuiltinFn(f) => self::math::spec_builtin(f, name, operands, st1),
                FuncView::UserFn { body, parameters } => if parameters.len() != arguments.len() {
                    Err(msg_arity(name, parameters.len()))
                } else if fuel == 0 {
                    Err(msg_too_deep(name))
                } else {
                    match spec_visit_expr(
                        env,
                        last,
                        body,
                        st1.with_scope(bind(parameters, operands)),
                        (fuel - 1) as nat,
                    ) {
                        Err(m) => Err(m),
                        Ok((r, st2)) => Ok((r, st2.with_scope(Seq::empty()))),
                    }
                },
            }
        },
    }
}

impl Resolution {
    /// The state before anything is resolved.
    pub fn new() -> (r: Self)
        ensures
            r@.wf(),
            r@.steps == Seq::<StepView>::empty(),
            r@.scope == Seq::<(Seq<char>, OperandView)>::empty(),
    {
        let r = Resolution { steps: Vec::new(), scope: Vec::new() };
        assert(r@.steps =~= Seq::<StepView>::empty());
        assert(r@.scope =~= Seq::<(Seq<char>, OperandView)>::empty());
        r
    }

    /// Adds `step` and gives the operand that stands for its result.
    pub fn emit(&mut self, step: Step) -> (r: Operand)
        requires
            old(self)@.wf(),
            step_in_order(step@, old(self)@.steps.len() as int),
        ensures
            (r@, final(self)@) == old(self)@.emit(step@),
            final(self)@.wf(),
            operand_below(r@, final(self)@.steps.len() as int),
            final(self)@.steps.len() == old(self)@.steps.len() + 1,
    {
        let at = self.steps.len();
        self.steps.push(step);
        assert(self@.steps =~= old(self)@.steps.push(step@));
        assert(self@.scope =~= old(self)@.scope);
        Operand::Step(at)
    }
}

/// The result `r` of a resolving step that led from the state `before` to
/// the state `after` is what `expected` says, and the new state is in
/// order.
pub open spec fn resolves(
    r: Result<Operand, String>,
    before: ResolutionView,
    after: ResolutionView,
    expected: Resolved,
) -> bool {
    match expected {
        Ok((a, st)) => {
            &&& r matches Ok(x)
            &&& x@ == a
            &&& after == st
            &&& st.wf()
            &&& operand_below(a, st.steps.len() as int)
            &&& st.steps.len() >= before.steps.len()
        },
        Err(m) => r matches Err(s) && s@ == m,
    }
}

/// What `name` is bound to in `scope`.
fn lookup(scope: &Vec<(String, Operand)>, name: &str) -> (r: Option<Operand>)
    ensures
        match scope_lookup(scope_view(scope@), name@) {
            Some(a) => r matches Some(x) && x@ == a,
            None => r is None,
        },
        r matches Some(x) ==> exists|j: int|
            0 <= j < scope@.len() && (#[trigger] scope_view(scope@)[j]).1 == x@,
{
    let mut i: usize = scope.len();
    assert(scope_view(scope@).subrange(0, i as int) =~= scope_view(scope@));
    while i > 0
        invariant
            i <= scope@.len(),
            scope_lookup(scope_view(scope@), name@) == scope_lookup(
                scope_view(scope@).subrange(0, i as int),
                name@,
            ),
        decreases i,
    {
        let ghost part = scope_view(scope@).subrange(0, i as int);
        i -= 1;
        assert(part.last() == scope_view(scope@)[i as int]);
        assert(part.drop_last() =~= scope_view(scope@).subrange(0, i as int));
        if str_eq(scope[i].0.as_str(), name) {
            return Some(scope[i].1);
        }
    }
    assert(scope_view(scope@).subrange(0, 0).len() == 0);
    None
}

/// The scope of a call: each parameter bound to the argument at its place.
fn bind_scope(parameters: &Vec<String>, operands: &Vec<Operand>) -> (r: Vec<(String, Operand)>)
    requires
        parameters@.len() == operands@.len(),
    ensures
        scope_view(r@) == bind(names_view(parameters@), operands_view(operands@)),
{
    let mut scope: Vec<(String, Operand)> = Vec::new();
    let mut i: usize = 0;
    while i < parameters.len()
        invariant
            i <= parameters@.len(),
            parameters@.len() == operands@.len(),
            scope@.len() == i,
            forall|j: int|
                0 <= j < i ==> (#[trigger] scope@[j]).0@ == parameters@[j]@ && scope@[j].1
                    == operands@[j],
        decreases parameters.len() - i,
    {
        scope.push((parameters[i].clone(), operands[i]));
        i += 1;
    }
    assert(scope_view(scope@) =~= bind(names_view(parameters@), operands_view(operands@)));
    scope
}

/// The evaluator: the environment of the session, the last result, and
/// whether evaluating a statement leaves its mark on them.
pub struct Interpreter {
    pub env: Env,
    /// The result of the last statement that was evaluated for good; `ans`
    /// stands for it.
    pub last_ans: Number,
    /// Whether assignments are kept and the last result is updated. Where
    /// this is off, evaluation is a preview and changes nothing.
    pub save_assignments: bool,
}

impl Interpreter {
    /// An evaluator at the beginning of a session: the environment holds
    /// the built-in functions, and the last result is zero.
    pub fn new() -> (r: Self)
        ensures
            r.env.wf(),
            r.env@ == self::math::with_builtins(Map::empty()),
            r.last_ans == Number::zero(),
            r.save_assignments,
    {
        let mut env = Env::new();
        self::math::insert_funcs(&mut env);
        Self { env, last_ans: Number::zero(), save_assignments: true }
    }

    /// Resolves a numeral: one step that asks for its number.
    pub fn visit_literal(&self, e: &self::ast::Literal, ctx: &mut Resolution) -> (r: Result<
        Operand,
        String,
    >)
        requires
            old(ctx)@.wf(),
        ensures
            resolves(r, old(ctx)@, final(ctx)@, Ok(old(ctx)@.emit(StepView::Parse(e.text())))),
    {
        Ok(ctx.emit(Step::Parse(e.to_string())))
    }

    /// Resolves a name where a value is wanted.
    pub fn visit_var(&self, e: &self::ast::Var, ctx: &mut Resolution) -> (r: Result<
        Operand,
        String,
    >)
        requires
            self.env.wf(),
            old(ctx)@.wf(),
        ensures
            resolves(
                r,
                old(ctx)@,
                final(ctx)@,
                spec_visit_var(self.env@, self.last_ans, e.name@, old(ctx)@),
            ),
    {
        let name = e.name.as_str();
        if str_eq(name, "ans") {
            return Ok(Operand::Value(self.last_ans));
        }
        match lookup(&ctx.scope, name) {
            Some(a) => Ok(a),
            None => match self.env.get_var(name) {
                Some(n) => Ok(Operand::Value(*n)),
                None => {
                    let mut message = String::from_str("Undeclared variable '");
                    message.append(name);
                    message.append("'");
                    Err(message)
                },
            },
        }
    }

    /// Resolves an expression.
    pub fn visit_expr(&self, e: &Expr, ctx: &mut Resolution, fuel: usize) -> (r: Result<
        Operand,
        String,
    >)
        requires
            self.env.wf(),
            old(ctx)@.wf(),
        ensures
            resolves(
                r,
                old(ctx)@,
                final(ctx)@,
                spec_visit_expr(self.env@, self.last_ans, e@, old(ctx)@, fuel as nat),
            ),
        decreases fuel, e, 2nat,
    {
        match e {
            Expr::Literal(l) => self.visit_literal(l, ctx),
            Expr::Binary(b) => self.visit_binary_expr(b, ctx, fuel),
            Expr::Unary(u) => self.visit_unary_expr(u, ctx, fuel),
            Expr::Grouping(g) => self.visit_grouping_expr(g, ctx, fuel),
            Expr::Var(v) => self.visit_var(v, ctx),
            Expr::FnCall(f) => self.visit_func_call(f, ctx, fuel),
        }
    }

    /// Resolves an expression in parentheses: it stands for what is inside.
    pub fn visit_grouping_expr(
        &self,
        e: &self::ast::GroupingExpr,
        ctx: &mut Resolution,
        fuel: usize,
    ) -> (r: Result<Operand, String>)
        requires
            self.env.wf(),
            old(ctx)@.wf(),
        ensures
            resolves(
                r,
                old(ctx)@,
                final(ctx)@,
                spec_visit_expr(self.env@, self.last_ans, e.0@, old(ctx)@, fuel as nat),
            ),
        decreases fuel, e, 1nat,
    {
        self.visit_expr(&e.0, ctx, fuel)
    }

    /// Resolves an operation on two operands: the left one first, then the
    /// right one, then the step that works on both.
    pub fn visit_binary_expr(&self, e: &self::ast::BinaryExpr, ctx: &mut Resolution, fuel: usize) -> (r:
        Result<Operand, String>)
        requires
            self.env.wf(),
            old(ctx)@.wf(),
        ensures
            resolves(
                r,
                old(ctx)@,
                final(ctx)@,
                spec_visit_expr(
                    self.env@,
                    self.last_ans,
                    ExprView::Binary {
                        lhs: Box::new(e.lhs@),
                        operator: e.operator@,
                        rhs: Box::new(e.rhs@),
                    },
                    old(ctx)@,
                    fuel as nat,
                ),
            ),
        decreases fuel, e, 1nat,
    {
        let lhs = self.visit_expr(&e.lhs, ctx, fuel)?;
        let rhs = self.visit_expr(&e.rhs, ctx, fuel)?;
        let op = match e.operator.kind {
            TokenKind::Plus => BinaryOp::Add,
            TokenKind::Minus => BinaryOp::Subtract,
            TokenKind::Slash => BinaryOp::Divide,
            TokenKind::Star => BinaryOp::Multiply,
            TokenKind::Exp => BinaryOp::Power,
            _ => {
                return Err(String::from_str("Unexpected Token"));
            },
        };
        Ok(ctx.emit(Step::Binary(op, lhs, rhs)))
    }

    /// Resolves a sign before an operand: a minus negates, a plus changes
    /// nothing.
    pub fn visit_unary_expr(&self, e: &self::ast::UnaryExpr, ctx: &mut Resolution, fuel: usize) -> (r:
        Result<Operand, String>)
        requires
            self.env.wf(),
            old(ctx)@.wf(),
        ensures
            resolves(
                r,
                old(ctx)@,
                final(ctx)@,
                spec_visit_expr(
                    self.env@,
                    self.last_ans,
                    ExprView::Unary { operator: e.operator@, rhs: Box::new(e.rhs@) },
                    old(ctx)@,
                    fuel as nat,
                ),
            ),
        decreases fuel, e, 1nat,
    {
        let rhs = self.visit_expr(&e.rhs, ctx, fuel)?;
        match e.operator.kind {
            TokenKind::Minus => Ok(ctx.emit(Step::Unary(UnaryOp::Negate, rhs))),
            TokenKind::Plus => Ok(rhs),
            _ => Err(String::from_str("Unexpected Token")),
        }
    }

    /// Resolves the arguments of a call from place `i` on, and adds their
    /// operands to `done`.
    fn visit_arguments(
        &self,
        arguments: &Vec<Expr>,
        i: usize,
        done: &mut Vec<Operand>,
        ctx: &mut Resolution,
        fuel: usize,
    ) -> (r: Result<(), String>)
        requires
            self.env.wf(),
            old(ctx)@.wf(),
            i <= arguments@.len(),
            self::math::operands_below(operands_view(old(done)@), old(ctx)@.steps.len() as int),
        ensures
            match spec_visit_arguments(
                self.env@,
                self.last_ans,
                self::ast::exprs_view(arguments@),
                i as int,
                operands_view(old(done)@),
                old(ctx)@,
                fuel as nat,
            ) {
                Ok((operands, st)) => {
                    &&& r is Ok
                    &&& operands_view(final(done)@) == operands
                    &&& final(ctx)@ == st
                    &&& st.wf()
                    &&& self::math::operands_below(operands, st.steps.len() as int)
                    &&& st.steps.len() >= old(ctx)@.steps.len()
                    &&& operands.len() == old(done)@.len() + arguments@.len() - i
                },
                Err(m) => r matches Err(s) && s@ == m,
            },
        decreases fuel, arguments, arguments@.len() - i,
    {
        if i < arguments.len() {
            let a = self.visit_expr(&arguments[i], ctx, fuel)?;
            done.push(a);
            assert(operands_view(done@) =~= operands_view(old(done)@).push(a@));
            self.visit_arguments(arguments, i + 1, done, ctx, fuel)
        } else {
            Ok(())
        }
    }

    /// Resolves a call.
    pub fn visit_func_call(&self, e: &self::ast::FnCall, ctx: &mut Resolution, fuel: usize) -> (r:
        Result<Operand, String>)
        requires
            self.env.wf(),
            old(ctx)@.wf(),
        ensures
            resolves(
                r,
                old(ctx)@,
                final(ctx)@,
                spec_visit_func_call(
                    self.env@,
                    self.last_ans,
                    e.name@,
                    self::ast::exprs_view(e.arguments@),
                    old(ctx)@,
                    fuel as nat,
                ),
            ),
        decreases fuel, e.arguments, e.arguments@.len() + 1,
    {
        let name = e.name.as_str();
        let mut operands: Vec<Operand> = Vec::new();
        assert(operands_view(operands@) =~= Seq::empty());
        self.visit_arguments(&e.arguments, 0, &mut operands, ctx, fuel)?;
        match self.env.get_func(name) {
            None => {
                let mut message = String::from_str("No function named '");
                message.append(name);
                message.append("'");
                Err(message)
            },
            Some(Func::BuiltinFn(f)) => self::math::visit_builtin(*f, name, &operands, ctx),
            Some(Func::UserFn(f)) => {
                if f.arguments.len() != e.arguments.len() {
                    let mut message = String::from_str("Function '");
                    message.append(name);
                    message.append("' takes ");
                    push_decimal(&mut message, f.arguments.len() as u64);
                    message.append(" args");
                    return Err(message);
                }
                if fuel == 0 {
                    let mut message = String::from_str("Function '");
                    message.append(name);
                    message.append("' is nested too deeply");
                    return Err(message);
                }
                ctx.scope = bind_scope(&f.arguments, &operands);
                let res = self.visit_expr(&f.expr, ctx, fuel - 1);
                ctx.scope = Vec::new();
                proof {
                    assert(scope_view(ctx.scope@) =~= Seq::empty());
                }
                res
            },
        }
    }
}

/// What evaluating a statement does to the session, besides giving a
/// value.
#[derive(Debug)]
pub enum Effect {
    Nothing,
    /// The name becomes a variable with the value of the statement.
    SetVar(String),
    /// The name becomes the function.
    SetFunc(String, UserFn),
}

/// An effect as a mathematical value.
pub enum EffectView {
    Nothing,
    SetVar(Seq<char>),
    SetFunc(Seq<char>, FuncView),
}

impl View for Effect {
    type V = EffectView;

    open spec fn view(&self) -> EffectView {
        match *self {
            Effect::Nothing => EffectView::Nothing,
            Effect::SetVar(name) => EffectView::SetVar(name@),
            Effect::SetFunc(name, f) => EffectView::SetFunc(name@, f@),
        }
    }
}

/// A statement resolved: the steps of arithmetic, the operand that stands
/// for the value of the statement, and the effect on the session.
#[derive(Debug)]
pub struct Program {
    pub steps: Vec<Step>,
    pub result: Operand,
    pub effect: Effect,
}

/// A program as a mathematical value.
pub struct ProgramView {
    pub steps: Seq<StepView>,
    pub result: OperandView,
    pub effect: EffectView,
}

impl View for Program {
    type V = ProgramView;

    open spec fn view(&self) -> ProgramView {
        ProgramView { steps: steps_view(self.steps@), result: self.result@, effect: self.effect@ }
    }
}

impl ProgramView {
    /// Steps and result speak of earlier steps only.
    pub open spec fn wf(self) -> bool {
        steps_in_order(self.steps) && operand_below(self.result, self.steps.len() as int)
    }
}

/// The state in which resolving a statement begins.
pub open spec fn initial() -> ResolutionView {
    ResolutionView { steps: Seq::empty(), scope: Seq::empty() }
}

/// The program of a statement whose value is that of the expression `e`.
pub open spec fn program_of(
    env: Map<Seq<char>, MemberView>,
    last: Number,
    e: ExprView,
    effect: EffectView,
) -> Result<ProgramView, Seq<char>> {
    match spec_visit_expr(env, last, e, initial(), MAX_CALL_DEPTH as nat) {
        Err(m) => Err(m),
        Ok((a, st)) => Ok(ProgramView { steps: st.steps, result: a, effect }),
    }
}

/// The program of a statement.
///
/// An assignment to a variable has the value of its right-hand side. The
/// definition of a function has the value one; its body is not looked at.
/// Where `persist` is off, no statement has an effect.
pub open spec fn spec_visit_stmt(
    env: Map<Seq<char>, MemberView>,
    last: Number,
    persist: bool,
    s: StmtView,
) -> Result<ProgramView, Seq<char>> {
    match s {
        StmtView::VarAssign { name, value } => program_of(
            env,
            last,
            value,
            if persist {
                EffectView::SetVar(name)
            } else {
                EffectView::Nothing
            },
        ),
        StmtView::FnAssign { name, parameters, body } => Ok(
            ProgramView {
                steps: Seq::empty(),
                result: OperandView::Value(Number::one()),
                effect: if persist {
                    EffectView::SetFunc(name, FuncView::UserFn { body, parameters })
                } else {
                    EffectView::Nothing
                },
            },
        ),
        StmtView::Expr(e) => program_of(env, last, e, EffectView::Nothing),
    }
}

impl Interpreter {
    /// The program of a statement whose value is that of `e`.
    fn resolve(&self, e: &Expr, effect: Effect) -> (r: Result<Program, String>)
        requires
            self.env.wf(),
        ensures
            match program_of(self.env@, self.last_ans, e@, effect@) {
                Ok(p) => r matches Ok(x) && x@ == p && p.wf(),
                Err(m) => r matches Err(s) && s@ == m,
            },
    {
        let mut ctx = Resolution::new();
        let result = self.visit_expr(e, &mut ctx, MAX_CALL_DEPTH)?;
        Ok(Program { steps: ctx.steps, result, effect })
    }

    /// Resolves a statement into its program. The session is not changed:
    /// that is left to the end of the evaluation of the program.
    pub fn visit_stmt_owned(&self, s: Stmt) -> (r: Result<Program, String>)
        requires
            self.env.wf(),
        ensures
            match spec_visit_stmt(self.env@, self.last_ans, self.save_assignments, s@) {
                Ok(p) => r matches Ok(x) && x@ == p && p.wf(),
                Err(m) => r matches Err(s) && s@ == m,
            },
    {
        match s {
            Stmt::VarAssign(e) => {
                let effect = if self.save_assignments {
                    Effect::SetVar(e.name)
                } else {
                    Effect::Nothing
                };
                self.resolve(&e.value, effect)
            },
            Stmt::FnAssign(e) => {
                let effect = if self.save_assignments {
                    Effect::SetFunc(e.name, UserFn { expr: Rc::new(e.expr), arguments: e.arguments })
                } else {
                    Effect::Nothing
                };
                let program = Program {
                    steps: Vec::new(),
                    result: Operand::Value(Number::one()),
                    effect,
                };
                assert(program@.steps =~= Seq::empty());
                Ok(program)
            },
            Stmt::Expr(e) => self.resolve(&e, Effect::Nothing),
        }
    }
}

/// `ans` stands for the last result. Neither the environment nor the scope
/// is asked: a variable or a parameter of that name changes nothing.
pub proof fn law_ans_is_the_last_result(
    env: Map<Seq<char>, MemberView>,
    other: Map<Seq<char>, MemberView>,
    last: Number,
    st: ResolutionView,
)
    ensures
        spec_visit_var(env, last, ans(), st) == Ok::<(OperandView, ResolutionView), Seq<char>>(
            (OperandView::Value(last), st),
        ),
        spec_visit_var(other, last, ans(), st) == spec_visit_var(env, last, ans(), st),
{
}

/// A variable that was assigned is found again: outside of a call, its name
/// stands for the value it was given.
pub proof fn law_assigned_variable_is_found(
    env: Map<Seq<char>, MemberView>,
    last: Number,
    name: Seq<char>,
    value: Number,
    st: ResolutionView,
)
    requires
        name != ans(),
        scope_lookup(st.scope, name) is None,
    ensures
        spec_visit_var(
            self::evaluation::apply_effect(env, EffectView::SetVar(name), value),
            last,
            name,
            st,
        ) == Ok::<(OperandView, ResolutionView), Seq<char>>((OperandView::Value(value), st)),
{
}

/// A name that is neither `ans` nor bound in the scope nor a variable of
/// the environment is undeclared, and the message names it.
pub proof fn law_undeclared_variable(
    env: Map<Seq<char>, MemberView>,
    last: Number,
    name: Seq<char>,
    st: ResolutionView,
)
    requires
        name != ans(),
        scope_lookup(st.scope, name) is None,
        !(env.contains_key(name) && env[name] is Var),
    ensures
        spec_visit_var(env, last, name, st) == Err::<(OperandView, ResolutionView), Seq<char>>(
            msg_undeclared(name),
        ),
{
}

/// A call of a user-defined function with another number of arguments than
/// the function has parameters fails, once the arguments are resolved, and
/// the message gives the number of parameters.
pub proof fn law_arity_mismatch(
    env: Map<Seq<char>, MemberView>,
    last: Number,
    name: Seq<char>,
    arguments: Seq<ExprView>,
    st: ResolutionView,
    fuel: nat,
)
    requires
        env.contains_key(name),
        env[name] matches MemberView::Fn(FuncView::UserFn { parameters, .. }) && parameters.len()
            != arguments.len(),
        spec_visit_arguments(env, last, arguments, 0, Seq::empty(), st, fuel) is Ok,
    ensures
        spec_visit_func_call(env, last, name, arguments, st, fuel) == Err::<
            (OperandView, ResolutionView),
            Seq<char>,
        >(msg_arity(name, env[name]->Fn_0->parameters.len())),
{
}

/// A preview has no effect, and it resolves to the same steps and the same
/// result, or fails with the same message, as the evaluation for good.
pub proof fn law_preview_has_no_effect(
    env: Map<Seq<char>, MemberView>,
    last: Number,
    s: StmtView,
)
    ensures
        match (spec_visit_stmt(env, last, false, s), spec_visit_stmt(env, last, true, s)) {
            (Ok(preview), Ok(kept)) => {
                &&& preview.effect == EffectView::Nothing
                &&& preview.steps == kept.steps
                &&& preview.result == kept.result
            },
            (Err(a), Err(b)) => a == b,
            _ => false,
        },
{
}

} // verus!
