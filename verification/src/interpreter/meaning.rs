//! What a statement means, said without steps: the value of an expression
//! is a term of arithmetic over numerals and known numbers.
//!
//! The terms say what is to be computed, and in which order the operands of
//! an operation stand. The programs of the interpreter say the same with
//! numbered steps; the laws at the end of this file show that a program and
//! its evaluation give the value of the term.

use super::ast::ExprView;
use super::env::{Builtin, FuncView, MemberView};
use super::evaluation::{request_of, value_of, RequestView};
use super::math::{spec_builtin, spec_fold};
use super::{
    ans, binary_op, bind, msg_arity, msg_missing_argument, msg_no_function, msg_too_deep,
    msg_undeclared, msg_unexpected_token, operand_below, scope_lookup, spec_visit_arguments,
    spec_visit_expr, spec_visit_func_call, spec_visit_var, step_in_order, steps_in_order,
    BinaryOp, OperandView, ResolutionView, StepView, UnaryOp,
};
use crate::number::Number;
use crate::scanner::TokenKind;
use vstd::prelude::*;

verus! {

/// A term of arithmetic.
pub enum Term {
    /// The number that a numeral stands for.
    Numeral(Seq<char>),
    /// A number that is known: the last result, or the value of a variable.
    Known(Number),
    Unary(UnaryOp, Box<Term>),
    Binary(BinaryOp, Box<Term>, Box<Term>),
}

/// The bindings of parameters to the values of arguments.
pub type Bindings = Seq<(Seq<char>, Term)>;

/// The value of an expression and the scope after it, or a message.
pub type Valued = Result<(Term, Bindings), Seq<char>>;

/// The value of a name: the last result for `ans`, else the argument bound
/// to it, else the variable of that name.
pub open spec fn value_of_var(
    env: Map<Seq<char>, MemberView>,
    last: Number,
    name: Seq<char>,
    scope: Bindings,
) -> Result<Term, Seq<char>> {
    if name == ans() {
        Ok(Term::Known(last))
    } else {
        match scope_lookup(scope, name) {
            Some(t) => Ok(t),
            None => if env.contains_key(name) && env[name] is Var {
                Ok(Term::Known(env[name]->Var_0))
            } else {
                Err(msg_undeclared(name))
            },
        }
    }
}

/// The operands from place `i` on, folded into `acc` with `op`, from left
/// to right.
pub open spec fn folded(op: BinaryOp, operands: Seq<Term>, i: int, acc: Term) -> Term
    decreases operands.len() - i,
{
    if 0 <= i < operands.len() {
        folded(op, operands, i + 1, Term::Binary(op, Box::new(acc), Box::new(operands[i])))
    } else {
        acc
    }
}

/// The value of a call of the built-in function `f` under the name `name`.
pub open spec fn value_of_builtin(f: Builtin, name: Seq<char>, operands: Seq<Term>) -> Result<
    Term,
    Seq<char>,
> {
    let zero = Term::Known(Number::zero());
    if super::math::needs_argument(f) && operands.len() == 0 {
        Err(msg_missing_argument(name))
    } else {
        match f {
            Builtin::Sum => Ok(folded(BinaryOp::Add, operands, 0, zero)),
            Builtin::Avg => Ok(
                Term::Binary(
                    BinaryOp::Divide,
                    Box::new(folded(BinaryOp::Add, operands, 0, zero)),
                    Box::new(Term::Known(Number::spec_from_u64(operands.len() as u64))),
                ),
            ),
            Builtin::Min => Ok(folded(BinaryOp::Minimum, operands, 1, operands[0])),
            Builtin::Max => Ok(folded(BinaryOp::Maximum, operands, 1, operands[0])),
            Builtin::Sqrt => Ok(Term::Unary(UnaryOp::SquareRoot, Box::new(operands[0]))),
            Builtin::Sin => Ok(Term::Unary(UnaryOp::Sine, Box::new(operands[0]))),
        }
    }
}

/// The value of an expression in the scope `scope`, with `fuel` levels of
/// calls left.
///
/// - A numeral stands for its number, parentheses for what is inside.
/// - Of an operation the left operand is valued before the right one.
/// - The arguments of a call are valued from left to right in the scope of
///   the caller. The body of a user-defined function is valued in a scope
///   that binds its parameters to the arguments and takes the place of the
///   caller's scope; after the call the scope is empty.
pub open spec fn value_of_expr(
    env: Map<Seq<char>, MemberView>,
    last: Number,
    e: ExprView,
    scope: Bindings,
    fuel: nat,
) -> Valued
    decreases fuel, e, 0nat,
{
    match e {
        ExprView::Literal(text) => Ok((Term::Numeral(text), scope)),
        ExprView::Grouping(inner) => value_of_expr(env, last, *inner, scope, fuel),
        ExprView::Var(name) => match value_of_var(env, last, name, scope) {
            Ok(t) => Ok((t, scope)),
            Err(m) => Err(m),
        },
        ExprView::Unary { operator, rhs } => match value_of_expr(env, last, *rhs, scope, fuel) {
            Err(m) => Err(m),
            Ok((a, scope1)) => if operator.kind == TokenKind::Minus {
                Ok((Term::Unary(UnaryOp::Negate, Box::new(a)), scope1))
            } else if operator.kind == TokenKind::Plus {
                Ok((a, scope1))
            } else {
                Err(msg_unexpected_token())
            },
        },
        ExprView::Binary { lhs, operator, rhs } => match value_of_expr(
            env,
            last,
            *lhs,
            scope,
            fuel,
        ) {
            Err(m) => Err(m),
            Ok((a, scope1)) => match value_of_expr(env, last, *rhs, scope1, fuel) {
                Err(m) => Err(m),
                Ok((b, scope2)) => match binary_op(operator.kind) {
                    Some(op) => Ok((Term::Binary(op, Box::new(a), Box::new(b)), scope2)),
                    None => Err(msg_unexpected_token()),
                },
            },
        },
        ExprView::FnCall { name, arguments } => value_of_call(
            env,
            last,
            name,
            arguments,
            scope,
            fuel,
        ),
    }
}

/// The values of the arguments of a call from place `i` on, after the
/// values `done` of the arguments before them.
pub open spec fn value_of_arguments(
    env: Map<Seq<char>, MemberView>,
    last: Number,
    arguments: Seq<ExprView>,
    i: int,
    done: Seq<Term>,
    scope: Bindings,
    fuel: nat,
) -> Result<(Seq<Term>, Bindings), Seq<char>>
    decreases fuel, arguments, arguments.len() - i,
{
    if 0 <= i < arguments.len() {
        match value_of_expr(env, last, arguments[i], scope, fuel) {
            Err(m) => Err(m),
            Ok((a, scope1)) => value_of_arguments(
                env,
                last,
                arguments,
                i + 1,
                done.push(a),
                scope1,
                fuel,
            ),
        }
    } else {
        Ok((done, scope))
    }
}

/// The value of a call.
pub open spec fn value_of_call(
    env: Map<Seq<char>, MemberView>,
    last: Number,
    name: Seq<char>,
    arguments: Seq<ExprView>,
    scope: Bindings,
    fuel: nat,
) -> Valued
    decreases fuel, arguments, arguments.len() + 1,
{
    match value_of_arguments(env, last, arguments, 0, Seq::empty(), scope, fuel) {
        Err(m) => Err(m),
        Ok((operands, scope1)) => if !(env.contains_key(name) && env[name] is Fn) {
            Err(msg_no_function(name))
        } else {
            match env[name]->Fn_0 {
                FuncView::BuiltinFn(f) => match value_of_builtin(f, name, operands) {
                    Ok(t) => Ok((t, scope1)),
                    Err(m) => Err(m),
                },
                FuncView::UserFn { body, parameters } => if parameters.len() != arguments.len() {
                    Err(msg_arity(name, parameters.len()))
                } else if fuel == 0 {
                    Err(msg_too_deep(name))
                } else {
                    match value_of_expr(
                        env,
                        last,
                        body,
                        bind(parameters, operands),
                        (fuel - 1) as nat,
                    ) {
                        Err(m) => Err(m),
                        Ok((r, _)) => Ok((r, Seq::empty())),
                    }
                },
            }
        },
    }
}

/// The term that the operand `a` stands for in a program with the steps
/// `steps`.
pub open spec fn term_of(steps: Seq<StepView>, a: OperandView) -> Term
    decreases
            (match a {
                OperandView::Value(_) => 0,
                OperandView::Step(i) => i as int + 1,
            }),
{
    match a {
        OperandView::Value(n) => Term::Known(n),
        OperandView::Step(i) => if i < steps.len() && step_in_order(steps[i as int], i as int) {
            match steps[i as int] {
                StepView::Parse(text) => Term::Numeral(text),
                StepView::Unary(op, x) => Term::Unary(op, Box::new(term_of(steps, x))),
                StepView::Binary(op, x, y) => Term::Binary(
                    op,
                    Box::new(term_of(steps, x)),
                    Box::new(term_of(steps, y)),
                ),
            }
        } else {
            Term::Known(Number::zero())
        },
    }
}

/// The terms that the operands `operands` stand for.
pub open spec fn terms_of(steps: Seq<StepView>, operands: Seq<OperandView>) -> Seq<Term> {
    Seq::new(operands.len(), |i: int| term_of(steps, operands[i]))
}

/// The bindings that the scope of a state stands for.
pub open spec fn bindings_of(st: ResolutionView) -> Bindings {
    Seq::new(st.scope.len(), |i: int| (st.scope[i].0, term_of(st.steps, st.scope[i].1)))
}

/// The steps `longer` begin with the steps `steps`.
pub open spec fn extends(steps: Seq<StepView>, longer: Seq<StepView>) -> bool {
    steps.len() <= longer.len() && longer.subrange(0, steps.len() as int) == steps
}

/// Further steps do not change the term of an operand.
pub proof fn lemma_term_stable(steps: Seq<StepView>, longer: Seq<StepView>, a: OperandView)
    requires
        extends(steps, longer),
        operand_below(a, steps.len() as int),
    ensures
        term_of(longer, a) == term_of(steps, a),
    decreases
            (match a {
                OperandView::Value(_) => 0,
                OperandView::Step(i) => i as int + 1,
            }),
{
    if let OperandView::Step(i) = a {
        assert(longer.subrange(0, steps.len() as int)[i as int] == longer[i as int]);
        if step_in_order(steps[i as int], i as int) {
            match steps[i as int] {
                StepView::Parse(_) => {},
                StepView::Unary(_, x) => {
                    lemma_term_stable(steps, longer, x);
                },
                StepView::Binary(_, x, y) => {
                    lemma_term_stable(steps, longer, x);
                    lemma_term_stable(steps, longer, y);
                },
            }
        }
    }
}

/// Further steps do not change the terms of operands.
pub proof fn lemma_terms_stable(steps: Seq<StepView>, longer: Seq<StepView>, operands: Seq<OperandView>)
    requires
        extends(steps, longer),
        super::math::operands_below(operands, steps.len() as int),
    ensures
        terms_of(longer, operands) == terms_of(steps, operands),
{
    assert forall|i: int| 0 <= i < operands.len() implies term_of(longer, operands[i]) == term_of(
        steps,
        operands[i],
    ) by {
        lemma_term_stable(steps, longer, operands[i]);
    }
    assert(terms_of(longer, operands) =~= terms_of(steps, operands));
}

/// Further steps do not change the bindings of a scope.
pub proof fn lemma_bindings_stable(st: ResolutionView, st1: ResolutionView)
    requires
        st.wf(),
        extends(st.steps, st1.steps),
        st1.scope == st.scope,
    ensures
        bindings_of(st1) == bindings_of(st),
{
    assert forall|i: int| 0 <= i < st.scope.len() implies term_of(st1.steps, st.scope[i].1)
        == term_of(st.steps, st.scope[i].1) by {
        lemma_term_stable(st.steps, st1.steps, st.scope[i].1);
    }
    assert(bindings_of(st1) =~= bindings_of(st));
}

/// One more step: the state stays in order, the steps before it stay, and
/// so do the bindings.
pub proof fn lemma_emit(st: ResolutionView, step: StepView)
    requires
        st.wf(),
        step_in_order(step, st.steps.len() as int),
    ensures
        st.emit(step).1.wf(),
        extends(st.steps, st.emit(step).1.steps),
        operand_below(st.emit(step).0, st.emit(step).1.steps.len() as int),
        bindings_of(st.emit(step).1) == bindings_of(st),
        term_of(st.emit(step).1.steps, st.emit(step).0) == match step {
            StepView::Parse(text) => Term::Numeral(text),
            StepView::Unary(op, x) => Term::Unary(op, Box::new(term_of(st.steps, x))),
            StepView::Binary(op, x, y) => Term::Binary(
                op,
                Box::new(term_of(st.steps, x)),
                Box::new(term_of(st.steps, y)),
            ),
        },
{
    let st1 = st.emit(step).1;
    assert(st1.steps.subrange(0, st.steps.len() as int) =~= st.steps);
    assert forall|k: int| 0 <= k < st1.steps.len() implies step_in_order(
        #[trigger] st1.steps[k],
        k,
    ) by {
        if k < st.steps.len() {
            assert(st1.steps[k] == st.steps[k]);
        }
    }
    lemma_bindings_stable(st, st1);
    match step {
        StepView::Parse(_) => {},
        StepView::Unary(_, x) => {
            lemma_term_stable(st.steps, st1.steps, x);
        },
        StepView::Binary(_, x, y) => {
            lemma_term_stable(st.steps, st1.steps, x);
            lemma_term_stable(st.steps, st1.steps, y);
        },
    }
}

/// What a name is bound to in a scope of operands stands for what it is
/// bound to in the bindings of that scope.
pub proof fn lemma_lookup(steps: Seq<StepView>, scope: Seq<(Seq<char>, OperandView)>, name: Seq<char>)
    ensures
        scope_lookup(
            scope.map_values(|b: (Seq<char>, OperandView)| (b.0, term_of(steps, b.1))),
            name,
        ) == match scope_lookup(scope, name) {
            Some(a) => Some(term_of(steps, a)),
            None => None,
        },
        scope_lookup(scope, name) matches Some(a) ==> exists|j: int|
            0 <= j < scope.len() && (#[trigger] scope[j]).1 == a,
    decreases scope.len(),
{
    let f = |b: (Seq<char>, OperandView)| (b.0, term_of(steps, b.1));
    if scope.len() > 0 {
        lemma_lookup(steps, scope.drop_last(), name);
        assert(scope.drop_last().map_values(f) =~= scope.map_values(f).drop_last());
        if scope.last().0 == name {
            assert(scope[scope.len() - 1].1 == scope.last().1);
        } else {
            let a = scope_lookup(scope.drop_last(), name);
            if let Some(a) = a {
                let j = choose|j: int|
                    0 <= j < scope.drop_last().len() && (#[trigger] scope.drop_last()[j]).1 == a;
                assert(scope[j].1 == a);
            }
        }
    }
}

/// The bindings of a state, said with `map_values`.
pub proof fn lemma_bindings_map(st: ResolutionView)
    ensures
        bindings_of(st) == st.scope.map_values(
            |b: (Seq<char>, OperandView)| (b.0, term_of(st.steps, b.1)),
        ),
{
    assert(bindings_of(st) =~= st.scope.map_values(
        |b: (Seq<char>, OperandView)| (b.0, term_of(st.steps, b.1)),
    ));
}

/// What was resolved from the state `st` stands for the value `valued`: the
/// operand for the term, the scope for the bindings, a failure for the same
/// failure. The steps that were there remain, and the state is in order.
pub open spec fn means(resolved: super::Resolved, valued: Valued, st: ResolutionView) -> bool {
    match resolved {
        Ok((a, st1)) => {
            &&& valued == Ok::<(Term, Bindings), Seq<char>>(
                (term_of(st1.steps, a), bindings_of(st1)),
            )
            &&& st1.wf()
            &&& operand_below(a, st1.steps.len() as int)
            &&& extends(st.steps, st1.steps)
        },
        Err(m) => valued == Err::<(Term, Bindings), Seq<char>>(m),
    }
}

proof fn lemma_extends_trans(a: Seq<StepView>, b: Seq<StepView>, c: Seq<StepView>)
    requires
        extends(a, b),
        extends(b, c),
    ensures
        extends(a, c),
{
    assert forall|i: int| 0 <= i < a.len() implies c[i] == a[i] by {
        assert(b.subrange(0, a.len() as int)[i] == b[i]);
        assert(c.subrange(0, b.len() as int)[i] == c[i]);
    }
    assert(c.subrange(0, a.len() as int) =~= a);
}

proof fn lemma_below_more(operands: Seq<OperandView>, limit: int, more: int)
    requires
        super::math::operands_below(operands, limit),
        limit <= more,
    ensures
        super::math::operands_below(operands, more),
{
}

/// The program of an expression computes the value of the expression: the
/// operand that resolving gives stands for the term that the expression
/// means, and resolving fails where the expression has no value, with the
/// same message.
pub proof fn law_resolution_gives_the_value(
    env: Map<Seq<char>, MemberView>,
    last: Number,
    e: ExprView,
    st: ResolutionView,
    fuel: nat,
)
    requires
        st.wf(),
    ensures
        means(
            spec_visit_expr(env, last, e, st, fuel),
            value_of_expr(env, last, e, bindings_of(st), fuel),
            st,
        ),
    decreases fuel, e, 0nat,
{
    assert(extends(st.steps, st.steps)) by {
        assert(st.steps.subrange(0, st.steps.len() as int) =~= st.steps);
    }
    match e {
        ExprView::Literal(text) => {
            lemma_emit(st, StepView::Parse(text));
        },
        ExprView::Grouping(inner) => {
            law_resolution_gives_the_value(env, last, *inner, st, fuel);
        },
        ExprView::Var(name) => {
            lemma_bindings_map(st);
            lemma_lookup(st.steps, st.scope, name);
        },
        ExprView::Unary { operator, rhs } => {
            law_resolution_gives_the_value(env, last, *rhs, st, fuel);
            if let Ok((a, st1)) = spec_visit_expr(env, last, *rhs, st, fuel) {
                if operator.kind == TokenKind::Minus {
                    let step = StepView::Unary(UnaryOp::Negate, a);
                    lemma_emit(st1, step);
                    lemma_extends_trans(st.steps, st1.steps, st1.emit(step).1.steps);
                }
            }
        },
        ExprView::Binary { lhs, operator, rhs } => {
            law_resolution_gives_the_value(env, last, *lhs, st, fuel);
            if let Ok((a, st1)) = spec_visit_expr(env, last, *lhs, st, fuel) {
                law_resolution_gives_the_value(env, last, *rhs, st1, fuel);
                if let Ok((b, st2)) = spec_visit_expr(env, last, *rhs, st1, fuel) {
                    lemma_term_stable(st1.steps, st2.steps, a);
                    lemma_extends_trans(st.steps, st1.steps, st2.steps);
                    if let Some(op) = binary_op(operator.kind) {
                        let step = StepView::Binary(op, a, b);
                        lemma_emit(st2, step);
                        lemma_extends_trans(st.steps, st2.steps, st2.emit(step).1.steps);
                    }
                }
            }
        },
        ExprView::FnCall { name, arguments } => {
            lemma_call_means(env, last, name, arguments, st, fuel);
        },
    }
}

proof fn lemma_arguments_mean(
    env: Map<Seq<char>, MemberView>,
    last: Number,
    arguments: Seq<ExprView>,
    i: int,
    done: Seq<OperandView>,
    st: ResolutionView,
    fuel: nat,
)
    requires
        st.wf(),
        super::math::operands_below(done, st.steps.len() as int),
        0 <= i <= arguments.len(),
    ensures
        match spec_visit_arguments(env, last, arguments, i, done, st, fuel) {
            Ok((operands, st1)) => {
                &&& operands.len() == done.len() + arguments.len() - i
                &&& value_of_arguments(
                    env,
                    last,
                    arguments,
                    i,
                    terms_of(st.steps, done),
                    bindings_of(st),
                    fuel,
                ) == Ok::<(Seq<Term>, Bindings), Seq<char>>(
                    (terms_of(st1.steps, operands), bindings_of(st1)),
                )
                &&& st1.wf()
                &&& super::math::operands_below(operands, st1.steps.len() as int)
                &&& extends(st.steps, st1.steps)
            },
            Err(m) => value_of_arguments(
                env,
                last,
                arguments,
                i,
                terms_of(st.steps, done),
                bindings_of(st),
                fuel,
            ) == Err::<(Seq<Term>, Bindings), Seq<char>>(m),
        },
    decreases fuel, arguments, arguments.len() - i,
{
    if 0 <= i < arguments.len() {
        law_resolution_gives_the_value(env, last, arguments[i], st, fuel);
        if let Ok((a, st1)) = spec_visit_expr(env, last, arguments[i], st, fuel) {
            lemma_terms_stable(st.steps, st1.steps, done);
            lemma_below_more(done, st.steps.len() as int, st1.steps.len() as int);
            assert(terms_of(st1.steps, done.push(a)) =~= terms_of(st.steps, done).push(
                term_of(st1.steps, a),
            ));
            lemma_arguments_mean(env, last, arguments, i + 1, done.push(a), st1, fuel);
            if let Ok((operands, st2)) = spec_visit_arguments(
                env,
                last,
                arguments,
                i + 1,
                done.push(a),
                st1,
                fuel,
            ) {
                lemma_extends_trans(st.steps, st1.steps, st2.steps);
            }
        }
    } else {
        assert(st.steps.subrange(0, st.steps.len() as int) =~= st.steps);
    }
}

proof fn lemma_fold_means(
    op: BinaryOp,
    operands: Seq<OperandView>,
    i: int,
    acc: OperandView,
    st: ResolutionView,
)
    requires
        st.wf(),
        super::math::operands_below(operands, st.steps.len() as int),
        operand_below(acc, st.steps.len() as int),
    ensures
        ({
            let (r, st1) = spec_fold(op, operands, i, acc, st);
            &&& term_of(st1.steps, r) == folded(
                op,
                terms_of(st.steps, operands),
                i,
                term_of(st.steps, acc),
            )
            &&& st1.wf()
            &&& operand_below(r, st1.steps.len() as int)
            &&& extends(st.steps, st1.steps)
            &&& bindings_of(st1) == bindings_of(st)
        }),
    decreases operands.len() - i,
{
    if 0 <= i < operands.len() {
        let step = StepView::Binary(op, acc, operands[i]);
        let (next, st1) = st.emit(step);
        lemma_emit(st, step);
        lemma_below_more(operands, st.steps.len() as int, st1.steps.len() as int);
        lemma_fold_means(op, operands, i + 1, next, st1);
        let (r, st2) = spec_fold(op, operands, i + 1, next, st1);
        lemma_extends_trans(st.steps, st1.steps, st2.steps);
        lemma_terms_stable(st.steps, st1.steps, operands);
    } else {
        assert(st.steps.subrange(0, st.steps.len() as int) =~= st.steps);
    }
}

proof fn lemma_builtin_means(
    f: Builtin,
    name: Seq<char>,
    operands: Seq<OperandView>,
    st: ResolutionView,
)
    requires
        st.wf(),
        super::math::operands_below(operands, st.steps.len() as int),
    ensures
        match spec_builtin(f, name, operands, st) {
            Ok((a, st1)) => {
                &&& value_of_builtin(f, name, terms_of(st.steps, operands)) == Ok::<
                    Term,
                    Seq<char>,
                >(term_of(st1.steps, a))
                &&& bindings_of(st1) == bindings_of(st)
                &&& st1.wf()
                &&& operand_below(a, st1.steps.len() as int)
                &&& extends(st.steps, st1.steps)
            },
            Err(m) => value_of_builtin(f, name, terms_of(st.steps, operands)) == Err::<
                Term,
                Seq<char>,
            >(m),
        },
{
    let zero = OperandView::Value(Number::zero());
    assert(st.steps.subrange(0, st.steps.len() as int) =~= st.steps);
    if !(super::math::needs_argument(f) && operands.len() == 0) {
        match f {
            Builtin::Sum => {
                lemma_fold_means(BinaryOp::Add, operands, 0, zero, st);
            },
            Builtin::Avg => {
                lemma_fold_means(BinaryOp::Add, operands, 0, zero, st);
                let (total, st1) = spec_fold(BinaryOp::Add, operands, 0, zero, st);
                let step = StepView::Binary(
                    BinaryOp::Divide,
                    total,
                    OperandView::Value(Number::spec_from_u64(operands.len() as u64)),
                );
                lemma_emit(st1, step);
                lemma_extends_trans(st.steps, st1.steps, st1.emit(step).1.steps);
            },
            Builtin::Min => {
                lemma_fold_means(BinaryOp::Minimum, operands, 1, operands[0], st);
            },
            Builtin::Max => {
                lemma_fold_means(BinaryOp::Maximum, operands, 1, operands[0], st);
            },
            Builtin::Sqrt => {
                lemma_emit(st, StepView::Unary(UnaryOp::SquareRoot, operands[0]));
            },
            Builtin::Sin => {
                lemma_emit(st, StepView::Unary(UnaryOp::Sine, operands[0]));
            },
        }
    }
}

proof fn lemma_call_means(
    env: Map<Seq<char>, MemberView>,
    last: Number,
    name: Seq<char>,
    arguments: Seq<ExprView>,
    st: ResolutionView,
    fuel: nat,
)
    requires
        st.wf(),
    ensures
        means(
            spec_visit_func_call(env, last, name, arguments, st, fuel),
            value_of_call(env, last, name, arguments, bindings_of(st), fuel),
            st,
        ),
    decreases fuel, arguments, arguments.len() + 1,
{
    let none = Seq::<OperandView>::empty();
    assert(terms_of(st.steps, none) =~= Seq::<Term>::empty());
    lemma_arguments_mean(env, last, arguments, 0, none, st, fuel);
    if let Ok((operands, st1)) = spec_visit_arguments(env, last, arguments, 0, none, st, fuel) {
        if env.contains_key(name) && env[name] is Fn {
            match env[name]->Fn_0 {
                FuncView::BuiltinFn(f) => {
                    lemma_builtin_means(f, name, operands, st1);
                    if let Ok((a, st2)) = spec_builtin(f, name, operands, st1) {
                        lemma_extends_trans(st.steps, st1.steps, st2.steps);
                    }
                },
                FuncView::UserFn { body, parameters } => {
                    if parameters.len() == arguments.len() && fuel > 0 {
                        let inner = st1.with_scope(bind(parameters, operands));
                        assert(bindings_of(inner) =~= bind(
                            parameters,
                            terms_of(st1.steps, operands),
                        ));
                        law_resolution_gives_the_value(env, last, body, inner, (fuel - 1) as nat);
                        if let Ok((r, st2)) = spec_visit_expr(
                            env,
                            last,
                            body,
                            inner,
                            (fuel - 1) as nat,
                        ) {
                            lemma_extends_trans(st.steps, st1.steps, st2.steps);
                            assert(bindings_of(st2.with_scope(Seq::empty())) =~= Seq::<
                                (Seq<char>, Term),
                            >::empty());
                        }
                    }
                },
            }
        }
    }
}

/// The number that a term comes to when `compute` does the arithmetic.
pub open spec fn value_of_term(compute: spec_fn(RequestView) -> Number, t: Term) -> Number
    decreases t,
{
    match t {
        Term::Numeral(text) => compute(RequestView::Parse(text)),
        Term::Known(n) => n,
        Term::Unary(op, a) => compute(RequestView::Unary(op, value_of_term(compute, *a))),
        Term::Binary(op, a, b) => compute(
            RequestView::Binary(op, value_of_term(compute, *a), value_of_term(compute, *b)),
        ),
    }
}

/// Each of `values` is what `compute` answers to the request of the step
/// at its place.
pub open spec fn answered(
    compute: spec_fn(RequestView) -> Number,
    steps: Seq<StepView>,
    values: Seq<Number>,
) -> bool {
    &&& values.len() <= steps.len()
    &&& forall|k: int|
        0 <= k < values.len() ==> #[trigger] values[k] == compute(request_of(values, steps[k]))
}

/// An evaluation whose requests are answered by `compute` holds, for every
/// operand of a step done, the number that the term of the operand comes
/// to under `compute`.
pub proof fn law_evaluation_gives_the_value(
    compute: spec_fn(RequestView) -> Number,
    steps: Seq<StepView>,
    values: Seq<Number>,
    a: OperandView,
)
    requires
        steps_in_order(steps),
        answered(compute, steps, values),
        operand_below(a, values.len() as int),
    ensures
        value_of(values, a) == value_of_term(compute, term_of(steps, a)),
    decreases
            (match a {
                OperandView::Value(_) => 0,
                OperandView::Step(i) => i as int + 1,
            }),
{
    if let OperandView::Step(i) = a {
        assert(step_in_order(steps[i as int], i as int));
        assert(values[i as int] == compute(request_of(values, steps[i as int])));
        match steps[i as int] {
            StepView::Parse(_) => {},
            StepView::Unary(_, x) => {
                law_evaluation_gives_the_value(compute, steps, values, x);
            },
            StepView::Binary(_, x, y) => {
                law_evaluation_gives_the_value(compute, steps, values, x);
                law_evaluation_gives_the_value(compute, steps, values, y);
            },
        }
    }
}

/// The whole of it: a statement that is an expression resolves to a
/// program exactly where the expression has a value, and when every
/// request of the program has been answered by `compute`, the result of
/// the program is the number that this value comes to under `compute`.
pub proof fn law_program_gives_the_value(
    env: Map<Seq<char>, MemberView>,
    last: Number,
    e: ExprView,
    compute: spec_fn(RequestView) -> Number,
    values: Seq<Number>,
)
    ensures
        match super::program_of(env, last, e, super::EffectView::Nothing) {
            Ok(program) => {
                &&& program.wf()
                &&& value_of_expr(
                    env,
                    last,
                    e,
                    Seq::empty(),
                    super::MAX_CALL_DEPTH as nat,
                ) matches Ok((term, _))
                &&& answered(compute, program.steps, values) && values.len()
                    == program.steps.len() ==> value_of(values, program.result) == value_of_term(
                    compute,
                    term,
                )
            },
            Err(m) => value_of_expr(env, last, e, Seq::empty(), super::MAX_CALL_DEPTH as nat)
                == Err::<(Term, Bindings), Seq<char>>(m),
        },
{
    let st = super::initial();
    assert(bindings_of(st) =~= Seq::<(Seq<char>, Term)>::empty());
    law_resolution_gives_the_value(env, last, e, st, super::MAX_CALL_DEPTH as nat);
    if let Ok(program) = super::program_of(env, last, e, super::EffectView::Nothing) {
        if answered(compute, program.steps, values) && values.len() == program.steps.len() {
            law_evaluation_gives_the_value(compute, program.steps, values, program.result);
        }
    }
}

} // verus!
