//! Walking through a program, one step of arithmetic at a time.
//!
//! The evaluation is a machine. Its state is the program and the results of
//! the steps done so far. [`Interpreter::advance`] takes the answer to the
//! step that was asked for last, and gives back what to do next: compute
//! another step, or stop with the value of the statement. No arithmetic is
//! done here.

use super::env::{Func, MemberView};
use super::{
    operand_below, BinaryOp, Effect, EffectView, Interpreter, Operand, OperandView, Program,
    ProgramView, Step, StepView, UnaryOp,
};
use crate::number::Number;
use vstd::prelude::*;

verus! {

/// One step of arithmetic to be done, with the numbers it works on.
#[derive(Debug, PartialEq)]
pub enum Request {
    /// The number that a numeral stands for, rounded to the precision of
    /// the calculator.
    Parse(String),
    Unary(UnaryOp, Number),
    Binary(BinaryOp, Number, Number),
}

/// A request as a mathematical value.
pub enum RequestView {
    Parse(Seq<char>),
    Unary(UnaryOp, Number),
    Binary(BinaryOp, Number, Number),
}

impl View for Request {
    type V = RequestView;

    open spec fn view(&self) -> RequestView {
        match *self {
            Request::Parse(text) => RequestView::Parse(text@),
            Request::Unary(op, a) => RequestView::Unary(op, a),
            Request::Binary(op, a, b) => RequestView::Binary(op, a, b),
        }
    }
}

/// What is to be done next.
#[derive(Debug, PartialEq)]
pub enum Action {
    /// Compute this, and come back with the result.
    Compute(Request),
    /// The statement is evaluated; this is its value.
    Finished(Number),
}

/// An action as a mathematical value.
pub enum ActionView {
    Compute(RequestView),
    Finished(Number),
}

impl View for Action {
    type V = ActionView;

    open spec fn view(&self) -> ActionView {
        match *self {
            Action::Compute(request) => ActionView::Compute(request@),
            Action::Finished(value) => ActionView::Finished(value),
        }
    }
}

/// The number that `a` stands for, given the results `values` of the steps
/// done.
pub open spec fn value_of(values: Seq<Number>, a: OperandView) -> Number {
    match a {
        OperandView::Value(n) => n,
        OperandView::Step(i) => values[i as int],
    }
}

/// The request that `step` makes, given the results `values` of the steps
/// before it.
pub open spec fn request_of(values: Seq<Number>, step: StepView) -> RequestView {
    match step {
        StepView::Parse(text) => RequestView::Parse(text),
        StepView::Unary(op, a) => RequestView::Unary(op, value_of(values, a)),
        StepView::Binary(op, a, b) => RequestView::Binary(
            op,
            value_of(values, a),
            value_of(values, b),
        ),
    }
}

/// The environment after the effect of a statement with the value `value`.
pub open spec fn apply_effect(
    env: Map<Seq<char>, MemberView>,
    effect: EffectView,
    value: Number,
) -> Map<Seq<char>, MemberView> {
    match effect {
        EffectView::Nothing => env,
        EffectView::SetVar(name) => env.insert(name, MemberView::Var(value)),
        EffectView::SetFunc(name, f) => env.insert(name, MemberView::Fn(f)),
    }
}

/// A program under evaluation: the program and the results of the steps
/// done so far.
#[derive(Debug)]
pub struct Evaluation {
    program: Program,
    values: Vec<Number>,
}

impl Evaluation {
    /// The program that is evaluated.
    pub closed spec fn program(&self) -> ProgramView {
        self.program@
    }

    /// The results of the steps done so far, in the order of the steps.
    pub closed spec fn values(&self) -> Seq<Number> {
        self.values@
    }

    /// The program is in order, and no more steps are done than it has.
    pub open spec fn wf(&self) -> bool {
        self.program().wf() && self.values().len() <= self.program().steps.len()
    }

    /// Every step is done.
    pub open spec fn done(&self) -> bool {
        self.values().len() == self.program().steps.len()
    }

    /// The evaluation of `program`, before its first step.
    pub fn new(program: Program) -> (r: Self)
        requires
            program@.wf(),
        ensures
            r.wf(),
            r.program() == program@,
            r.values() == Seq::<Number>::empty(),
    {
        Evaluation { program, values: Vec::new() }
    }

    /// Whether every step is done.
    pub fn is_done(&self) -> (r: bool)
        requires
            self.wf(),
        ensures
            r == self.done(),
    {
        self.values.len() == self.program.steps.len()
    }

    fn operand(&self, a: Operand) -> (r: Number)
        requires
            operand_below(a@, self.values().len() as int),
        ensures
            r == value_of(self.values(), a@),
    {
        match a {
            Operand::Value(n) => n,
            Operand::Step(i) => self.values[i],
        }
    }

    /// The step to be done next, with the numbers it works on; `None` when
    /// every step is done.
    pub fn request(&self) -> (r: Option<Request>)
        requires
            self.wf(),
        ensures
            match r {
                Some(request) => !self.done() && request@ == request_of(
                    self.values(),
                    self.program().steps[self.values().len() as int],
                ),
                None => self.done(),
            },
    {
        let at = self.values.len();
        if at >= self.program.steps.len() {
            return None;
        }
        assert(self.program().steps[at as int] == self.program.steps@[at as int]@);
        assert(super::step_in_order(self.program().steps[at as int], at as int));
        Some(
            match &self.program.steps[at] {
                Step::Parse(text) => Request::Parse(text.clone()),
                Step::Unary(op, a) => Request::Unary(*op, self.operand(*a)),
                Step::Binary(op, a, b) => Request::Binary(*op, self.operand(*a), self.operand(*b)),
            },
        )
    }

    /// Takes `value` as the result of the step that is to be done next.
    pub fn supply(&mut self, value: Number)
        requires
            old(self).wf(),
            !old(self).done(),
        ensures
            final(self).wf(),
            final(self).program() == old(self).program(),
            final(self).values() == old(self).values().push(value),
    {
        self.values.push(value);
    }

    /// The value of the statement, once every step is done.
    pub fn result(&self) -> (r: Option<Number>)
        requires
            self.wf(),
        ensures
            r == if self.done() {
                Some(value_of(self.values(), self.program().result))
            } else {
                None
            },
    {
        if self.is_done() {
            Some(self.operand(self.program.result))
        } else {
            None
        }
    }
}

impl Interpreter {
    /// One move of an evaluation: from the state of the session and of the
    /// evaluation, and the answer to the request made last, to the next
    /// state and what to do next.
    ///
    /// The answer is added to the results, if a step was open. If a step is
    /// open then, it is asked for. Else the evaluation ends: where
    /// assignments are kept, the effect of the statement is applied to the
    /// environment and the value becomes the last result; the effect is
    /// applied once, however often the end is reached.
    pub fn advance(&mut self, run: &mut Evaluation, answer: Option<Number>) -> (action: Action)
        requires
            old(self).env.wf(),
            old(run).wf(),
        ensures
            final(self).env.wf(),
            final(run).wf(),
            final(self).save_assignments == old(self).save_assignments,
            final(run).program().steps == old(run).program().steps,
            final(run).program().result == old(run).program().result,
            final(run).values() == spec_values_after(*old(run), answer),
            !final(run).done() ==> {
                &&& action@ == ActionView::Compute(
                    request_of(
                        final(run).values(),
                        final(run).program().steps[final(run).values().len() as int],
                    ),
                )
                &&& final(run).program().effect == old(run).program().effect
                &&& final(self).env@ == old(self).env@
                &&& final(self).last_ans == old(self).last_ans
            },
            final(run).done() ==> {
                let value = value_of(final(run).values(), final(run).program().result);
                &&& action@ == ActionView::Finished(value)
                &&& final(run).program().effect == EffectView::Nothing
                &&& final(self).env@ == if old(self).save_assignments {
                    apply_effect(old(self).env@, old(run).program().effect, value)
                } else {
                    old(self).env@
                }
                &&& final(self).last_ans == if old(self).save_assignments {
                    value
                } else {
                    old(self).last_ans
                }
            },
    {
        if let Some(value) = answer {
            if !run.is_done() {
                run.supply(value);
            }
        }
        match run.request() {
            Some(request) => Action::Compute(request),
            None => {
                let value = run.operand(run.program.result);
                let mut effect = Effect::Nothing;
                std::mem::swap(&mut effect, &mut run.program.effect);
                if self.save_assignments {
                    match effect {
                        Effect::Nothing => {},
                        Effect::SetVar(name) => {
                            let _ = self.env.set_var(name.as_str(), value);
                        },
                        Effect::SetFunc(name, f) => {
                            let _ = self.env.set_func(name, Func::UserFn(f));
                        },
                    }
                    self.last_ans = value;
                }
                Action::Finished(value)
            },
        }
    }
}

/// The results of an evaluation after an answer: the answer is added where a
/// step was open, and passed over where none was.
pub open spec fn spec_values_after(run: Evaluation, answer: Option<Number>) -> Seq<Number> {
    match answer {
        Some(value) => if run.done() {
            run.values()
        } else {
            run.values().push(value)
        },
        None => run.values(),
    }
}

} // verus!
