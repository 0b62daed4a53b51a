//! The built-in functions: what they are called, how many arguments they
//! need, and the arithmetic that each of them stands for.

use super::env::{Builtin, Env, Func, MemberView, FuncView};
use super::{
    msg_missing_argument, operands_view, BinaryOp, Operand, OperandView, Resolution,
    ResolutionView, Resolved, Step, StepView, UnaryOp,
};
use crate::number::Number;
use vstd::prelude::*;
use vstd::string::StringExecFns;

verus! {

/// The operands from place `i` on, folded into `acc` with `op`, from left
/// to right.
pub open spec fn spec_fold(
    op: BinaryOp,
    operands: Seq<OperandView>,
    i: int,
    acc: OperandView,
    st: ResolutionView,
) -> (OperandView, ResolutionView)
    decreases operands.len() - i,
{
    if 0 <= i < operands.len() {
        let (next, st1) = st.emit(StepView::Binary(op, acc, operands[i]));
        spec_fold(op, operands, i + 1, next, st1)
    } else {
        (acc, st)
    }
}

/// Whether the built-in function `f` needs an argument: all do but `sum`,
/// which is zero without one.
pub open spec fn needs_argument(f: Builtin) -> bool {
    f != Builtin::Sum
}

/// The arithmetic that a call of the built-in function `f` under the name
/// `name` stands for.
///
/// `sum` adds its arguments to zero, one after the other. `avg` divides that
/// sum by the number of arguments. `min` and `max` compare their arguments
/// one after the other, beginning with the first. `sqrt` and `sin` work on
/// their first argument and pass over the others. All but `sum` need an
/// argument.
pub open spec fn spec_builtin(
    f: Builtin,
    name: Seq<char>,
    operands: Seq<OperandView>,
    st: ResolutionView,
) -> Resolved {
    if needs_argument(f) && operands.len() == 0 {
        Err(msg_missing_argument(name))
    } else {
        match f {
            Builtin::Sum => Ok(
                spec_fold(BinaryOp::Add, operands, 0, OperandView::Value(Number::zero()), st),
            ),
            Builtin::Avg => {
                let (total, st1) = spec_fold(
                    BinaryOp::Add,
                    operands,
                    0,
                    OperandView::Value(Number::zero()),
                    st,
                );
                Ok(
                    st1.emit(
                        StepView::Binary(
                            BinaryOp::Divide,
                            total,
                            OperandView::Value(Number::spec_from_u64(operands.len() as u64)),
                        ),
                    ),
                )
            },
            Builtin::Min => Ok(spec_fold(BinaryOp::Minimum, operands, 1, operands[0], st)),
            Builtin::Max => Ok(spec_fold(BinaryOp::Maximum, operands, 1, operands[0], st)),
            Builtin::Sqrt => Ok(st.emit(StepView::Unary(UnaryOp::SquareRoot, operands[0]))),
            Builtin::Sin => Ok(st.emit(StepView::Unary(UnaryOp::Sine, operands[0]))),
        }
    }
}

/// Each of `operands` is a known number or the result of one of the first
/// `limit` steps.
pub open spec fn operands_below(operands: Seq<OperandView>, limit: int) -> bool {
    forall|i: int| 0 <= i < operands.len() ==> super::operand_below(#[trigger] operands[i], limit)
}

/// Folds the operands from place `start` on into `acc` with `op`.
fn fold(op: BinaryOp, operands: &Vec<Operand>, start: usize, acc: Operand, ctx: &mut Resolution) -> (r:
    Operand)
    requires
        old(ctx)@.wf(),
        operands_below(operands_view(operands@), old(ctx)@.steps.len() as int),
        super::operand_below(acc@, old(ctx)@.steps.len() as int),
    ensures
        (r@, final(ctx)@) == spec_fold(
            op,
            operands_view(operands@),
            start as int,
            acc@,
            old(ctx)@,
        ),
        final(ctx)@.wf(),
        final(ctx)@.steps.len() >= old(ctx)@.steps.len(),
        super::operand_below(r@, final(ctx)@.steps.len() as int),
{
    let mut i: usize = start;
    let ghost first = acc;
    let mut acc = acc;
    while i < operands.len()
        invariant
            ctx@.wf(),
            ctx@.steps.len() >= old(ctx)@.steps.len(),
            operands_below(operands_view(operands@), old(ctx)@.steps.len() as int),
            super::operand_below(acc@, ctx@.steps.len() as int),
            spec_fold(op, operands_view(operands@), start as int, first@, old(ctx)@) == spec_fold(
                op,
                operands_view(operands@),
                i as int,
                acc@,
                ctx@,
            ),
        decreases operands.len() - i,
    {
        assert(operands_view(operands@)[i as int] == operands@[i as int]@);
        acc = ctx.emit(Step::Binary(op, acc, operands[i]));
        i += 1;
    }
    acc
}

/// Resolves a call of the built-in function `f` under the name `name`.
pub fn visit_builtin(f: Builtin, name: &str, operands: &Vec<Operand>, ctx: &mut Resolution) -> (r:
    Result<Operand, String>)
    requires
        old(ctx)@.wf(),
        operands_below(operands_view(operands@), old(ctx)@.steps.len() as int),
    ensures
        match spec_builtin(f, name@, operands_view(operands@), old(ctx)@) {
            Ok((a, st)) => (r matches Ok(x) && x@ == a) && final(ctx)@ == st && st.wf()
                && super::operand_below(a, st.steps.len() as int) && st.steps.len() >= old(
                ctx,
            )@.steps.len(),
            Err(m) => r matches Err(s) && s@ == m,
        },
{
    if f != Builtin::Sum && operands.len() == 0 {
        let mut message = String::from_str("Function '");
        message.append(name);
        message.append("' needs at least one argument");
        return Err(message);
    }
    proof {
        if operands@.len() > 0 {
            assert(operands_view(operands@)[0] == operands@[0]@);
        }
    }
    match f {
        Builtin::Sum => Ok(fold(BinaryOp::Add, operands, 0, Operand::Value(Number::zero()), ctx)),
        Builtin::Avg => {
            let total = fold(BinaryOp::Add, operands, 0, Operand::Value(Number::zero()), ctx);
            let count = Operand::Value(Number::from_u64(operands.len() as u64));
            Ok(ctx.emit(Step::Binary(BinaryOp::Divide, total, count)))
        },
        Builtin::Min => Ok(fold(BinaryOp::Minimum, operands, 1, operands[0], ctx)),
        Builtin::Max => Ok(fold(BinaryOp::Maximum, operands, 1, operands[0], ctx)),
        Builtin::Sqrt => Ok(ctx.emit(Step::Unary(UnaryOp::SquareRoot, operands[0]))),
        Builtin::Sin => Ok(ctx.emit(Step::Unary(UnaryOp::Sine, operands[0]))),
    }
}

/// The mapping `env` with the built-in functions under their names.
pub open spec fn with_builtins(env: Map<Seq<char>, MemberView>) -> Map<Seq<char>, MemberView> {
    env.insert("sum"@, MemberView::Fn(FuncView::BuiltinFn(Builtin::Sum))).insert(
        "sqrt"@,
        MemberView::Fn(FuncView::BuiltinFn(Builtin::Sqrt)),
    ).insert("avg"@, MemberView::Fn(FuncView::BuiltinFn(Builtin::Avg))).insert(
        "min"@,
        MemberView::Fn(FuncView::BuiltinFn(Builtin::Min)),
    ).insert("max"@, MemberView::Fn(FuncView::BuiltinFn(Builtin::Max))).insert(
        "sin"@,
        MemberView::Fn(FuncView::BuiltinFn(Builtin::Sin)),
    )
}

/// Puts the built-in functions into `env` under their names.
pub fn insert_funcs(env: &mut Env)
    requires
        old(env).wf(),
    ensures
        final(env).wf(),
        final(env)@ == with_builtins(old(env)@),
{
    let _ = env.set_func(String::from_str("sum"), Func::BuiltinFn(Builtin::Sum));
    let _ = env.set_func(String::from_str("sqrt"), Func::BuiltinFn(Builtin::Sqrt));
    let _ = env.set_func(String::from_str("avg"), Func::BuiltinFn(Builtin::Avg));
    let _ = env.set_func(String::from_str("min"), Func::BuiltinFn(Builtin::Min));
    let _ = env.set_func(String::from_str("max"), Func::BuiltinFn(Builtin::Max));
    let _ = env.set_func(String::from_str("sin"), Func::BuiltinFn(Builtin::Sin));
}

} // verus!
