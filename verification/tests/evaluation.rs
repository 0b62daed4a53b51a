use calc::interpreter::env::{Builtin, EnvMember, EnvMemberKind, Func};
use calc::interpreter::evaluation::{Action, Evaluation, Request};
use calc::interpreter::parser::{AstPrinter, Parser};
use calc::interpreter::{BinaryOp, Effect, Interpreter, Operand, Step, UnaryOp, MAX_CALL_DEPTH};
use calc::number::{Number, NumberClass};
use calc::interpreter::ast::{BinaryExpr, Expr, FnCall, Literal, UnaryExpr};
use calc::interpreter::Resolution;
use calc::scanner::{Scanner, Token, TokenKind};

// The arithmetic of these tests is done in `f64`. Every value that occurs in
// them is a small integer or a fraction with a power of two below it, so the
// conversions are exact.

fn from_f64(x: f64) -> Number {
    if x.is_nan() {
        return Number {
            class: NumberClass::NotANumber,
            negative: false,
            mantissa_hi: 0,
            mantissa_lo: 0,
            exponent: 0,
        };
    }
    let negative = x.is_sign_negative();
    if x.is_infinite() {
        return Number {
            class: NumberClass::Infinite,
            negative,
            mantissa_hi: 0,
            mantissa_lo: 0,
            exponent: 0,
        };
    }
    let mut magnitude = x.abs();
    let mut exponent = 0;
    while magnitude != 0.0 && magnitude.fract() != 0.0 {
        magnitude *= 2.0;
        exponent -= 1;
    }
    while magnitude >= 18446744073709551616.0 {
        magnitude /= 2.0;
        exponent += 1;
    }
    Number {
        class: NumberClass::Finite,
        negative,
        mantissa_hi: 0,
        mantissa_lo: magnitude as u128,
        exponent,
    }
}

fn to_f64(n: Number) -> f64 {
    let magnitude = match n.class {
        NumberClass::NotANumber => return f64::NAN,
        NumberClass::Infinite => f64::INFINITY,
        NumberClass::Finite => {
            (n.mantissa_hi as f64 * 2f64.powi(128) + n.mantissa_lo as f64) * 2f64.powi(n.exponent)
        }
    };
    if n.negative {
        -magnitude
    } else {
        magnitude
    }
}

fn compute(request: Request) -> Number {
    match request {
        Request::Parse(text) => from_f64(text.parse::<f64>().unwrap()),
        Request::Unary(op, a) => {
            let a = to_f64(a);
            from_f64(match op {
                UnaryOp::Negate => -a,
                UnaryOp::SquareRoot => a.sqrt(),
                UnaryOp::Sine => a.sin(),
            })
        }
        Request::Binary(op, a, b) => {
            let (x, y) = (to_f64(a), to_f64(b));
            match op {
                BinaryOp::Add => from_f64(x + y),
                BinaryOp::Subtract => from_f64(x - y),
                BinaryOp::Multiply => from_f64(x * y),
                BinaryOp::Divide => from_f64(x / y),
                BinaryOp::Power => from_f64(x.powf(y)),
                BinaryOp::Minimum => {
                    if y < x {
                        b
                    } else {
                        a
                    }
                }
                BinaryOp::Maximum => {
                    if y > x {
                        b
                    } else {
                        a
                    }
                }
            }
        }
    }
}

fn eval(interpreter: &mut Interpreter, text: &str) -> Result<f64, String> {
    let tokens = Scanner::new(text).scan_tokens().unwrap();
    let stmt = Parser::new(&tokens, text).parse()?;
    let program = interpreter.visit_stmt_owned(stmt)?;
    let mut run = Evaluation::new(program);
    let mut answer = None;
    loop {
        match interpreter.advance(&mut run, answer) {
            Action::Finished(value) => return Ok(to_f64(value)),
            Action::Compute(request) => answer = Some(compute(request)),
        }
    }
}

fn preview(interpreter: &mut Interpreter, text: &str) -> Result<f64, String> {
    interpreter.save_assignments = false;
    let result = eval(interpreter, text);
    interpreter.save_assignments = true;
    result
}

fn program(interpreter: &Interpreter, text: &str) -> Result<(Vec<Step>, Operand), String> {
    let tokens = Scanner::new(text).scan_tokens().unwrap();
    let stmt = Parser::new(&tokens, text).parse()?;
    let program = interpreter.visit_stmt_owned(stmt)?;
    Ok((program.steps, program.result))
}

#[test]
fn arithmetic_precedence() {
    let mut i = Interpreter::new();
    assert_eq!(eval(&mut i, "2+3*4"), Ok(14.0));
    assert_eq!(eval(&mut i, "(2+3)*4"), Ok(20.0));
    assert_eq!(eval(&mut i, "10-4-3"), Ok(3.0));
    assert_eq!(eval(&mut i, "8/4/2"), Ok(1.0));
    assert_eq!(eval(&mut i, "2*-3"), Ok(-6.0));
}

#[test]
fn exponent_folds_to_the_left() {
    let mut i = Interpreter::new();
    assert_eq!(eval(&mut i, "2^3^2"), Ok(64.0));
}

#[test]
fn sign_is_looser_than_exponent() {
    let mut i = Interpreter::new();
    assert_eq!(eval(&mut i, "-2^2"), Ok(-4.0));
    assert_eq!(eval(&mut i, "2^-1"), Ok(0.5));
    assert_eq!(eval(&mut i, "+5"), Ok(5.0));
}

#[test]
fn assignment_then_reference() {
    let mut i = Interpreter::new();
    assert_eq!(eval(&mut i, "x=5"), Ok(5.0));
    assert_eq!(eval(&mut i, "x+1"), Ok(6.0));
    assert_eq!(i.env.get_var("x").copied(), Some(Number::from_u64(5)));
}

#[test]
fn function_definition_and_call() {
    let mut i = Interpreter::new();
    assert_eq!(eval(&mut i, "f(x)=x^2"), Ok(1.0));
    assert_eq!(eval(&mut i, "f(3)"), Ok(9.0));
    assert_eq!(eval(&mut i, "f(1+2)+f(2)"), Ok(13.0));
}

#[test]
fn function_body_is_not_looked_at_when_defined() {
    let mut i = Interpreter::new();
    assert_eq!(eval(&mut i, "f(x)=nothing(x)+y"), Ok(1.0));
    assert_eq!(eval(&mut i, "f(1)"), Err("No function named 'nothing'".to_string()));
}

#[test]
fn arity_mismatch() {
    let mut i = Interpreter::new();
    assert_eq!(eval(&mut i, "f(x)=x"), Ok(1.0));
    assert_eq!(eval(&mut i, "f(1,2)"), Err("Function 'f' takes 1 args".to_string()));
    assert_eq!(eval(&mut i, "g(a,b,c)=a"), Ok(1.0));
    assert_eq!(eval(&mut i, "g(1)"), Err("Function 'g' takes 3 args".to_string()));
}

#[test]
fn undeclared_identifier() {
    let mut i = Interpreter::new();
    assert_eq!(eval(&mut i, "y+1"), Err("Undeclared variable 'y'".to_string()));
}

#[test]
fn unknown_function() {
    let mut i = Interpreter::new();
    assert_eq!(eval(&mut i, "h(1)"), Err("No function named 'h'".to_string()));
    assert_eq!(eval(&mut i, "x=1"), Ok(1.0));
    assert_eq!(eval(&mut i, "x(1)"), Err("No function named 'x'".to_string()));
}

#[test]
fn arguments_are_resolved_before_the_function_is_looked_up() {
    let mut i = Interpreter::new();
    assert_eq!(eval(&mut i, "h(y)"), Err("Undeclared variable 'y'".to_string()));
}

#[test]
fn ans_register() {
    let mut i = Interpreter::new();
    assert_eq!(eval(&mut i, "ans"), Ok(0.0));
    assert_eq!(eval(&mut i, "2+2"), Ok(4.0));
    assert_eq!(eval(&mut i, "ans*2"), Ok(8.0));
    assert_eq!(eval(&mut i, "ans"), Ok(8.0));
}

#[test]
fn ans_is_never_read_from_the_environment() {
    let mut i = Interpreter::new();
    assert_eq!(eval(&mut i, "ans=1"), Ok(1.0));
    assert_eq!(i.env.get_var("ans").copied(), Some(Number::from_u64(1)));
    assert_eq!(eval(&mut i, "7"), Ok(7.0));
    assert_eq!(eval(&mut i, "ans"), Ok(7.0));
    assert_eq!(eval(&mut i, "f(ans)=ans"), Ok(1.0));
    assert_eq!(eval(&mut i, "5"), Ok(5.0));
    assert_eq!(eval(&mut i, "f(3)"), Ok(5.0));
}

#[test]
fn preview_changes_nothing() {
    let mut i = Interpreter::new();
    assert_eq!(preview(&mut i, "x=9"), Ok(9.0));
    assert_eq!(eval(&mut i, "x"), Err("Undeclared variable 'x'".to_string()));
    assert_eq!(preview(&mut i, "f(a)=a"), Ok(1.0));
    assert_eq!(eval(&mut i, "f(1)"), Err("No function named 'f'".to_string()));
    assert_eq!(eval(&mut i, "3"), Ok(3.0));
    assert_eq!(preview(&mut i, "4"), Ok(4.0));
    assert_eq!(eval(&mut i, "ans"), Ok(3.0));
}

#[test]
fn failed_evaluation_changes_nothing() {
    let mut i = Interpreter::new();
    assert_eq!(eval(&mut i, "3"), Ok(3.0));
    assert_eq!(eval(&mut i, "x=y"), Err("Undeclared variable 'y'".to_string()));
    assert!(i.env.get_var("x").is_none());
    assert_eq!(eval(&mut i, "ans"), Ok(3.0));
}

#[test]
fn variable_and_function_share_one_name_space() {
    let mut i = Interpreter::new();
    assert_eq!(eval(&mut i, "v=2"), Ok(2.0));
    assert_eq!(eval(&mut i, "v(x)=x+1"), Ok(1.0));
    assert_eq!(eval(&mut i, "v"), Err("Undeclared variable 'v'".to_string()));
    assert_eq!(eval(&mut i, "v(1)"), Ok(2.0));
    assert_eq!(eval(&mut i, "v=4"), Ok(4.0));
    assert_eq!(eval(&mut i, "v(1)"), Err("No function named 'v'".to_string()));
    assert_eq!(eval(&mut i, "sum=1"), Ok(1.0));
    assert_eq!(eval(&mut i, "sum(1,2)"), Err("No function named 'sum'".to_string()));
}

#[test]
fn parameters_shadow_variables_but_not_functions() {
    let mut i = Interpreter::new();
    assert_eq!(eval(&mut i, "x=10"), Ok(10.0));
    assert_eq!(eval(&mut i, "f(x)=x+1"), Ok(1.0));
    assert_eq!(eval(&mut i, "f(1)"), Ok(2.0));
    assert_eq!(eval(&mut i, "x"), Ok(10.0));
    assert_eq!(eval(&mut i, "g(sum)=sum(sum,sum)"), Ok(1.0));
    assert_eq!(eval(&mut i, "g(4)"), Ok(8.0));
}

#[test]
fn of_two_parameters_with_one_name_the_later_counts() {
    let mut i = Interpreter::new();
    assert_eq!(eval(&mut i, "f(a,a)=a"), Ok(1.0));
    assert_eq!(eval(&mut i, "f(1,2)"), Ok(2.0));
}

#[test]
fn a_call_in_a_body_empties_the_scope() {
    let mut i = Interpreter::new();
    assert_eq!(eval(&mut i, "f(x)=x"), Ok(1.0));
    assert_eq!(eval(&mut i, "g(y)=f(y)+y"), Ok(1.0));
    assert_eq!(eval(&mut i, "g(1)"), Err("Undeclared variable 'y'".to_string()));
    assert_eq!(eval(&mut i, "h(y)=y+f(y)"), Ok(1.0));
    assert_eq!(eval(&mut i, "h(1)"), Ok(2.0));
    assert_eq!(eval(&mut i, "y=100"), Ok(100.0));
    assert_eq!(eval(&mut i, "g(1)"), Ok(101.0));
    assert_eq!(eval(&mut i, "k(y)=sum(y)+y"), Ok(1.0));
    assert_eq!(eval(&mut i, "k(1)"), Ok(2.0));
}

#[test]
fn a_function_that_calls_itself_runs_into_the_limit() {
    let mut i = Interpreter::new();
    assert_eq!(MAX_CALL_DEPTH, 64);
    assert_eq!(eval(&mut i, "f(x)=f(x)+1"), Ok(1.0));
    assert_eq!(eval(&mut i, "f(1)"), Err("Function 'f' is nested too deeply".to_string()));
    assert_eq!(eval(&mut i, "a(x)=b(x)"), Ok(1.0));
    assert_eq!(eval(&mut i, "b(x)=a(x)"), Ok(1.0));
    assert!(eval(&mut i, "a(1)").is_err());
}

#[test]
fn builtin_functions() {
    let mut i = Interpreter::new();
    assert_eq!(eval(&mut i, "sum(1,2,3,4)"), Ok(10.0));
    assert_eq!(eval(&mut i, "avg(1,2,3,6)"), Ok(3.0));
    assert_eq!(eval(&mut i, "min(3,1,2)"), Ok(1.0));
    assert_eq!(eval(&mut i, "max(3,7,2)"), Ok(7.0));
    assert_eq!(eval(&mut i, "sqrt(16)"), Ok(4.0));
    assert_eq!(eval(&mut i, "sqrt(16,25)"), Ok(4.0));
    assert_eq!(eval(&mut i, "sin(0)"), Ok(0.0));
    assert_eq!(eval(&mut i, "sin(0,1)"), Ok(0.0));
    assert_eq!(eval(&mut i, "min(5)"), Ok(5.0));
    assert_eq!(eval(&mut i, "sum(5)"), Ok(5.0));
}

#[test]
fn builtin_functions_are_there_from_the_start() {
    let i = Interpreter::new();
    for (name, builtin) in [
        ("sum", Builtin::Sum),
        ("sqrt", Builtin::Sqrt),
        ("avg", Builtin::Avg),
        ("min", Builtin::Min),
        ("max", Builtin::Max),
        ("sin", Builtin::Sin),
    ] {
        match i.env.get_func(name) {
            Some(Func::BuiltinFn(b)) => assert_eq!(*b, builtin),
            _ => panic!("{name} is missing"),
        }
    }
    let names: Vec<&str> = i.env.search("").into_iter().map(|(name, _)| name).collect();
    assert_eq!(names, vec!["avg", "max", "min", "sin", "sqrt", "sum"]);
    assert_eq!(i.last_ans, Number::zero());
    assert!(i.save_assignments);
}

#[test]
fn builtin_without_argument() {
    let mut i = Interpreter::new();
    // a call has at least one argument by the grammar, so a call without
    // one is built by hand
    for name in ["avg", "min", "max", "sqrt", "sin"] {
        let call = FnCall { name: name.to_string(), arguments: vec![] };
        let mut ctx = Resolution::new();
        assert_eq!(
            i.visit_func_call(&call, &mut ctx, MAX_CALL_DEPTH),
            Err(format!("Function '{name}' needs at least one argument"))
        );
    }
    let call = FnCall { name: "sum".to_string(), arguments: vec![] };
    let mut ctx = Resolution::new();
    assert_eq!(
        i.visit_func_call(&call, &mut ctx, MAX_CALL_DEPTH),
        Ok(Operand::Value(Number::zero()))
    );
    assert!(ctx.steps.is_empty());
    assert_eq!(eval(&mut i, "1"), Ok(1.0));
}

#[test]
fn programs_are_straight_lines() {
    let i = Interpreter::new();
    assert_eq!(
        program(&i, "2+3*4"),
        Ok((
            vec![
                Step::Parse("2".to_string()),
                Step::Parse("3".to_string()),
                Step::Parse("4".to_string()),
                Step::Binary(BinaryOp::Multiply, Operand::Step(1), Operand::Step(2)),
                Step::Binary(BinaryOp::Add, Operand::Step(0), Operand::Step(3)),
            ],
            Operand::Step(4)
        ))
    );
    assert_eq!(
        program(&i, "-(1.50)"),
        Ok((
            vec![Step::Parse("1.50".to_string()), Step::Unary(UnaryOp::Negate, Operand::Step(0))],
            Operand::Step(1)
        ))
    );
    assert_eq!(program(&i, "ans"), Ok((vec![], Operand::Value(Number::zero()))));
    assert_eq!(
        program(&i, "avg(7,9)"),
        Ok((
            vec![
                Step::Parse("7".to_string()),
                Step::Parse("9".to_string()),
                Step::Binary(BinaryOp::Add, Operand::Value(Number::zero()), Operand::Step(0)),
                Step::Binary(BinaryOp::Add, Operand::Step(2), Operand::Step(1)),
                Step::Binary(
                    BinaryOp::Divide,
                    Operand::Step(3),
                    Operand::Value(Number::from_u64(2))
                ),
            ],
            Operand::Step(4)
        ))
    );
    assert_eq!(
        program(&i, "max(1,2,3)"),
        Ok((
            vec![
                Step::Parse("1".to_string()),
                Step::Parse("2".to_string()),
                Step::Parse("3".to_string()),
                Step::Binary(BinaryOp::Maximum, Operand::Step(0), Operand::Step(1)),
                Step::Binary(BinaryOp::Maximum, Operand::Step(3), Operand::Step(2)),
            ],
            Operand::Step(4)
        ))
    );
    assert_eq!(
        program(&i, "sqrt(2,y)"),
        Err("Undeclared variable 'y'".to_string())
    );
}

#[test]
fn an_argument_is_computed_once() {
    let mut i = Interpreter::new();
    assert_eq!(eval(&mut i, "f(x)=x*x"), Ok(1.0));
    assert_eq!(
        program(&i, "f(3)"),
        Ok((
            vec![
                Step::Parse("3".to_string()),
                Step::Binary(BinaryOp::Multiply, Operand::Step(0), Operand::Step(0)),
            ],
            Operand::Step(1)
        ))
    );
}

#[test]
fn effects_of_statements() {
    let mut i = Interpreter::new();
    let text = "x=1";
    let tokens = Scanner::new(text).scan_tokens().unwrap();
    let stmt = Parser::new(&tokens, text).parse().unwrap();
    let p = i.visit_stmt_owned(stmt).unwrap();
    assert!(matches!(&p.effect, Effect::SetVar(name) if name == "x"));
    let text = "f(a,b)=a";
    let tokens = Scanner::new(text).scan_tokens().unwrap();
    let stmt = Parser::new(&tokens, text).parse().unwrap();
    let p = i.visit_stmt_owned(stmt).unwrap();
    assert_eq!(p.result, Operand::Value(Number::one()));
    assert!(p.steps.is_empty());
    match &p.effect {
        Effect::SetFunc(name, f) => {
            assert_eq!(name, "f");
            assert_eq!(f.arguments, vec!["a".to_string(), "b".to_string()]);
            assert_eq!(AstPrinter { source: text }.visit_expr(&f.expr), "a");
        }
        _ => panic!("no function"),
    }
    i.save_assignments = false;
    let tokens = Scanner::new(text).scan_tokens().unwrap();
    let stmt = Parser::new(&tokens, text).parse().unwrap();
    let p = i.visit_stmt_owned(stmt).unwrap();
    assert!(matches!(p.effect, Effect::Nothing));
}

#[test]
fn the_machine_step_by_step() {
    let mut i = Interpreter::new();
    let text = "x=1+2";
    let tokens = Scanner::new(text).scan_tokens().unwrap();
    let stmt = Parser::new(&tokens, text).parse().unwrap();
    let mut run = Evaluation::new(i.visit_stmt_owned(stmt).unwrap());
    assert!(!run.is_done());
    assert_eq!(run.result(), None);
    let one = Number::from_u64(1);
    let two = Number::from_u64(2);
    let three = Number::from_u64(3);
    assert_eq!(i.advance(&mut run, None), Action::Compute(Request::Parse("1".to_string())));
    // without an answer the request is made again
    assert_eq!(i.advance(&mut run, None), Action::Compute(Request::Parse("1".to_string())));
    assert_eq!(i.advance(&mut run, Some(one)), Action::Compute(Request::Parse("2".to_string())));
    assert_eq!(
        i.advance(&mut run, Some(two)),
        Action::Compute(Request::Binary(BinaryOp::Add, one, two))
    );
    assert_eq!(run.request(), Some(Request::Binary(BinaryOp::Add, one, two)));
    assert!(i.env.get_var("x").is_none());
    assert_eq!(i.advance(&mut run, Some(three)), Action::Finished(three));
    assert!(run.is_done());
    assert_eq!(run.request(), None);
    assert_eq!(run.result(), Some(three));
    assert_eq!(i.env.get_var("x").copied(), Some(three));
    assert_eq!(i.last_ans, three);
    // an answer that nobody asked for is passed over
    assert_eq!(i.advance(&mut run, Some(one)), Action::Finished(three));
    assert_eq!(i.last_ans, three);
}

#[test]
fn members_have_kinds() {
    let mut i = Interpreter::new();
    assert_eq!(eval(&mut i, "sq=2"), Ok(2.0));
    let found = i.env.search("sq");
    let kinds: Vec<(&str, EnvMemberKind)> =
        found.iter().map(|(name, member)| (*name, member.to_kind())).collect();
    assert_eq!(kinds, vec![("sq", EnvMemberKind::Var), ("sqrt", EnvMemberKind::Fn)]);
    assert!(matches!(found[0].1, EnvMember::Var(_)));
}

#[test]
fn unexpected_operator() {
    let i = Interpreter::new();
    let comma = Token { kind: TokenKind::Comma, literal: None, start: 0, end: 1 };
    let one = || Expr::Literal(Literal::Number("1".to_string()));
    let mut ctx = Resolution::new();
    let e = Expr::Unary(Box::new(UnaryExpr { operator: comma.clone(), rhs: one() }));
    assert_eq!(i.visit_expr(&e, &mut ctx, 1), Err("Unexpected Token".to_string()));
    let e = Expr::Binary(Box::new(BinaryExpr { lhs: one(), operator: comma, rhs: one() }));
    assert_eq!(i.visit_expr(&e, &mut ctx, 1), Err("Unexpected Token".to_string()));
}
