use calc::interpreter::ast::Literal;
use calc::interpreter::env::Env;
use calc::interpreter::parser::{AstPrinter, Parser};
use calc::number::Number;
use calc::scanner::{Scanner, Token, TokenKind};
use calc::util::{disp_num, get_ident_at_end, get_ident_range, insert_delimeter, DISPLAY_DIGITS};

fn assert_num(expected: &'static str, sign: bool, digits: &'static str, exp: Option<i32>, n: usize) {
    assert_eq!(expected, disp_num(sign, digits, exp, n).unwrap())
}

// Each case gives the sign, the digits and the exponent that a number of 256
// bits hands out when it is asked for that many significant digits.
#[test]
fn disp_num1() {
    // 1234.11
    assert_num("1234", false, "1234", Some(4), 4);
    // -1234.11
    assert_num("-1234", true, "1234", Some(4), 4);
    // 12.340000
    assert_num("12.34", false, "123400", Some(2), 6);
    // 0.01230
    assert_num("0.0123", false, "1230", Some(-1), 4);
    // 0.0001234
    assert_num("0.0001234", false, "1234", Some(-3), 4);
    // 12300
    assert_num("1.2e4", false, "12", Some(5), 2);
    // 000
    assert_num("0", false, "0", None, 2);
    // 0.01233
    assert_num("0.0123", false, "123", Some(-1), 3);
    // 0.000001233
    assert_num("1.23e-6", false, "123", Some(-5), 3);
    // 0.3
    assert_num("0.3", false, "3000000000000000", Some(0), 16);
}

#[test]
fn disp_num_regimes() {
    assert_eq!(DISPLAY_DIGITS, 32);
    // the point after `exp` digits, zeros at the end left out
    assert_num("1.5", false, "1500", Some(1), 4);
    assert_num("150", false, "1500", Some(3), 4);
    assert_num("10", false, "1000", Some(2), 4);
    // the digits are a whole number
    assert_num("1500", false, "1500", Some(4), 4);
    // zeros after the point
    assert_num("0.15", false, "1500", Some(0), 4);
    assert_num("0.00015", false, "1500", Some(-3), 4);
    assert_num("-0.00015", true, "1500", Some(-3), 4);
    // at the edge the scientific form begins
    assert_num("1.5e-5", false, "1500", Some(-4), 4);
    assert_num("1.5e4", false, "1500", Some(5), 4);
    assert_num("1e4", false, "1000", Some(5), 4);
    assert_num("-1.001e99", true, "1001", Some(100), 4);
    assert_num("1e-2147483649", false, "1", Some(i32::MIN), 1);
    assert_num("9e2147483646", false, "9", Some(i32::MAX), 1);
    // a number without an exponent is shown by its digits alone
    assert_num("inf", true, "inf", None, 4);
    assert_num("NaN", false, "NaN", None, 4);
    assert_num("0", true, "0", None, 4);
    // with no digits asked for every exponent is out of range
    assert_num("1e0", false, "1", Some(1), 0);
    assert_num("1", false, "1", Some(0), 0);
    assert_num("1e-2", false, "1", Some(-1), 0);
}

#[test]
fn disp_num_without_a_text() {
    // the point would stand behind the last digit
    assert_eq!(disp_num(false, "12", Some(3), 4), None);
    // no digit for the scientific form
    assert_eq!(disp_num(false, "", Some(9), 4), None);
    // digits that are no ASCII
    assert_eq!(disp_num(false, "١٢", Some(1), 4), None);
    assert_eq!(disp_num(false, "١٢", None, 4), Some("١٢".to_string()));
}

#[test]
fn insert_delimeter_cases() {
    assert_eq!(insert_delimeter("1234", 2), "12.34");
    assert_eq!(insert_delimeter("1200", 2), "12");
    assert_eq!(insert_delimeter("1230", 1), "1.23");
    assert_eq!(insert_delimeter("1230", 0), ".123");
    assert_eq!(insert_delimeter("1230", 4), "1230");
    assert_eq!(insert_delimeter("0000", 1), "0");
    assert_eq!(insert_delimeter("", 0), "");
}

#[test]
fn test_get_ident_name() {
    assert_eq!(get_ident_at_end("1abc"), Some("abc"));
    assert_eq!(get_ident_at_end("abc+bob1bob1"), Some("bob1bob1"));
    assert_eq!(get_ident_at_end("abc "), None)
}

#[test]
fn ident_range_cases() {
    assert_eq!(get_ident_range("1abc", 4), Some(1..4));
    assert_eq!(get_ident_range("1abc", 3), Some(1..3));
    assert_eq!(get_ident_range("1abc", 1), None);
    assert_eq!(get_ident_range("1abc", 0), None);
    assert_eq!(get_ident_range("12+34", 5), None);
    assert_eq!(get_ident_range("a1b2", 4), Some(0..4));
    assert_eq!(get_ident_range("x=sq", 4), Some(2..4));
    assert_eq!(get_ident_range("", 0), None);
    assert_eq!(get_ident_at_end(""), None);
    // behind the end of the text, or inside a character
    assert_eq!(get_ident_range("abc", 4), None);
    assert_eq!(get_ident_range("é", 1), None);
    assert_eq!(get_ident_range("éab", 4), Some(0..4));
    assert_eq!(get_ident_at_end("éab"), Some("éab"));
}

fn kinds(text: &str) -> Vec<(TokenKind, usize, usize)> {
    Scanner::new(text)
        .scan_tokens()
        .unwrap()
        .iter()
        .map(|t| {
            assert_eq!(t.span(), t.start..t.end);
            (t.kind, t.start, t.end)
        })
        .collect()
}

#[test]
fn scan_symbols() {
    assert_eq!(
        kinds("(),.-+/*^="),
        vec![
            (TokenKind::LParen, 0, 1),
            (TokenKind::RParen, 1, 2),
            (TokenKind::Comma, 2, 3),
            (TokenKind::Dot, 3, 4),
            (TokenKind::Minus, 4, 5),
            (TokenKind::Plus, 5, 6),
            (TokenKind::Slash, 6, 7),
            (TokenKind::Star, 7, 8),
            (TokenKind::Exp, 8, 9),
            (TokenKind::Equal, 9, 10),
            (TokenKind::Eof, 10, 10),
        ]
    );
}

#[test]
fn scan_numbers_and_names() {
    assert_eq!(kinds(""), vec![(TokenKind::Eof, 0, 0)]);
    assert_eq!(kinds("   "), vec![(TokenKind::Eof, 3, 3)]);
    assert_eq!(
        kinds(" 12.5 + x1 "),
        vec![
            (TokenKind::Number, 1, 5),
            (TokenKind::Plus, 6, 7),
            (TokenKind::Indentifier, 8, 10),
            (TokenKind::Eof, 11, 11),
        ]
    );
    // a point belongs to a numeral only where a digit follows it
    assert_eq!(
        kinds("1.x"),
        vec![
            (TokenKind::Number, 0, 1),
            (TokenKind::Dot, 1, 2),
            (TokenKind::Indentifier, 2, 3),
            (TokenKind::Eof, 3, 3),
        ]
    );
    assert_eq!(kinds("1."), vec![(TokenKind::Number, 0, 1), (TokenKind::Dot, 1, 2), (TokenKind::Eof, 2, 2)]);
    assert_eq!(
        kinds("1.2.3"),
        vec![
            (TokenKind::Number, 0, 3),
            (TokenKind::Dot, 3, 4),
            (TokenKind::Number, 4, 5),
            (TokenKind::Eof, 5, 5),
        ]
    );
    // a name begins with a letter; a digit before it is a numeral
    assert_eq!(
        kinds("2ab3"),
        vec![(TokenKind::Number, 0, 1), (TokenKind::Indentifier, 1, 4), (TokenKind::Eof, 4, 4)]
    );
}

#[test]
fn scan_literals() {
    let tokens = Scanner::new("007 3.140 x").scan_tokens().unwrap();
    assert_eq!(tokens[0].literal, Some(Literal::Number("007".to_string())));
    assert_eq!(tokens[1].literal, Some(Literal::Number("3.140".to_string())));
    assert_eq!(tokens[1].literal.as_ref().unwrap().to_string(), "3.140");
    assert_eq!(tokens[2].literal, None);
    assert_eq!(tokens[3].literal, None);
}

#[test]
fn scan_unknown() {
    assert_eq!(
        kinds("a_b"),
        vec![
            (TokenKind::Indentifier, 0, 1),
            (TokenKind::Unkown, 1, 2),
            (TokenKind::Indentifier, 2, 3),
            (TokenKind::Eof, 3, 3),
        ]
    );
    // a character of several bytes is one token
    assert_eq!(
        kinds("é+€\t"),
        vec![
            (TokenKind::Unkown, 0, 2),
            (TokenKind::Plus, 2, 3),
            (TokenKind::Unkown, 3, 6),
            (TokenKind::Unkown, 6, 7),
            (TokenKind::Eof, 7, 7),
        ]
    );
}

fn parse(text: &str) -> Result<String, String> {
    let tokens = Scanner::new(text).scan_tokens().unwrap();
    let stmt = Parser::new(&tokens, text).parse()?;
    Ok(AstPrinter { source: text }.visit_stmt(&stmt))
}

#[test]
fn parse_precedence() {
    assert_eq!(parse("2+3*4"), Ok("(+ 2 (* 3 4))".to_string()));
    assert_eq!(parse("(2+3)*4"), Ok("(* (group (+ 2 3)) 4)".to_string()));
    assert_eq!(parse("1-2-3"), Ok("(- (- 1 2) 3)".to_string()));
    assert_eq!(parse("1/2*3"), Ok("(* (/ 1 2) 3)".to_string()));
    assert_eq!(parse("2^3^2"), Ok("(^ (^ 2 3) 2)".to_string()));
    assert_eq!(parse("-2^2"), Ok("(- (^ 2 2))".to_string()));
    assert_eq!(parse("2^-3^2"), Ok("(^ (^ 2 (- 3)) 2)".to_string()));
    assert_eq!(parse("-2^-3"), Ok("(- (^ 2 (- 3)))".to_string()));
    assert_eq!(parse("2*-3"), Ok("(* 2 (- 3))".to_string()));
    assert_eq!(parse("--+1"), Ok("(- (- (+ 1)))".to_string()));
    assert_eq!(parse("1.50"), Ok("1.50".to_string()));
}

#[test]
fn parse_names_and_calls() {
    assert_eq!(parse("x"), Ok("x".to_string()));
    assert_eq!(parse("f(1)"), Ok("(f 1)".to_string()));
    assert_eq!(parse("f(x, g(2,3)+1)"), Ok("(f x (+ (g 2 3) 1))".to_string()));
    assert_eq!(parse("a1b2 + 1"), Ok("(+ a1b2 1)".to_string()));
}

#[test]
fn parse_assignments() {
    assert_eq!(parse("x = 1+2"), Ok("x = (+ 1 2)".to_string()));
    assert_eq!(parse("f(x)=x^2"), Ok("(f x) = (^ x 2)".to_string()));
    assert_eq!(parse("f(x,y)=x*y"), Ok("(f x y) = (* x y)".to_string()));
    assert_eq!(parse("ans=1"), Ok("ans = 1".to_string()));
}

#[test]
fn parse_errors() {
    assert_eq!(parse(""), Err("Expected expression".to_string()));
    assert_eq!(parse("1+"), Err("Expected expression".to_string()));
    assert_eq!(parse("*1"), Err("Expected expression".to_string()));
    assert_eq!(parse("f()"), Err("Expected expression".to_string()));
    assert_eq!(parse("a_b"), Err("Expected EOF".to_string()));
    assert_eq!(parse("é"), Err("Expected expression".to_string()));
    assert_eq!(parse("(1+2"), Err("Expect ')' after expression.".to_string()));
    assert_eq!(parse("f(1,2"), Err("Expect ')' after function call.".to_string()));
    assert_eq!(parse("f(1 2)"), Err("Expect ')' after function call.".to_string()));
    assert_eq!(parse("1 2"), Err("Expected EOF".to_string()));
    assert_eq!(parse("1)"), Err("Expected EOF".to_string()));
    assert_eq!(parse("x=1=2"), Err("Expected EOF".to_string()));
    assert_eq!(parse("f(1)=2"), Err("Invalid function args".to_string()));
    assert_eq!(parse("f(x,y+1)=2"), Err("Invalid function args".to_string()));
    assert_eq!(parse("1=2"), Err("Expected function or variable assignment".to_string()));
    assert_eq!(parse("(x)=2"), Err("Expected function or variable assignment".to_string()));
    assert_eq!(parse("x+y=2"), Err("Expected function or variable assignment".to_string()));
    // the value is parsed before the target is looked at
    assert_eq!(parse("1=*"), Err("Expected expression".to_string()));
}

#[test]
fn parse_tokens_that_do_not_fit_the_source() {
    let tokens = vec![
        Token { kind: TokenKind::Indentifier, literal: None, start: 0, end: 9 },
        Token { kind: TokenKind::Eof, literal: None, start: 9, end: 9 },
    ];
    assert_eq!(Parser::new(&tokens, "abc").parse().err(), Some("Expected expression".to_string()));
    let tokens = vec![Token { kind: TokenKind::Number, literal: None, start: 0, end: 1 }];
    assert_eq!(Parser::new(&tokens, "1").parse().err(), Some("Expected expression".to_string()));
    // behind the last token stands the end of input
    let tokens = vec![Token {
        kind: TokenKind::Number,
        literal: Some(Literal::Number("1".to_string())),
        start: 0,
        end: 1,
    }];
    let stmt = Parser::new(&tokens, "1").parse().unwrap();
    assert_eq!(AstPrinter { source: "1" }.visit_stmt(&stmt), "1");
    let empty: Vec<Token> = vec![];
    assert_eq!(Parser::new(&empty, "").parse().err(), Some("Expected expression".to_string()));
}

#[test]
fn printer_without_the_source() {
    let text = "1+2";
    let tokens = Scanner::new(text).scan_tokens().unwrap();
    let stmt = Parser::new(&tokens, text).parse().unwrap();
    assert_eq!(AstPrinter { source: "" }.visit_stmt(&stmt), "(? 1 2)");
}

#[test]
fn parser_error_points_at_the_token() {
    let text = "1 + * 2";
    let tokens = Scanner::new(text).scan_tokens().unwrap();
    let parser = Parser::new(&tokens, text);
    assert_eq!(
        parser.error("Expected expression".to_string(), &tokens[2]),
        "1 + * 2\n    ^ Expected expression"
    );
    assert_eq!(parser.error("x".to_string(), &tokens[0]), "1 + * 2\n^ x");
}

#[test]
fn env() {
    let mut e = Env::new();
    e.set_var("sin", Number::zero()).unwrap();
    e.set_var("sum", Number::zero()).unwrap();
    e.set_var("sqrt", Number::zero()).unwrap();
    let names: Vec<&str> = e.search("sq").into_iter().map(|(s, _)| s).collect();
    assert_eq!(names, vec!["sqrt"]);
}

#[test]
fn prefix_search() {
    let mut e = Env::new();
    for name in ["sum", "sqrt", "sin", "sq", "s", "t", "sqa", "r", "sr", "Sq", "sqrt2"] {
        e.set_var(name, Number::one()).unwrap();
    }
    let found = |q: &str| -> Vec<String> {
        e.search(q).into_iter().map(|(s, _)| s.to_string()).collect()
    };
    assert_eq!(found("sq"), vec!["sq", "sqa", "sqrt", "sqrt2"]);
    assert_eq!(found("sqrt"), vec!["sqrt", "sqrt2"]);
    assert_eq!(found("su"), vec!["sum"]);
    assert_eq!(found("x"), Vec::<String>::new());
    assert_eq!(found("sqrt22"), Vec::<String>::new());
    assert_eq!(
        found(""),
        vec!["Sq", "r", "s", "sin", "sq", "sqa", "sqrt", "sqrt2", "sr", "sum", "t"]
    );
}

#[test]
fn env_lookup() {
    let mut e = Env::new();
    assert!(e.get_var("x").is_none());
    assert!(e.get_func("x").is_none());
    e.set_var("x", Number::from_u64(1)).unwrap();
    e.set_var("x", Number::from_u64(2)).unwrap();
    assert_eq!(e.get_var("x").copied(), Some(Number::from_u64(2)));
    assert!(e.get_func("x").is_none());
    assert!(e.get_var("").is_none());
    assert!(e.get_var("xx").is_none());
    assert_eq!(e.search("").len(), 1);
}

#[test]
fn numbers_from_integers() {
    let n = Number::from_u64(14);
    assert_eq!((n.mantissa_hi, n.mantissa_lo, n.exponent, n.negative), (0, 14, 0, false));
    assert_eq!(Number::zero(), Number::from_u64(0));
    assert_eq!(Number::one(), Number::from_u64(1));
    assert_eq!(Number::from_u64(u64::MAX).mantissa_lo, 18446744073709551615);
}

#[test]
fn names_hold_letters_and_digits_of_every_script() {
    // a letter outside ASCII is a letter
    assert_eq!(get_ident_range("é", 2), Some(0..2));
    assert_eq!(get_ident_at_end("é"), Some("é"));
    assert_eq!(get_ident_at_end("1+ñu"), Some("ñu"));
    assert_eq!(get_ident_range("aπ2", 4), Some(0..4));
    assert_eq!(get_ident_range("aπ2", 3), Some(0..3));
    assert_eq!(get_ident_range("aπ2", 2), None);
    assert_eq!(get_ident_at_end("λ"), Some("λ"));
    // a digit outside ASCII is a digit, and no letter: a name goes on
    // through it, but does not begin with it
    assert_eq!(get_ident_at_end("٣"), None);
    assert_eq!(get_ident_at_end("٣a"), Some("a"));
    assert_eq!(get_ident_range("٣a", 3), Some(2..3));
    assert_eq!(get_ident_at_end("a٣"), Some("a٣"));
    assert_eq!(get_ident_at_end("1٣a٣"), Some("a٣"));
    // a character that is neither ends the run
    assert_eq!(get_ident_at_end("a€b"), Some("b"));
    assert_eq!(get_ident_range("a€b", 4), None);
    assert_eq!(get_ident_at_end("ab€"), None);
    assert_eq!(get_ident_at_end("a b"), Some("b"));
    assert_eq!(get_ident_at_end("a_b"), Some("b"));
}

#[test]
fn no_scan_error_can_be_made() {
    assert_eq!(std::mem::size_of::<calc::scanner::ScanError>(), 0);
    assert_eq!(std::mem::size_of::<Option<calc::scanner::ScanError>>(), 0);
}
