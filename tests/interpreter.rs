use rome::number::parse_decimal;
use rome::{new_core_model, parse, read_eval, tokenise, Decimal, Model, Oexp, RomeError};

fn run(line: &str, env: &mut Model) -> Result<Oexp, RomeError> {
    read_eval(line.to_string(), env)
}

fn shown(r: Result<Oexp, RomeError>) -> String {
    match r {
        Ok(v) => v.to_text(),
        Err(e) => panic!("unexpected error {:?}", e),
    }
}

fn operator_message(r: Result<Oexp, RomeError>) -> String {
    match r {
        Err(RomeError::OperatorError(m)) => m,
        other => panic!("expected an operator error, got {:?}", other),
    }
}

fn reader_message(r: Result<Oexp, RomeError>) -> String {
    match r {
        Err(RomeError::ReaderError(m)) => m,
        other => panic!("expected a reader error, got {:?}", other),
    }
}

fn is_not_implemented(r: &Result<Oexp, RomeError>) -> bool {
    matches!(r, Err(RomeError::NotImplemented(_)))
}

fn toks(words: &[&str]) -> Vec<String> {
    words.iter().map(|w| w.to_string()).collect()
}

#[test]
fn tokenise_simple_call() {
    assert_eq!(tokenise("(+ 1 2)".to_string()), toks(&["(", "+", "1", "2", ")"]));
}

#[test]
fn tokenise_nested_and_unicode_space() {
    assert_eq!(
        tokenise("\t((a\u{3000}b)>= =<)\n".to_string()),
        toks(&["(", "(", "a", "b", ")", ">=", "=<", ")"])
    );
    assert_eq!(tokenise("   ".to_string()), Vec::<String>::new());
}

#[test]
fn parse_simple_call() {
    let tokens = tokenise("(+ 1 2)".to_string());
    let (exp, rest) = parse(&tokens).unwrap();
    assert!(rest.is_empty());
    match exp {
        Oexp::List(items) => {
            assert_eq!(items.len(), 3);
            assert!(matches!(&items[0], Oexp::Symbol(s) if s == "+"));
            assert!(matches!(&items[1], Oexp::Number(d) if *d == Decimal::from_int(1)));
            assert!(matches!(&items[2], Oexp::Number(d) if *d == Decimal::from_int(2)));
        }
        other => panic!("expected a list, got {:?}", other),
    }
}

#[test]
fn parse_leaves_the_rest() {
    let tokens = toks(&["a", "(", "b", ")"]);
    let (exp, rest) = parse(&tokens).unwrap();
    assert!(matches!(exp, Oexp::Symbol(ref s) if s == "a"));
    assert_eq!(rest.len(), 3);
}

#[test]
fn parse_atoms() {
    let tokens = toks(&["true", "false", "-1.50", "1.2.3", ".5", "x"]);
    let (t, rest) = parse(&tokens).unwrap();
    assert!(matches!(t, Oexp::Boolean(true)));
    let (f, rest) = parse(rest).unwrap();
    assert!(matches!(f, Oexp::Boolean(false)));
    let (n, rest) = parse(rest).unwrap();
    assert!(matches!(n, Oexp::Number(d) if d == Decimal { mantissa: -150, scale: 2 }));
    let (s, rest) = parse(rest).unwrap();
    assert!(matches!(s, Oexp::Symbol(ref v) if v == "1.2.3"));
    let (h, rest) = parse(rest).unwrap();
    assert!(matches!(h, Oexp::Number(d) if d == Decimal { mantissa: 5, scale: 1 }));
    let (x, rest) = parse(rest).unwrap();
    assert!(matches!(x, Oexp::Symbol(ref v) if v == "x"));
    assert!(rest.is_empty());
}

#[test]
fn parse_errors() {
    let open = tokenise("(+ 1 2".to_string());
    assert!(matches!(parse(&open), Err(RomeError::ReaderError(ref m)) if m == "could not find closing parens"));
    let close = tokenise(")".to_string());
    assert!(matches!(
        parse(&close),
        Err(RomeError::ReaderError(ref m)) if m == "unexpectedly encountered a closing parens"
    ));
    let env = &mut new_core_model();
    assert_eq!(reader_message(run("(+ 1 2", env)), "could not find closing parens");
    assert_eq!(reader_message(run(")", env)), "unexpectedly encountered a closing parens");
    assert_eq!(reader_message(run("", env)), "Could not parse token");
}

#[test]
fn eval_sum() {
    let env = &mut new_core_model();
    let r = run("(1 2 +)", env).unwrap();
    assert!(matches!(r, Oexp::Number(d) if d == Decimal::from_int(3)));
    let z = run("(+)", env).unwrap();
    assert!(matches!(z, Oexp::Number(d) if d == Decimal::from_int(0)));
    assert_eq!(shown(run("(0.5 0.25 +)", env)), "0.75");
    assert_eq!(shown(run("(1.5 1.5 +)", env)), "3");
}

#[test]
fn eval_sum_written_first_is_not_a_call() {
    let env = &mut new_core_model();
    assert_eq!(operator_message(run("(+ 1 2)", env)), "The last form must be a function");
}

#[test]
fn eval_sum_errors() {
    let env = &mut new_core_model();
    assert_eq!(reader_message(run("(true 1 +)", env)), "expected a number");
    assert_eq!(operator_message(run("(9223372036854775807 1 +)", env)), "number out of range");
}

#[test]
fn define_then_lookup() {
    let env = &mut new_core_model();
    let r = run("(x = 5 .)", env).unwrap();
    assert!(matches!(r, Oexp::Symbol(ref s) if s == "x"));
    let v = run("x", env).unwrap();
    assert!(matches!(v, Oexp::Number(d) if d == Decimal::from_int(5)));
    run("(x = (x 1 +) .)", env).unwrap();
    assert_eq!(shown(run("x", env)), "6");
}

#[test]
fn define_errors() {
    let env = &mut new_core_model();
    assert_eq!(operator_message(run("(.)", env)), "expected a subject as first form in definition");
    assert_eq!(
        operator_message(run("(1 = 2 .)", env)),
        "Expected subject to be an oexp of type symbol"
    );
    assert_eq!(operator_message(run("(x = .)", env)), "expected an object as third form in definition");
    assert_eq!(
        operator_message(run("(x = 1 2 .)", env)),
        "A definition can have only subject, verb and object. I can't handle more..."
    );
    assert!(is_not_implemented(&run("(x > 1 .)", env)));
    assert!(operator_message(run("(y = nope .)", env)).contains("nope"));
    assert!(operator_message(run("y", env)).contains("y"));
}

#[test]
fn conditional_picks_a_branch() {
    let env = &mut new_core_model();
    assert_eq!(shown(run("(10 if (2 > 1 ?) else 20 ?)", env)), "10");
    assert_eq!(shown(run("(10 if (1 > 2 ?) else 20 ?)", env)), "20");
    assert_eq!(shown(run("(10 if true else 20 ?)", env)), "10");
    assert_eq!(shown(run("(10 if true or ?)", env)), "10");
}

#[test]
fn conditional_errors() {
    let env = &mut new_core_model();
    assert_eq!(
        operator_message(run("(10 if (1 > 2 ?) ?)", env)),
        "expected an else/or branch to if"
    );
    assert_eq!(operator_message(run("(10 if true ?)", env)), "expected an else/or branch to if");
    assert_eq!(operator_message(run("(10 if (y = 1 .) ?)", env)), "expected an else/or branch to if");
    assert!(operator_message(run("y", env)).contains("y"));
    assert_eq!(operator_message(run("(10 if false else ?)", env)), "...else what?...");
    assert_eq!(
        operator_message(run("(10 if false otherwise 2 ?)", env)),
        "Expected else or or after if condition"
    );
    assert_eq!(reader_message(run("(10 if false 3 2 ?)", env)), "could not read this keyword");
    assert_eq!(operator_message(run("(10 if 1 else 2 ?)", env)), "Unexpected test form");
    assert!(is_not_implemented(&run("(10 if false or 2 ?)", env)));
    assert_eq!(
        operator_message(run("(1 if ?)", env)),
        "expected an object as third form in conditional"
    );
}

#[test]
fn comparison() {
    let env = &mut new_core_model();
    assert_eq!(shown(run("(2 > 1 ?)", env)), "true");
    assert_eq!(shown(run("(1.5 > 1.50 ?)", env)), "false");
    assert_eq!(shown(run("(-2 > -3 ?)", env)), "true");
    assert_eq!(
        operator_message(run("(a > 1 ?)", env)),
        "Can compare only two numbers (as of now)"
    );
    assert!(is_not_implemented(&run("(1 < 2 ?)", env)));
}

#[test]
fn unbound_symbol() {
    let env = &mut new_core_model();
    let m = operator_message(run("foo", env));
    assert!(m.contains("foo"));
    assert_eq!(m, "Unexpected symbol k='foo'");
}

#[test]
fn last_form_must_be_function() {
    let env = &mut new_core_model();
    assert_eq!(operator_message(run("(1 2 3)", env)), "The last form must be a function");
    assert_eq!(operator_message(run("()", env)), "Did not expect an empty list here");
}

#[test]
fn lambda_construction() {
    let env = &mut new_core_model();
    let r = run("((a b) => (a b +) fn)", env).unwrap();
    assert!(matches!(r, Oexp::FunctionDef(_)));
    assert_eq!(r.to_text(), "Function Definition: {}");
    assert_eq!(
        operator_message(run("(x fn)", env)),
        "expected a verb as second form in conditional"
    );
    assert!(is_not_implemented(&run("(f = x fn)", env)));
}

#[test]
fn display_forms() {
    let env = &mut new_core_model();
    assert_eq!(shown(run("+", env)), "Function: {}");
    let tokens = tokenise("(a (1 true) -0.050 2.50)".to_string());
    let (exp, _) = parse(&tokens).unwrap();
    assert_eq!(exp.to_text(), "(a , (1 , true) , -0.05 , 2.5)");
    assert_eq!(Oexp::List(vec![]).to_text(), "()");
}

#[test]
fn retokenise_joined_tokens() {
    for line in ["(a(b  c)\td)", "((x = 5 .))", "  +  ", "(1.5 -2 +)"] {
        let tokens = tokenise(line.to_string());
        assert_eq!(tokenise(tokens.join(" ")), tokens);
    }
}

#[test]
fn table_lookup_and_define() {
    let mut env = new_core_model();
    let name = "k".to_string();
    assert!(env.lookup(&name).is_none());
    assert!(matches!(env.lookup(&"+".to_string()), Some(Oexp::Function(_))));
    env.define(name.clone(), Oexp::Boolean(true));
    assert!(matches!(env.lookup(&name), Some(Oexp::Boolean(true))));
    env.define(name.clone(), Oexp::Number(Decimal::from_int(7)));
    assert!(matches!(env.lookup(&name), Some(Oexp::Number(d)) if d == Decimal::from_int(7)));
}

#[test]
fn decimal_arithmetic() {
    let a = Decimal { mantissa: 15, scale: 1 };
    let b = Decimal { mantissa: 25, scale: 2 };
    assert_eq!(a.checked_add(&b), Some(Decimal { mantissa: 175, scale: 2 }));
    assert_eq!(a.greater(&b), Some(true));
    assert_eq!(b.greater(&a), Some(false));
    assert_eq!(a.greater(&Decimal { mantissa: 1, scale: 30 }), None);
    assert_eq!(Decimal::from_int(i64::MAX).checked_add(&Decimal::from_int(1)), None);
    assert_eq!(rome::display::decimal_to_text(&Decimal { mantissa: -5, scale: 3 }), "-0.005");
    assert_eq!(parse_decimal("+12.0"), Some(Decimal { mantissa: 120, scale: 1 }));
    assert_eq!(parse_decimal("1e5"), Some(Decimal { mantissa: 100000, scale: 0 }));
    assert_eq!(parse_decimal("-"), None);
}

#[test]
fn exponent_literals() {
    assert_eq!(parse_decimal("-2.5e1"), Some(Decimal { mantissa: -25, scale: 0 }));
    assert_eq!(parse_decimal("1e+2"), Some(Decimal { mantissa: 100, scale: 0 }));
    assert_eq!(parse_decimal("1.5E-3"), Some(Decimal { mantissa: 15, scale: 4 }));
    assert_eq!(parse_decimal("100e-20"), Some(Decimal { mantissa: 1, scale: 18 }));
    assert_eq!(parse_decimal("0e-30"), Some(Decimal { mantissa: 0, scale: 18 }));
    assert_eq!(parse_decimal("0e99999999999999999999"), Some(Decimal { mantissa: 0, scale: 0 }));
    assert_eq!(parse_decimal("1e99999999999999999999"), None);
    assert_eq!(parse_decimal("1e-99999999999999999999"), None);
    assert_eq!(parse_decimal("1e19"), None);
    assert_eq!(parse_decimal("1e-19"), None);
    assert_eq!(parse_decimal("1e"), None);
    assert_eq!(parse_decimal("1e-"), None);
    assert_eq!(parse_decimal("e5"), None);
    assert_eq!(parse_decimal("1e1e1"), None);
    assert_eq!(parse_decimal("1e1.5"), None);
    assert_eq!(parse_decimal("inf"), None);
    assert_eq!(parse_decimal("nan"), None);
}

#[test]
fn exponent_literals_in_expressions() {
    let env = &mut new_core_model();
    assert_eq!(shown(run("(-2.5e1 30 +)", env)), "5");
    assert_eq!(shown(run("(1.5e-1 0.05 +)", env)), "0.2");
    let m = operator_message(run("(12345678901234567890 1 +)", env));
    assert!(m.contains("12345678901234567890"));
}
