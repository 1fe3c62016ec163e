use minilisp::builtins::{add_builtins, builtin_print};
use minilisp::interpreter::{eval, parse, tokenize, Env, Expr};
use minilisp::semantics::Fatal;
use minilisp::runner::run_code;

const FUEL: u64 = 100000;

fn run_forms(src: &str, env: &mut Env) -> Result<Expr, Fatal> {
    let mut tokens = tokenize(src);
    let mut last = Ok(Expr::List(vec![]));
    while !tokens.is_empty() {
        let parsed = parse(&mut tokens).expect("parse");
        last = eval(&parsed, env, FUEL);
    }
    last
}

fn eval_one(src: &str) -> Result<Expr, Fatal> {
    let mut env = Env::new();
    add_builtins(&mut env);
    run_forms(src, &mut env)
}

#[test]
fn lexing_is_total_on_odd_inputs() {
    assert_eq!(tokenize(""), Vec::<String>::new());
    assert_eq!(tokenize("   \t\n "), Vec::<String>::new());
    assert_eq!(tokenize("(+ 2 3)"), vec!["(", "+", "2", "3", ")"]);
    assert_eq!(tokenize("((("), vec!["(", "(", "("]);
    assert_eq!(tokenize(")x("), vec![")", "x", "("]);
    // A quoted string with internal whitespace is split: a known limitation.
    assert_eq!(tokenize("\"a b\""), vec!["\"a", "b\""]);
    assert_eq!(tokenize("(print\"x\")"), vec!["(", "print\"x\"", ")"]);
}

#[test]
fn parsing_simple_literals() {
    let mut t = tokenize("42");
    assert_eq!(parse(&mut t), Ok(Expr::Num(42)));
    let mut t = tokenize("\"hi\"");
    assert_eq!(parse(&mut t), Ok(Expr::Str("hi".to_string())));
    let mut t = tokenize("x");
    assert_eq!(parse(&mut t), Ok(Expr::Var("x".to_string())));
}

#[test]
fn parsing_more_atoms() {
    let mut t = tokenize("-7");
    assert_eq!(parse(&mut t), Ok(Expr::Num(-7)));
    let mut t = tokenize("+5");
    assert_eq!(parse(&mut t), Ok(Expr::Num(5)));
    let mut t = tokenize("'hi'");
    assert_eq!(parse(&mut t), Ok(Expr::Str("hi".to_string())));
    // A lone double quote: first and last character are both `"`, and the
    // defensive fallback yields the empty string.
    let mut t = vec!["\"".to_string()];
    assert_eq!(parse(&mut t), Ok(Expr::Str(String::new())));
    // Too large for a signed 64-bit integer: falls back to a symbol.
    let mut t = tokenize("99999999999999999999");
    assert_eq!(
        parse(&mut t),
        Ok(Expr::Var("99999999999999999999".to_string()))
    );
}

#[test]
fn parsing_lists_and_failures() {
    let mut t = tokenize("(+ 2 3)");
    assert_eq!(
        parse(&mut t),
        Ok(Expr::List(vec![
            Expr::Var("+".to_string()),
            Expr::Num(2),
            Expr::Num(3)
        ]))
    );
    assert!(t.is_empty());
    let mut t = tokenize("(");
    assert_eq!(parse(&mut t), Err(Fatal::UnexpectedEof));
    let mut t = tokenize(")");
    assert_eq!(parse(&mut t), Err(Fatal::UnexpectedClose));
    let mut t = tokenize("");
    assert_eq!(parse(&mut t), Err(Fatal::UnexpectedEof));
    let mut t = tokenize("(+ 1");
    assert_eq!(parse(&mut t), Err(Fatal::UnexpectedEof));
}

#[test]
fn add_evaluates() {
    assert_eq!(eval_one("(+ 2 3)"), Ok(Expr::Num(5)));
    assert_eq!(eval_one("(+)"), Ok(Expr::Num(0)));
    assert_eq!(eval_one("(- 10 1 2)"), Ok(Expr::Num(7)));
    assert_eq!(eval_one("(* 2 3 4)"), Ok(Expr::Num(24)));
    assert_eq!(eval_one("(/ 7 2)"), Ok(Expr::Num(3)));
    assert_eq!(eval_one("(/ -7 2)"), Ok(Expr::Num(-3)));
    assert_eq!(eval_one("(% 7 2)"), Ok(Expr::Num(1)));
    assert_eq!(eval_one("(pow 2 10)"), Ok(Expr::Num(1024)));
}

#[test]
fn comparisons_give_one_or_zero() {
    assert_eq!(eval_one("(< 1 2)"), Ok(Expr::Num(1)));
    assert_eq!(eval_one("(<= 2 2)"), Ok(Expr::Num(1)));
    assert_eq!(eval_one("(> 1 2)"), Ok(Expr::Num(0)));
    assert_eq!(eval_one("(>= 1 2)"), Ok(Expr::Num(0)));
}

#[test]
fn unbound_symbol_yields_sentinel() {
    let mut env = Env::new();
    add_builtins(&mut env);
    let parsed = Expr::Var("y".to_string());
    let got = eval(&parsed, &mut env, FUEL).expect("must not abort");
    match got {
        Expr::Var(msg) => {
            assert_eq!(msg, "error: undefined variable: y");
            assert!(msg.contains("undefined variable"));
            assert!(msg.contains("y"));
        }
        other => panic!("expected a sentinel symbol, got {:?}", other),
    }
}

#[test]
fn define_then_set_over_one_environment() {
    let mut env = Env::new();
    add_builtins(&mut env);
    let last = run_forms("(define x 10) (set! x (+ x 5))", &mut env);
    assert_eq!(last, Ok(Expr::Num(15)));
    match env.get("x") {
        Some(Expr::Num(n)) => assert_eq!(n, 15),
        other => panic!("x should be bound to 15, got {:?}", other),
    }
}

#[test]
fn define_without_value_binds_zero() {
    let mut env = Env::new();
    add_builtins(&mut env);
    assert_eq!(run_forms("(define x)", &mut env), Ok(Expr::Num(0)));
    match env.get("x") {
        Some(Expr::Num(n)) => assert_eq!(n, 0),
        other => panic!("x should be bound to 0, got {:?}", other),
    }
}

#[test]
fn if_returns_untaken_branch_value() {
    assert_eq!(eval_one("(if 0 (+ 1 1) (+ 2 2))"), Ok(Expr::Num(4)));
    assert_eq!(eval_one("(if 1 (+ 1 1) (+ 2 2))"), Ok(Expr::Num(2)));
}

#[test]
fn if_executes_both_branches_eagerly() {
    // Both branch side effects fire once each, whatever the condition is:
    // the arguments of any call are evaluated eagerly before `if` runs.
    let mut env = Env::new();
    add_builtins(&mut env);
    let last = run_forms(
        "(define c 0) (if 1 (set! c (+ c 1)) (set! c (+ c 10)))",
        &mut env,
    );
    // The returned value is the re-evaluated first-branch value; the final
    // count shows each branch's side effect fired exactly once.
    assert_eq!(last, Ok(Expr::Num(1)));
    match env.get("c") {
        Some(Expr::Num(n)) => assert_eq!(n, 11),
        other => panic!("c should be 11, got {:?}", other),
    }
    // With defines: both bindings exist afterwards.
    let mut env2 = Env::new();
    add_builtins(&mut env2);
    let last2 = run_forms("(if 0 (define a 11) (define b 22))", &mut env2);
    assert_eq!(last2, Ok(Expr::Num(22)));
    assert_eq!(env2.get("a"), Some(Expr::Num(11)));
    assert_eq!(env2.get("b"), Some(Expr::Num(22)));
}

#[test]
fn division_by_zero_is_masked_by_run_code() {
    assert_eq!(eval_one("(/ 1 0)"), Err(Fatal::DivisionByZero));
    assert_eq!(eval_one("(% 3 0)"), Err(Fatal::ModuloByZero));
    assert_eq!(run_code("(/ 1 0)"), "invalid input or code!");
    assert_eq!(run_code("(% 3 0)"), "invalid input or code!");
    assert_eq!(run_code("("), "invalid input or code!");
    assert_eq!(run_code("(+ 9223372036854775807 1)"), "invalid input or code!");
}

#[test]
fn for_over_inverted_range_yields_zero() {
    assert_eq!(eval_one("(for i 5 3 7)"), Ok(Expr::Num(0)));
    let mut env = Env::new();
    add_builtins(&mut env);
    assert_eq!(run_forms("(for i 1 3 5)", &mut env), Ok(Expr::Num(5)));
    // The variable argument was itself evaluated eagerly before `for` ran,
    // so the unbound `i` became its sentinel symbol — and that symbol is
    // what the loop bound, counting up to the upper bound.
    assert_eq!(env.get("i"), None);
    assert_eq!(
        env.get("error: undefined variable: i"),
        Some(Expr::Num(3))
    );
}

#[test]
fn print_never_aborts() {
    let mut env = Env::new();
    add_builtins(&mut env);
    assert_eq!(
        builtin_print(vec![], &mut env),
        Ok(Expr::Str(String::new()))
    );
    assert_eq!(eval_one("(print)"), Ok(Expr::Str(String::new())));
    assert_eq!(
        eval_one("(print 1 \"a\")"),
        Ok(Expr::Str("1 a".to_string()))
    );
    // A sentinel argument renders as nothing and still does not abort.
    assert_eq!(eval_one("(print nosuch)"), Ok(Expr::Str(String::new())));
}

#[test]
fn string_builtin_keeps_trailing_space() {
    assert_eq!(eval_one("(string 1 2)"), Ok(Expr::Str("1 2 ".to_string())));
    assert_eq!(eval_one("(string)"), Ok(Expr::Str(String::new())));
}

#[test]
fn lambda_application_and_missing_arguments() {
    assert_eq!(eval_one("((lambda (x) (+ x 1)) 4)"), Ok(Expr::Num(5)));
    // Extra arguments are ignored.
    assert_eq!(eval_one("((lambda (x) x) 1 2 3)"), Ok(Expr::Num(1)));
    // A missing argument is bound to the empty symbol.
    assert_eq!(
        eval_one("((lambda (x y) y) 1)"),
        Ok(Expr::Var(String::new()))
    );
}

#[test]
fn lambda_mutations_do_not_reach_caller() {
    let mut env = Env::new();
    add_builtins(&mut env);
    let last = run_forms("(define x 1) ((lambda (q) (set! x 99)) 0) x", &mut env);
    // The lambda ran in a snapshot copy: the caller's `x` is untouched.
    assert_eq!(last, Ok(Expr::Num(1)));
    assert_eq!(env.get("x"), Some(Expr::Num(1)));
}

#[test]
fn set_misuses_yield_sentinels() {
    assert_eq!(
        eval_one("(set! 5 1)"),
        Ok(Expr::Var(
            "error: set! first argument must be a variable name".to_string()
        ))
    );
    assert_eq!(
        eval_one("(set! x)"),
        Ok(Expr::Var("error: set! expects 2 arguments".to_string()))
    );
}

#[test]
fn while_conditions() {
    // The condition value is 0: zero iterations, empty-list result.
    assert_eq!(eval_one("(while 0 1)"), Ok(Expr::List(vec![])));
    // A non-number condition is a sentinel, not an abort.
    assert_eq!(
        eval_one("(while \"x\" 1)"),
        Ok(Expr::Var(
            "error: while condition must be a number".to_string()
        ))
    );
    assert_eq!(
        eval_one("(while)"),
        Ok(Expr::Var(
            "error: while expects condition and body".to_string()
        ))
    );
}

#[test]
fn begin_returns_last() {
    assert_eq!(eval_one("(begin 1 2 3)"), Ok(Expr::Num(3)));
    assert_eq!(eval_one("(begin)"), Ok(Expr::List(vec![])));
}

#[test]
fn fatal_shapes() {
    assert_eq!(eval_one("(lambda (x))"), Err(Fatal::BadLambda));
    assert_eq!(eval_one("(lambda 1 2)"), Err(Fatal::BadLambda));
    assert_eq!(eval_one("(define)"), Err(Fatal::BadDefine));
    assert_eq!(eval_one("(define 5 1)"), Err(Fatal::BadDefine));
    assert_eq!(eval_one("(/ 1)"), Err(Fatal::Arity));
    assert_eq!(eval_one("(+ 1 \"a\")"), Err(Fatal::TypeMismatch));
    assert_eq!(eval_one("(if \"x\" 1 2)"), Err(Fatal::BadIf));
    assert_eq!(eval_one("(if 1 2)"), Err(Fatal::Arity));
    assert_eq!(eval_one("(for 1 1 2 3)"), Err(Fatal::BadFor));
    assert_eq!(eval_one("(-)"), Err(Fatal::Arity));
    let mut env = Env::new();
    assert_eq!(eval(&Expr::Num(1), &mut env, 0), Err(Fatal::OutOfFuel));
}

#[test]
fn run_code_displays_results() {
    assert_eq!(run_code("(+ 2 3)"), "5");
    assert_eq!(run_code("42"), "42");
    assert_eq!(run_code("-42"), "-42");
    assert_eq!(run_code("\"hi\""), "hi");
    assert_eq!(run_code("()"), "");
    assert_eq!(run_code("y"), "error: undefined variable: y");
    assert_eq!(run_code("(string \"a\" 1)"), "a 1 ");
    assert_eq!(run_code("(print \"hi\")"), "hi");
    assert_eq!(run_code("(begin (define x 3) (* x x))"), "9");
}

#[test]
fn lambda_sees_caller_scope_at_call_time() {
    // A lambda captures nothing: at application it runs in a copy of the
    // caller's environment as it stands then, so a name defined after the
    // lambda was created is visible inside it.
    let mut env = Env::new();
    add_builtins(&mut env);
    let last = run_forms("(define f (lambda (q) x)) (define x 7) (f 1)", &mut env);
    assert_eq!(last, Ok(Expr::Num(7)));
}

#[test]
fn define_overwrites() {
    let mut env = Env::new();
    add_builtins(&mut env);
    assert_eq!(run_forms("(define x 1) (define x 2) x", &mut env), Ok(Expr::Num(2)));
}

#[test]
fn environment_snapshot_extension() {
    let mut env = Env::new();
    env.set("a", Expr::Num(1));
    let mut copy = env.extend();
    copy.set("a", Expr::Num(2));
    copy.set("b", Expr::Num(3));
    assert_eq!(env.get("a"), Some(Expr::Num(1)));
    assert_eq!(env.get("b"), None);
    assert_eq!(copy.get("a"), Some(Expr::Num(2)));
    assert_eq!(copy.get("b"), Some(Expr::Num(3)));
    // Insert-or-overwrite: the latest binding wins.
    env.set("a", Expr::Num(9));
    assert_eq!(env.get("a"), Some(Expr::Num(9)));
}
