use sexp_eval::env::{EnvId, EnvManager, EnvType};
use sexp_eval::error::EvalError;
use sexp_eval::number::Number;
use sexp_eval::parser::Parser;
use sexp_eval::syntax::AstNode;

/// The identifier that an arena gives to the scope it makes after `n`
/// others.
fn id(n: usize) -> EnvId {
    let mut scratch = EnvManager::new();
    let mut last = scratch.new_env(None);
    for _ in 0..n {
        last = scratch.new_env(None);
    }
    last
}

const DEPTH: usize = 64;

fn lower(n: &Number) -> f64 {
    match n {
        Number::Literal(text) => text.parse::<f64>().unwrap(),
        Number::Product(a, b) => lower(a) * lower(b),
    }
}

fn as_f64(v: &EnvType) -> f64 {
    match v {
        EnvType::Number(n) => lower(n),
        other => panic!("a number was expected, not {:?}", other),
    }
}

fn forest(source: &str) -> Vec<AstNode> {
    let mut tokens = Parser::tokenise(source.to_string());
    Parser::parse(&mut tokens).unwrap()
}

/// The result of each top-level form of `source`, in a fresh root scope.
fn run<'a>(
    trees: &'a [AstNode],
    m: &mut EnvManager<'a>,
) -> Vec<Result<Option<EnvType<'a>>, EvalError<'a>>> {
    let root = m.std_env();
    trees.iter().map(|t| Parser::eval(t, m, root, DEPTH)).collect()
}

fn last_number(source: &str) -> f64 {
    let trees = forest(source);
    let mut m = EnvManager::new();
    let results = run(&trees, &mut m);
    match results.last().unwrap() {
        Ok(Some(v)) => as_f64(v),
        other => panic!("a number was expected, not {:?}", other),
    }
}

#[test]
fn area_of_a_circle() {
    let trees = forest("(define r 10) (* pi (* r r))");
    let mut m = EnvManager::new();
    let results = run(&trees, &mut m);
    assert_eq!(results.len(), 2);
    assert!(matches!(results[0], Ok(None)));
    let area = as_f64(results[1].as_ref().unwrap().as_ref().unwrap());
    assert_eq!(area, std::f64::consts::PI * (10.0 * 10.0));
    assert_eq!(area, 314.1592653589793);
    assert!((area - 314.159265358979).abs() < 1e-12);
}

#[test]
fn closure_returned_from_a_call() {
    let trees = forest("(define outer (lambda (a) (lambda (b) (* a b)))) ((outer 3) 2)");
    let mut m = EnvManager::new();
    let results = run(&trees, &mut m);
    assert!(matches!(results[0], Ok(None)));
    assert_eq!(as_f64(results[1].as_ref().unwrap().as_ref().unwrap()), 6.0);
}

#[test]
fn unbound_symbol_is_reported_by_name() {
    let trees = forest("(foo)");
    let mut m = EnvManager::new();
    let results = run(&trees, &mut m);
    assert!(matches!(&results[0], Err(EvalError::UnboundSymbol(name)) if name == "foo"));
}

#[test]
fn unclosed_form_does_not_parse() {
    let mut tokens = Parser::tokenise("(* 1 2".to_string());
    assert_eq!(
        Parser::parse(&mut tokens).unwrap_err(),
        sexp_eval::error::ParseError::UnbalancedParentheses
    );
}

#[test]
fn times_with_three_arguments_is_an_arity_error() {
    let trees = forest("(* 1 2 3)");
    let mut m = EnvManager::new();
    let results = run(&trees, &mut m);
    assert!(matches!(results[0], Err(EvalError::NativeArity)));
}

#[test]
fn last_define_wins() {
    assert_eq!(last_number("(define x 5) (define x 7) x"), 7.0);
}

#[test]
fn one_closure_maker_two_calls() {
    let trees =
        forest("(define outer (lambda (a) (lambda (b) (* a b)))) ((outer 3) 2) ((outer 3) 3)");
    let mut m = EnvManager::new();
    let results = run(&trees, &mut m);
    assert!(matches!(results[0], Ok(None)));
    assert_eq!(as_f64(results[1].as_ref().unwrap().as_ref().unwrap()), 6.0);
    assert_eq!(as_f64(results[2].as_ref().unwrap().as_ref().unwrap()), 9.0);
}

#[test]
fn literals_evaluate_to_themselves() {
    assert_eq!(last_number("10"), 10.0);
    assert_eq!(last_number("-2.5e1"), -25.0);
    assert_eq!(last_number("pi"), std::f64::consts::PI);
    assert_eq!(last_number("inf"), f64::INFINITY);
    assert!(last_number("nan").is_nan());
}

#[test]
fn times_with_one_argument_is_an_arity_error() {
    let trees = forest("(* 1)");
    let mut m = EnvManager::new();
    let results = run(&trees, &mut m);
    assert!(matches!(results[0], Err(EvalError::NativeArity)));
}

#[test]
fn times_with_a_procedure_is_a_type_error() {
    let trees = forest("(* 2 *) (* (lambda (a) a) 2)");
    let mut m = EnvManager::new();
    let results = run(&trees, &mut m);
    assert!(matches!(results[0], Err(EvalError::NativeType)));
    assert!(matches!(results[1], Err(EvalError::NativeType)));
}

#[test]
fn a_number_cannot_be_called() {
    let trees = forest("(5 1 2) (define n 4) (n)");
    let mut m = EnvManager::new();
    let results = run(&trees, &mut m);
    assert!(matches!(&results[0], Err(EvalError::NotCallable(v)) if as_f64(v) == 5.0));
    assert!(matches!(&results[2], Err(EvalError::NotCallable(v)) if as_f64(v) == 4.0));
}

#[test]
fn arguments_are_evaluated_before_the_operator_is_judged() {
    let trees = forest("(5 foo)");
    let mut m = EnvManager::new();
    let results = run(&trees, &mut m);
    assert!(matches!(&results[0], Err(EvalError::UnboundSymbol(name)) if name == "foo"));
}

#[test]
fn arguments_are_evaluated_left_to_right() {
    let trees = forest("(* first second)");
    let mut m = EnvManager::new();
    let results = run(&trees, &mut m);
    assert!(matches!(&results[0], Err(EvalError::UnboundSymbol(name)) if name == "first"));
}

#[test]
fn malformed_define_is_reported() {
    for source in ["(define)", "(define x)", "(define x 1 2)", "(define 5 1)", "(define (x) 1)", "(define inf 1)"] {
        let trees = forest(source);
        let mut m = EnvManager::new();
        let results = run(&trees, &mut m);
        assert!(matches!(results[0], Err(EvalError::MalformedSpecialForm)), "{source}");
    }
}

#[test]
fn malformed_lambda_is_reported() {
    for source in ["(lambda)", "(lambda (a))", "(lambda a a)", "(lambda (a) a a)", "(lambda (1) a)", "(lambda ((a)) a)", "(lambda (a 2) a)"] {
        let trees = forest(source);
        let mut m = EnvManager::new();
        let results = run(&trees, &mut m);
        assert!(matches!(results[0], Err(EvalError::MalformedSpecialForm)), "{source}");
    }
}

#[test]
fn define_binds_only_after_its_expression_succeeds() {
    let trees = forest("(define x (* 1)) x");
    let mut m = EnvManager::new();
    let results = run(&trees, &mut m);
    assert!(matches!(results[0], Err(EvalError::NativeArity)));
    assert!(matches!(&results[1], Err(EvalError::UnboundSymbol(name)) if name == "x"));
}

#[test]
fn a_form_without_a_value_cannot_stand_for_one() {
    let trees = forest("(define x (define y 1)) (* 2 (define z 3)) x y z");
    let mut m = EnvManager::new();
    let results = run(&trees, &mut m);
    assert!(matches!(results[0], Err(EvalError::NoValue)));
    assert!(matches!(results[1], Err(EvalError::NoValue)));
    assert!(matches!(&results[2], Err(EvalError::UnboundSymbol(name)) if name == "x"));
    assert_eq!(as_f64(results[3].as_ref().unwrap().as_ref().unwrap()), 1.0);
    assert_eq!(as_f64(results[4].as_ref().unwrap().as_ref().unwrap()), 3.0);
}

#[test]
fn an_operator_without_a_value_gives_a_form_without_one() {
    let trees = forest("((define w 1) 2) ((define v 2) unbound (* 1)) w v");
    let mut m = EnvManager::new();
    let results = run(&trees, &mut m);
    assert!(matches!(results[0], Ok(None)));
    assert!(matches!(results[1], Ok(None)));
    assert_eq!(as_f64(results[2].as_ref().unwrap().as_ref().unwrap()), 1.0);
    assert_eq!(as_f64(results[3].as_ref().unwrap().as_ref().unwrap()), 2.0);
}

#[test]
fn an_empty_form_is_an_error() {
    let trees = forest("()");
    let mut m = EnvManager::new();
    let results = run(&trees, &mut m);
    assert!(matches!(results[0], Err(EvalError::EmptyForm)));
}

#[test]
fn an_unknown_scope_is_an_error() {
    let trees = forest("pi x (define y 1) (lambda (a) a) (* 1 2) ()");
    let mut m = EnvManager::new();
    let _ = m.std_env();
    for tree in &trees {
        assert!(matches!(
            Parser::eval(tree, &mut m, id(5), DEPTH),
            Err(EvalError::InvalidScopeId(bad)) if bad == id(5)
        ));
    }
    assert!(m.get(&id(1)).is_err());
}

#[test]
fn a_literal_needs_no_scope() {
    let trees = forest("1 -2.5e1");
    let mut m = EnvManager::new();
    assert_eq!(as_f64(&Parser::eval(&trees[0], &mut m, id(0), DEPTH).unwrap().unwrap()), 1.0);
    let _ = m.std_env();
    assert_eq!(as_f64(&Parser::eval(&trees[0], &mut m, id(5), DEPTH).unwrap().unwrap()), 1.0);
    assert_eq!(as_f64(&Parser::eval(&trees[1], &mut m, id(5), 0).unwrap().unwrap()), -25.0);
    assert!(m.get(&id(1)).is_err());
}

#[test]
fn depth_bounds_nesting() {
    let trees = forest("7 (* 2 3) (* 2 (* 3 4))");
    let mut m = EnvManager::new();
    let root = m.std_env();
    assert_eq!(as_f64(&Parser::eval(&trees[0], &mut m, root, 0).unwrap().unwrap()), 7.0);
    assert!(matches!(Parser::eval(&trees[1], &mut m, root, 0), Err(EvalError::DepthExceeded)));
    assert_eq!(as_f64(&Parser::eval(&trees[1], &mut m, root, 1).unwrap().unwrap()), 6.0);
    assert!(matches!(Parser::eval(&trees[2], &mut m, root, 1), Err(EvalError::DepthExceeded)));
    assert_eq!(as_f64(&Parser::eval(&trees[2], &mut m, root, 2).unwrap().unwrap()), 24.0);
}

#[test]
fn depth_stops_endless_recursion() {
    let trees = forest("(define loop (lambda (x) (loop x))) (loop 1)");
    let mut m = EnvManager::new();
    let results = run(&trees, &mut m);
    assert!(matches!(results[0], Ok(None)));
    assert!(matches!(results[1], Err(EvalError::DepthExceeded)));
}

#[test]
fn lambda_captures_the_scope_it_is_evaluated_in() {
    let trees = forest("(lambda (a b) (* a b))");
    let mut m = EnvManager::new();
    let root = m.std_env();
    let inner = m.new_env(Some(root));
    match Parser::eval(&trees[0], &mut m, inner, DEPTH) {
        Ok(Some(EnvType::Proc(p))) => {
            assert_eq!(p.captured(), inner);
            assert_eq!(p.args(), &vec!["a".to_string(), "b".to_string()]);
            assert!(std::ptr::eq(p.body(), &trees[0].unwrap_body()[2]));
        }
        other => panic!("a closure was expected, not {:?}", other),
    }
}

#[test]
fn define_inside_a_call_does_not_touch_the_outer_binding() {
    let source = "(define x 1) (define f (lambda (y) ((lambda (ignored) x) (define x y)))) (f 2) x";
    let trees = forest(source);
    let mut m = EnvManager::new();
    let results = run(&trees, &mut m);
    assert!(matches!(results[2], Err(EvalError::NoValue)));
    assert_eq!(as_f64(results[3].as_ref().unwrap().as_ref().unwrap()), 1.0);
    let root = id(0);
    assert_eq!(as_f64(&m.get(&root).unwrap().get(&"x".to_string()).unwrap()), 1.0);
    let call = m.find_var(&id(1), &"x".to_string()).unwrap();
    assert_eq!(call, Some(id(1)));
    assert_eq!(as_f64(&m.get(&id(1)).unwrap().get(&"x".to_string()).unwrap()), 2.0);
}

#[test]
fn a_parameter_shadows_an_outer_name() {
    assert_eq!(last_number("(define x 5) (define f (lambda (x) (* x x))) (f 3)"), 9.0);
    assert_eq!(last_number("(define x 5) (define f (lambda (x) (* x x))) (f 3) x"), 5.0);
}

#[test]
fn scoping_is_lexical_not_dynamic() {
    let source = "(define x 1) (define get (lambda () x)) (define call (lambda (x) (get))) (call 2)";
    assert_eq!(last_number(source), 1.0);
}

#[test]
fn a_closure_outlives_the_call_that_made_its_scope() {
    let source = "(define k 10) \
                  (define outer (lambda (a) (lambda (b) (* k (* a b))))) \
                  (define by3 (outer 3)) \
                  (define by4 (outer 4)) \
                  (by3 2) (by4 2) (by3 5)";
    let trees = forest(source);
    let mut m = EnvManager::new();
    let results = run(&trees, &mut m);
    assert_eq!(as_f64(results[4].as_ref().unwrap().as_ref().unwrap()), 60.0);
    assert_eq!(as_f64(results[5].as_ref().unwrap().as_ref().unwrap()), 80.0);
    assert_eq!(as_f64(results[6].as_ref().unwrap().as_ref().unwrap()), 150.0);
}

#[test]
fn a_closure_sees_later_definitions_in_its_captured_scope() {
    assert_eq!(last_number("(define f (lambda () late)) (define late 8) (f)"), 8.0);
}

#[test]
fn extra_arguments_are_dropped() {
    assert_eq!(last_number("(define f (lambda (a) (* a 2))) (f 3 4 5)"), 6.0);
}

#[test]
fn missing_arguments_leave_parameters_unbound() {
    let trees = forest("(define f (lambda (a b) (* a b))) (f 3) (define g (lambda (a b) a)) (g 3)");
    let mut m = EnvManager::new();
    let results = run(&trees, &mut m);
    assert!(matches!(&results[1], Err(EvalError::UnboundSymbol(name)) if name == "b"));
    assert_eq!(as_f64(results[3].as_ref().unwrap().as_ref().unwrap()), 3.0);
}

#[test]
fn a_missing_argument_falls_back_to_an_outer_binding() {
    assert_eq!(last_number("(define b 7) (define f (lambda (a b) (* a b))) (f 3)"), 21.0);
}

#[test]
fn of_two_parameters_of_one_name_the_later_wins() {
    assert_eq!(last_number("(define f (lambda (a a) a)) (f 1 2)"), 2.0);
}

#[test]
fn a_call_returns_what_its_body_does() {
    let trees = forest("(define f (lambda () (define inner 1))) (f) inner");
    let mut m = EnvManager::new();
    let results = run(&trees, &mut m);
    assert!(matches!(results[1], Ok(None)));
    assert!(matches!(&results[2], Err(EvalError::UnboundSymbol(name)) if name == "inner"));
}

#[test]
fn every_call_gets_a_scope_of_its_own() {
    let trees = forest("(define f (lambda (a) a)) (f 1) (f 2)");
    let mut m = EnvManager::new();
    let results = run(&trees, &mut m);
    assert_eq!(results.len(), 3);
    assert_eq!(m.parent(&id(1)), Some(id(0)));
    assert_eq!(m.parent(&id(2)), Some(id(0)));
    assert!(m.get(&id(3)).is_err());
    assert_eq!(as_f64(&m.get(&id(1)).unwrap().get(&"a".to_string()).unwrap()), 1.0);
    assert_eq!(as_f64(&m.get(&id(2)).unwrap().get(&"a".to_string()).unwrap()), 2.0);
}

#[test]
fn a_native_value_can_be_renamed_and_called() {
    assert_eq!(last_number("(define mul *) (mul 6 7)"), 42.0);
}

#[test]
fn products_keep_the_order_of_evaluation() {
    let trees = forest("(* (* 0.1 0.2) 0.3) (* 0.1 (* 0.2 0.3))");
    let mut m = EnvManager::new();
    let results = run(&trees, &mut m);
    let left = as_f64(results[0].as_ref().unwrap().as_ref().unwrap());
    let right = as_f64(results[1].as_ref().unwrap().as_ref().unwrap());
    assert_eq!(left, (0.1_f64 * 0.2) * 0.3);
    assert_eq!(right, 0.1_f64 * (0.2 * 0.3));
}

#[test]
fn more_depth_changes_nothing() {
    let source = "(define outer (lambda (a) (lambda (b) (* a b)))) ((outer 3) 2) (foo) (* 1 2 3) (5 1)";
    let trees = forest(source);
    let mut shown: Vec<Vec<String>> = Vec::new();
    for depth in [4, 5, 64, 1000] {
        let mut m = EnvManager::new();
        let root = m.std_env();
        let results: Vec<String> =
            trees.iter().map(|t| format!("{:?}", Parser::eval(t, &mut m, root, depth))).collect();
        assert!(results.iter().all(|r| !r.contains("DepthExceeded")), "{depth}");
        shown.push(results);
    }
    assert!(shown.iter().all(|r| r == &shown[0]));
}

#[test]
fn less_depth_only_gives_up_earlier() {
    let trees = forest("(define sq (lambda (x) (* x x))) (sq (sq 3))");
    for depth in 0..8 {
        let mut m = EnvManager::new();
        let root = m.std_env();
        let _ = Parser::eval(&trees[0], &mut m, root, 8);
        match Parser::eval(&trees[1], &mut m, root, depth) {
            Ok(Some(v)) => {
                assert!(depth >= 3);
                assert_eq!(as_f64(&v), 81.0);
            }
            Err(EvalError::DepthExceeded) => assert!(depth < 3),
            other => panic!("unexpected {:?}", other),
        }
    }
}

#[test]
fn numbers_are_made_of_float_literals() {
    fn literals_ok(n: &Number) -> bool {
        match n {
            Number::Literal(text) => sexp_eval::number::float_literal(text),
            Number::Product(a, b) => literals_ok(a) && literals_ok(b),
        }
    }
    let trees = forest("pi (* pi 2) (define r 1e3) (* r (* r -.5)) ((lambda (x) (* x inf)) nan)");
    let mut m = EnvManager::new();
    let results = run(&trees, &mut m);
    let mut seen = 0;
    for r in &results {
        if let Ok(Some(EnvType::Number(n))) = r {
            assert!(literals_ok(n), "{:?}", n);
            seen += 1;
        }
    }
    assert_eq!(seen, 4);
}
