use r6::compiler::{compile, CompileError, EnvVar, GlobalEnv, Primitive, Syntax};
use r6::parser::{Datum, Parser};
use r6::runtime::{Runtime, RuntimeError, Value};

fn global() -> GlobalEnv {
    let mut glob = GlobalEnv::new();
    glob.insert("lambda", EnvVar::Syntax(Syntax::Lambda));
    glob.insert("+", EnvVar::PrimFunc(Primitive::Add));
    glob
}

fn parse(src: &str) -> Datum {
    let mut parser = Parser::new(src);
    match parser.parse_datum() {
        Ok(d) => d,
        Err(e) => panic!("failed to parse source: {:?}", e),
    }
}

fn evaluate(src: &str) -> Result<Value, RuntimeError> {
    let source = parse(src);
    let glob = global();
    let bytecode = match compile(&source, &glob) {
        Ok(code) => code,
        Err(e) => panic!("compile failure: {:?}", e),
    };
    let mut runtime = Runtime::new(bytecode);
    runtime.run(100_000)
}

fn chars(s: &str) -> Vec<char> {
    s.chars().collect()
}

#[test]
fn lexical_scoping() {
    // (\y f -> f 2) #f ((\y -> (\x -> y)) #t)
    // dynamic scope would give #f, static scope gives #t
    let result = evaluate("((lambda (y f) (f 2)) #f ((lambda (y) (lambda (x) y)) #t))");
    assert_eq!(result, Ok(Value::Boolean(true)));
}

#[test]
fn primitive_addition() {
    assert_eq!(evaluate("(+ 1 2)"), Ok(Value::Number(3)));
}

#[test]
fn addition_of_no_arguments_is_zero() {
    assert_eq!(evaluate("(+ )"), Ok(Value::Number(0)));
}

#[test]
fn addition_of_a_non_number_fails() {
    assert_eq!(evaluate("(+ 1 #t)"), Err(RuntimeError::NotANumber));
}

#[test]
fn addition_overflow_fails() {
    assert_eq!(evaluate("(+ 9223372036854775807 1)"), Err(RuntimeError::Overflow));
}

#[test]
fn closure_applied_to_arguments() {
    assert_eq!(evaluate("((lambda (x y) (+ x y)) 40 2)"), Ok(Value::Number(42)));
}

#[test]
fn body_value_is_the_last_expression() {
    assert_eq!(evaluate("((lambda (x) 1 #f x) 7)"), Ok(Value::Number(7)));
}

#[test]
fn inner_formal_shadows_outer() {
    assert_eq!(evaluate("(((lambda (x) (lambda (x) x)) 1) 2)"), Ok(Value::Number(2)));
}

#[test]
fn rest_formal_collects_arguments() {
    let expected = Value::Pair(
        Box::new(Value::Number(2)),
        Box::new(Value::Pair(Box::new(Value::Number(3)), Box::new(Value::EmptyList))),
    );
    assert_eq!(evaluate("((lambda (a . rest) rest) 1 2 3)"), Ok(expected));
}

#[test]
fn rest_formal_alone_takes_all() {
    assert_eq!(evaluate("((lambda args args))"), Ok(Value::EmptyList));
}

#[test]
fn arity_mismatch_is_reported() {
    assert_eq!(
        evaluate("((lambda (x y) x) 1)"),
        Err(RuntimeError::ArityMismatch { expected: 2, given: 1 })
    );
}

#[test]
fn calling_a_number_fails() {
    assert_eq!(evaluate("(1 2)"), Err(RuntimeError::NotCallable));
}

#[test]
fn step_limit_stops_a_long_run() {
    let source = parse("((lambda (f) (f f)) (lambda (f) (f f)))");
    let bytecode = compile(&source, &global()).unwrap();
    let mut runtime = Runtime::new(bytecode);
    assert_eq!(runtime.run(1000), Err(RuntimeError::StepLimit));
}

#[test]
fn unbound_identifier_is_a_compile_error() {
    let source = parse("(lambda (x) y)");
    assert_eq!(compile(&source, &global()), Err(CompileError::Unbound(chars("y"))));
}

#[test]
fn formal_is_not_visible_outside_its_lambda() {
    let source = parse("((lambda (x) x) x)");
    assert_eq!(compile(&source, &global()), Err(CompileError::Unbound(chars("x"))));
}

#[test]
fn keyword_as_value_is_a_compile_error() {
    let source = parse("(+ lambda 1)");
    assert_eq!(compile(&source, &global()), Err(CompileError::SyntaxAsValue(chars("lambda"))));
}

#[test]
fn malformed_lambdas_are_compile_errors() {
    let glob = global();
    assert_eq!(compile(&parse("(lambda (x))"), &glob), Err(CompileError::BadLambda));
    assert_eq!(compile(&parse("(lambda)"), &glob), Err(CompileError::BadLambda));
    assert_eq!(compile(&parse("(lambda (x 1) x)"), &glob), Err(CompileError::BadFormals));
}

#[test]
fn malformed_calls_are_compile_errors() {
    let glob = global();
    assert_eq!(compile(&parse("(+ 1 . 2)"), &glob), Err(CompileError::ImproperCall));
    assert_eq!(
        compile(&parse("99999999999999999999"), &glob),
        Err(CompileError::BadNumber(chars("99999999999999999999")))
    );
}

#[test]
fn lambda_rebound_locally_is_an_ordinary_variable() {
    assert_eq!(evaluate("((lambda (lambda) (lambda 5)) (lambda (x) x))"), Ok(Value::Number(5)));
}

#[test]
fn character_constants_index_the_name_table() {
    let source = parse("((lambda (x y) y) #\\a #\\newline)");
    let bytecode = compile(&source, &global()).unwrap();
    assert_eq!(bytecode.characters, vec![chars("a"), chars("newline")]);
    let mut runtime = Runtime::new(bytecode);
    assert_eq!(runtime.run(1000), Ok(Value::Character(1)));
}

#[test]
fn sibling_closures_share_their_frame() {
    let src = "((lambda (x) ((lambda (f g) (+ (f) (g))) (lambda () x) (lambda () x))) 21)";
    assert_eq!(evaluate(src), Ok(Value::Number(42)));
}

#[test]
fn no_steps_means_no_result() {
    let bytecode = compile(&parse("1"), &global()).unwrap();
    let mut runtime = Runtime::new(bytecode);
    assert_eq!(runtime.run(0), Err(RuntimeError::StepLimit));
}

#[test]
fn empty_list_is_a_value_and_not_callable() {
    assert_eq!(evaluate("()"), Ok(Value::EmptyList));
    assert_eq!(evaluate("(() 1)"), Err(RuntimeError::NotCallable));
}
