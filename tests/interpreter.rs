use asa_lang::parser::{boolean, expression, identifier, number, program, string};
use asa_lang::grammar::ParseError;
use asa_lang::{run, EvalError, Node, Runtime, Value};

fn chars(s: &str) -> Vec<char> {
    s.chars().collect()
}

fn exec(src: &str) -> (Result<Value, EvalError>, Vec<Value>) {
    let (tree, _) = program(src).unwrap();
    run(&tree)
}

#[test]
fn subtraction_nests_to_the_right() {
    assert_eq!(exec("10 - 3 - 2").0, Ok(Value::Number(9)));
}

#[test]
fn division_nests_to_the_right() {
    assert_eq!(exec("12 / 6 / 2").0, Ok(Value::Number(4)));
}

#[test]
fn products_bind_tighter_than_sums() {
    assert_eq!(exec("2 * 3 + 4").0, Ok(Value::Number(10)));
    assert_eq!(exec("2 + 3 * 4").0, Ok(Value::Number(14)));
    assert_eq!(exec("(2 + 3) * 4").0, Ok(Value::Number(20)));
}

#[test]
fn powers() {
    assert_eq!(exec("2 ^ 3").0, Ok(Value::Number(8)));
    assert_eq!(exec("2 ^ 0").0, Ok(Value::Number(1)));
}

#[test]
fn identity_function_returns_its_argument() {
    assert_eq!(exec("fn id(x){ return x; }\nid(42)").0, Ok(Value::Number(42)));
}

#[test]
fn defined_variable_is_printed() {
    let (r, out) = exec("fn f(){ let x = 5; print(x) }\nf()");
    assert_eq!(r, Ok(Value::Number(5)));
    assert_eq!(out, vec![Value::Number(5)]);
}

#[test]
fn variable_is_not_visible_in_another_function() {
    let (r, out) = exec("fn g(){ return x; }\nfn f(){ let x = 5; return g(); }\nf()");
    assert_eq!(r, Err(EvalError::UndefinedVariable));
    assert!(out.is_empty());
}

#[test]
fn if_with_true_condition_returns() {
    assert_eq!(exec("fn f(){ if (1 == 1) { return 10; } }\nf()").0, Ok(Value::Number(10)));
}

#[test]
fn if_with_false_condition_is_empty() {
    assert_eq!(exec("fn f(){ if (1 == 2) { return 10; } }\nf()").0, Err(EvalError::EmptyIf));
}

#[test]
fn statement_after_false_if_gives_the_result() {
    assert_eq!(exec("fn f(){ if (1 == 2) { return 10; } return 3; }\nf()").0, Ok(Value::Number(3)));
}

#[test]
fn not_equal_condition() {
    assert_eq!(exec("fn f(){ if (1 != 2) { return 7; } }\nf()").0, Ok(Value::Number(7)));
}

#[test]
fn undefined_function_has_no_output() {
    let (r, out) = exec("nothere(1)");
    assert_eq!(r, Err(EvalError::UndefinedFunction));
    assert!(out.is_empty());
    let (r, out) = exec("print(nothere(print(1)))");
    assert_eq!(r, Err(EvalError::UndefinedFunction));
    assert!(out.is_empty());
}

#[test]
fn print_string_returns_it() {
    let (r, out) = exec("print(\"hi\");");
    assert_eq!(r, Ok(Value::String("hi".to_string())));
    assert_eq!(out, vec![Value::String("hi".to_string())]);
}

#[test]
fn printed_value_can_be_bound() {
    let (r, out) = exec("fn f(){ let y = print(\"hi\"); return y; }\nf()");
    assert_eq!(r, Ok(Value::String("hi".to_string())));
    assert_eq!(out, vec![Value::String("hi".to_string())]);
}

#[test]
fn nested_calls_evaluate_inner_first() {
    let (r, out) = exec("fn g(a){ print(a) return a + 1; }\nfn f(b){ print(b) return b * 2; }\nf(g(1))");
    assert_eq!(r, Ok(Value::Number(4)));
    assert_eq!(out, vec![Value::Number(1), Value::Number(2)]);
}

#[test]
fn callee_does_not_see_other_frames() {
    let (r, _) = exec("fn g(a){ return a; }\nfn f(b){ let t = g(1); return a; }\nf(2)");
    assert_eq!(r, Err(EvalError::UndefinedVariable));
}

#[test]
fn last_top_level_statement_is_main() {
    let (r, out) = exec("print(1)\nprint(2)");
    assert_eq!(r, Ok(Value::Number(2)));
    assert_eq!(out, vec![Value::Number(2)]);
}

#[test]
fn math_on_a_string_is_a_type_mismatch() {
    assert_eq!(exec("fn f(){ let s = \"a\"; return s + 1; }\nf()").0, Err(EvalError::TypeMismatch));
}

#[test]
fn division_truncates_toward_zero() {
    assert_eq!(exec("fn f(){ let a = 0 - 7; return a / 2; }\nf()").0, Ok(Value::Number(-3)));
}

#[test]
fn division_by_zero_is_an_error() {
    assert_eq!(exec("1 / 0").0, Err(EvalError::DivisionByZero));
}

#[test]
fn overflow_is_an_error() {
    assert_eq!(exec("2147483647 + 1").0, Err(EvalError::Overflow));
    assert_eq!(exec("2 ^ 31").0, Err(EvalError::Overflow));
    assert_eq!(exec("2 ^ 30").0, Ok(Value::Number(1073741824)));
}

#[test]
fn missing_argument_is_an_error() {
    assert_eq!(exec("fn f(a, b){ return a; }\nf(1)").0, Err(EvalError::MissingArgument));
}

#[test]
fn comparisons_across_types_are_unequal() {
    assert_eq!(exec("fn f(){ if (true == true) { return 1; } }\nf()").0, Ok(Value::Number(1)));
    assert_eq!(exec("fn f(){ if (1 == true) { return 1; } }\nf()").0, Err(EvalError::EmptyIf));
    assert_eq!(exec("fn f(){ if (\"a\" == \"a\") { return 1; } }\nf()").0, Ok(Value::Number(1)));
}

#[test]
fn failing_statement_ends_the_function() {
    let (r, out) = exec("fn f(){ let a = y; print(1) return 1; }\nf()");
    assert_eq!(r, Err(EvalError::UndefinedVariable));
    assert!(out.is_empty());
}

#[test]
fn failing_statement_ends_the_if_body() {
    let (r, out) = exec("fn f(){ if (1 == 1) { let a = y; print(1) return 1; } print(2) }\nf()");
    assert_eq!(r, Err(EvalError::UndefinedVariable));
    assert!(out.is_empty());
    let (r, out) = exec("fn f(){ if (1 == 1) { nothere() print(5) } }\nf()");
    assert_eq!(r, Err(EvalError::UndefinedFunction));
    assert!(out.is_empty());
}

#[test]
fn deep_recursion_is_cut_off() {
    let (tree, _) = program("fn r(n){ return r(n); }\nr(1)").unwrap();
    let mut rt = Runtime::new();
    assert_eq!(rt.run(&tree), Ok(Value::Bool(true)));
    let call = Node::FunctionCall { name: "main".to_string(), children: vec![] };
    assert_eq!(rt.run_limited(&call, 100), Err(EvalError::DepthExceeded));
}

#[test]
fn long_sum_is_evaluated() {
    let terms = vec!["1"; 300];
    assert_eq!(exec(&terms.join(" + ")).0, Ok(Value::Number(300)));
}

#[test]
fn return_ends_the_if_body() {
    let (r, out) = exec("fn f(){ if (1 == 1) { return 1; print(5) } }\nf()");
    assert_eq!(r, Ok(Value::Number(1)));
    assert!(out.is_empty());
}

#[test]
fn return_in_if_does_not_end_the_function() {
    let (r, out) = exec("fn f(){ if (1 == 1) { return 1; } print(2) }\nf()");
    assert_eq!(r, Ok(Value::Number(2)));
    assert_eq!(out, vec![Value::Number(2)]);
}

#[test]
fn unclosed_brace_fails_the_parse() {
    assert_eq!(program("fn f(){ return 1;").unwrap_err(), ParseError::TrailingInput);
    assert!(program("(1 + 2").is_err());
    assert!(program("print(1);\n").is_ok());
}

#[test]
fn non_boolean_condition_is_an_error() {
    let mut rt = Runtime::new();
    let node = Node::IfStatement { children: vec![Node::Number { value: 1 }] };
    assert_eq!(rt.run(&node), Err(EvalError::NonBooleanCondition));
}

#[test]
fn unbound_name_without_frame() {
    let mut rt = Runtime::new();
    let node = Node::Identifier { value: "x".to_string() };
    assert_eq!(rt.run(&node), Err(EvalError::UndefinedVariable));
    assert!(rt.output().is_empty());
}

#[test]
fn identifier_skips_leading_spaces() {
    let s = chars("  abc1(");
    match identifier(&s, 0) {
        Ok((Node::Identifier { value }, q)) => {
            assert_eq!(value, "abc1");
            assert_eq!(q, 6);
        }
        other => panic!("unexpected {:?}", other),
    }
    assert_eq!(identifier(&chars("  ("), 0).unwrap_err(), ParseError::NoMatch);
}

#[test]
fn number_parses_digits() {
    match number(&chars("0042x"), 0) {
        Ok((Node::Number { value }, q)) => {
            assert_eq!(value, 42);
            assert_eq!(q, 4);
        }
        other => panic!("unexpected {:?}", other),
    }
    assert_eq!(number(&chars("x1"), 0).unwrap_err(), ParseError::NoMatch);
}

#[test]
fn number_too_large_is_fatal() {
    assert_eq!(number(&chars("2147483648"), 0).unwrap_err(), ParseError::BadNumber);
    assert_eq!(program("2147483648").unwrap_err(), ParseError::BadNumber);
    match number(&chars("2147483647"), 0) {
        Ok((Node::Number { value }, _)) => assert_eq!(value, i32::MAX),
        other => panic!("unexpected {:?}", other),
    }
}

#[test]
fn boolean_literals() {
    assert!(matches!(boolean(&chars("true"), 0), Ok((Node::Bool { value: true }, 4))));
    assert!(matches!(boolean(&chars("false;"), 0), Ok((Node::Bool { value: false }, 5))));
    assert_eq!(boolean(&chars("tru"), 0).unwrap_err(), ParseError::NoMatch);
}

#[test]
fn string_literals() {
    match string(&chars("\"a b\"!"), 0) {
        Ok((Node::String { value }, q)) => {
            assert_eq!(value, "a b");
            assert_eq!(q, 5);
        }
        other => panic!("unexpected {:?}", other),
    }
    assert_eq!(string(&chars("\"open"), 0).unwrap_err(), ParseError::NoMatch);
    assert_eq!(string(&chars("\"\""), 0).unwrap_err(), ParseError::NoMatch);
}

#[test]
fn expression_tree_shape() {
    let s = chars("1 - 2 - 3");
    let (e, q) = expression(&s, 0).unwrap();
    assert_eq!(q, 9);
    match e {
        Node::Expression { children } => match &children[0] {
            Node::MathExpression { name, children } => {
                assert_eq!(name, "-");
                assert!(matches!(children[0], Node::Number { value: 1 }));
                match &children[1] {
                    Node::MathExpression { name, children } => {
                        assert_eq!(name, "-");
                        assert!(matches!(children[0], Node::Number { value: 2 }));
                        assert!(matches!(children[1], Node::Number { value: 3 }));
                    }
                    other => panic!("unexpected {:?}", other),
                }
            }
            other => panic!("unexpected {:?}", other),
        },
        other => panic!("unexpected {:?}", other),
    }
}

#[test]
fn empty_source_does_not_parse() {
    assert_eq!(program("").unwrap_err(), ParseError::NoMatch);
}
