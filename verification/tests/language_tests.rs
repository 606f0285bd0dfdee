use simple_script_compiler::interpreter::{Interpreter, Piece, Reply, Request, RuntimeError, Value};
use simple_script_compiler::lexer::Lexer;
use simple_script_compiler::parser::{BinaryOp, Parser};

/// The display form of a double.
fn number_text(bits: u64) -> String {
    let n = f64::from_bits(bits);
    if n == 0.0 {
        "0".to_string()
    } else if n.fract() == 0.0 {
        format!("{:.0}", n)
    } else {
        format!("{}", n)
    }
}

/// Runs `source` in `interp`, doing the host's part; output goes to `out`.
fn run_in(interp: &mut Interpreter, source: &str, out: &mut String) -> Result<(), RuntimeError> {
    let program = Parser::new(Lexer::new(source)).parse().expect("should parse");
    let mut request = interp.interpret(program);
    loop {
        let reply = match request {
            Request::Finished => return Ok(()),
            Request::Failed(error) => return Err(error),
            Request::Convert(numeral) => {
                Reply::Number(numeral.as_str().parse::<f64>().expect("numeral").to_bits())
            }
            Request::Compute { op, left, right } => {
                let (l, r) = (f64::from_bits(left), f64::from_bits(right));
                assert!(!(op == BinaryOp::Divide && r == 0.0));
                let result = match op {
                    BinaryOp::Add => l + r,
                    BinaryOp::Subtract => l - r,
                    BinaryOp::Multiply => l * r,
                    BinaryOp::Divide => l / r,
                };
                Reply::Number(result.to_bits())
            }
            Request::Write(pieces) => {
                for piece in pieces {
                    match piece {
                        Piece::Text(text) => out.push_str(&text),
                        Piece::Number(bits) => out.push_str(&number_text(bits)),
                    }
                }
                Reply::Written
            }
        };
        request = interp.resume(reply);
    }
}

struct Outcome {
    interp: Interpreter,
    out: String,
    result: Result<(), RuntimeError>,
}

fn run(source: &str) -> Outcome {
    let mut interp = Interpreter::new();
    let mut out = String::new();
    let result = run_in(&mut interp, source, &mut out);
    Outcome { interp, out, result }
}

fn number_of(outcome: &Outcome, name: &str) -> f64 {
    match outcome.interp.get_variables().get(name) {
        Some(Value::Number(bits)) => f64::from_bits(*bits),
        other => panic!("{} is {:?}", name, other),
    }
}

fn string_of(outcome: &Outcome, name: &str) -> String {
    match outcome.interp.get_variables().get(name) {
        Some(Value::String(s)) => s.clone(),
        other => panic!("{} is {:?}", name, other),
    }
}

fn type_error(outcome: &Outcome) -> String {
    match &outcome.result {
        Err(RuntimeError::TypeError(message)) => message.clone(),
        other => panic!("expected a type error, got {:?}", other),
    }
}

#[test]
fn subtraction_associates_to_the_left() {
    let o = run("var a = 10; var b = 3; var c = 2; var r = a - b - c; var q = 100 / 10 / 5;");
    assert!(o.result.is_ok());
    assert_eq!(number_of(&o, "r"), 5.0);
    assert_eq!(number_of(&o, "q"), 2.0);
}

#[test]
fn precedence_and_parentheses() {
    let o = run("var p = 2 + 3 * 4; var q = (2 + 3) * 4; var r = 10 + 5 * 2 - 8 / 4;");
    assert!(o.result.is_ok());
    assert_eq!(number_of(&o, "p"), 14.0);
    assert_eq!(number_of(&o, "q"), 20.0);
    assert_eq!(number_of(&o, "r"), 18.0);
}

#[test]
fn a_declaration_overwrites() {
    let o = run("var a = 1; var a = 2;");
    assert!(o.result.is_ok());
    assert_eq!(number_of(&o, "a"), 2.0);
    assert_eq!(o.interp.get_variables().len(), 1);
    let o = run("var a = 1; var a = a + 1; var a = \"now text\";");
    assert_eq!(string_of(&o, "a"), "now text");
}

#[test]
fn division_by_zero_is_a_type_error() {
    let o = run("var x = 1 / 0;");
    assert_eq!(type_error(&o), "Division by zero");
    assert!(!o.interp.get_variables().contains_key("x"));
    assert_eq!(type_error(&run("var x = 1 / -0;")), "Division by zero");
    assert_eq!(type_error(&run("var z = 0; var x = 0 / (z * -1);")), "Division by zero");
    let o = run("var x = 0 / 4;");
    assert_eq!(number_of(&o, "x"), 0.0);
}

#[test]
fn a_type_mismatch_names_the_operator_and_both_types() {
    assert_eq!(type_error(&run("var x = \"hi\" - 1;")), "Cannot apply Subtract to string and number");
    assert_eq!(type_error(&run("var x = \"hi\" + 1;")), "Cannot apply Add to string and number");
    assert_eq!(type_error(&run("var x = 1 + \"hi\";")), "Cannot apply Add to number and string");
    assert_eq!(type_error(&run("var x = true * false;")), "Cannot apply Multiply to boolean and boolean");
    assert_eq!(type_error(&run("var x = \"a\" / \"b\";")), "Cannot apply Divide to string and string");
    assert_eq!(type_error(&run("var x = print() + 1;")), "Cannot apply Add to null and number");
}

#[test]
fn typeof_names_the_type() {
    let o = run(
        "var s = typeof(\"x\"); var n = typeof(1.5); var b = typeof(false); var u = typeof(print());",
    );
    assert!(o.result.is_ok());
    assert_eq!(string_of(&o, "s"), "string");
    assert_eq!(string_of(&o, "n"), "number");
    assert_eq!(string_of(&o, "b"), "boolean");
    assert_eq!(string_of(&o, "u"), "null");
    assert_eq!(string_of(&run("var t = typeof(typeof(1));"), "t"), "string");
}

#[test]
fn typeof_takes_one_argument() {
    for (source, args) in [("typeof();", 0), ("typeof(1, 2);", 2), ("typeof(1, 2, 3);", 3)] {
        match run(source).result {
            Err(RuntimeError::ArityMismatch { function, expected, found }) => {
                assert_eq!(function, "typeof");
                assert_eq!(expected, 1);
                assert_eq!(found, args);
            }
            other => panic!("{} gave {:?}", source, other),
        }
    }
}

#[test]
fn undefined_names_fail() {
    match run("var y = x;").result {
        Err(RuntimeError::UndefinedVariable(name)) => assert_eq!(name, "x"),
        other => panic!("got {:?}", other),
    }
    match run("foo(1);").result {
        Err(RuntimeError::UndefinedFunction(name)) => assert_eq!(name, "foo"),
        other => panic!("got {:?}", other),
    }
    // A declaration takes effect only behind itself.
    match run("var a = a;").result {
        Err(RuntimeError::UndefinedVariable(name)) => assert_eq!(name, "a"),
        other => panic!("got {:?}", other),
    }
    // Arguments are evaluated before the name is looked up.
    match run("foo(x);").result {
        Err(RuntimeError::UndefinedVariable(name)) => assert_eq!(name, "x"),
        other => panic!("got {:?}", other),
    }
    // A variable is no function.
    match run("var f = 1; f();").result {
        Err(RuntimeError::UndefinedFunction(name)) => assert_eq!(name, "f"),
        other => panic!("got {:?}", other),
    }
}

#[test]
fn strings_concatenate() {
    let o = run("var g = \"Hi \" + \"there\"; var e = \"\" + \"\"; var n = \"a\" + \"b\" + \"c\";");
    assert_eq!(string_of(&o, "g"), "Hi there");
    assert_eq!(string_of(&o, "e"), "");
    assert_eq!(string_of(&o, "n"), "abc");
}

#[test]
fn print_writes_display_forms() {
    let o = run("print(\"a\", 1, true, 2.5, -3, false); println(); println(\"x\", typeof(1)); print(print());");
    assert!(o.result.is_ok());
    assert_eq!(o.out, "a 1 true 2.5 -3 false\nx number\nnull");
    assert_eq!(run("println(4.28, 10 / 4, 1 / 3, 0.1 + 0.2, 100);").out, "4.28 2.5 0.3333333333333333 0.30000000000000004 100\n");
    assert_eq!(run("print();").out, "");
    assert_eq!(
        run("println(10000000000 * 1000000000, 0 * -1, -4 / 2, 2 * 4611686018427387904);").out,
        "10000000000000000000 0 -2 9223372036854775808\n"
    );
    assert_eq!(run("println(\"My number:\", 4.28);").out, "My number: 4.28\n");
}

#[test]
fn the_first_error_ends_the_run() {
    let o = run("var a = 1; println(\"before\"); var b = c; var d = 2; println(\"behind\");");
    match &o.result {
        Err(RuntimeError::UndefinedVariable(name)) => assert_eq!(name, "c"),
        other => panic!("got {:?}", other),
    }
    assert_eq!(o.out, "before\n");
    assert_eq!(number_of(&o, "a"), 1.0);
    assert!(!o.interp.get_variables().contains_key("b"));
    assert!(!o.interp.get_variables().contains_key("d"));
}

#[test]
fn operands_are_evaluated_from_left_to_right() {
    let o = run("var x = print(1) + print(2);");
    assert_eq!(o.out, "12");
    assert_eq!(type_error(&o), "Cannot apply Add to null and null");
    let o = run("print(print(\"a\"), print(\"b\"), undefined);");
    assert_eq!(o.out, "ab");
    assert!(o.result.is_err());
    let o = run("var x = missing + print(\"never\");");
    assert_eq!(o.out, "");
}

#[test]
fn the_scope_outlives_a_program() {
    let mut interp = Interpreter::new();
    let mut out = String::new();
    run_in(&mut interp, "var a = 5;", &mut out).expect("first");
    assert!(run_in(&mut interp, "var b = a * 2; var c = nope;", &mut out).is_err());
    run_in(&mut interp, "println(a, b);", &mut out).expect("third");
    assert_eq!(out, "5 10\n");
}

#[test]
fn error_messages() {
    assert_eq!(RuntimeError::UndefinedVariable("x".to_string()).message(), "Undefined variable 'x'");
    assert_eq!(RuntimeError::UndefinedFunction("foo".to_string()).message(), "Undefined function 'foo'");
    assert_eq!(RuntimeError::TypeError("Division by zero".to_string()).message(), "Type error: Division by zero");
    let arity = RuntimeError::ArityMismatch { function: "typeof".to_string(), expected: 1, found: 0 };
    assert_eq!(arity.message(), "Function 'typeof' expects 1 arguments, but 0 were provided");
    let arity = RuntimeError::ArityMismatch { function: "f".to_string(), expected: 10, found: 1234567 };
    assert_eq!(arity.message(), "Function 'f' expects 10 arguments, but 1234567 were provided");
    assert_eq!(arity.clone().message(), arity.message());
    assert_eq!(run("typeof(1, 2);").result.unwrap_err().message(), "Function 'typeof' expects 1 arguments, but 2 were provided");
}
