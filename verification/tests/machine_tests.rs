use simple_script_compiler::code::{compile_program, Instr};
use simple_script_compiler::interpreter::{
    builtin_print, builtin_println, builtin_typeof, call_function, display_piece,
    evaluate_binary_op, literal_to_value, operator_name_of, value_type_name, Environment,
    Interpreter, Piece, Reply, Request, RuntimeError, Value,
};
use simple_script_compiler::lexer::{Lexer, Literal, Numeral};
use simple_script_compiler::parser::{BinaryOp, Parser, Program};

fn parse(source: &str) -> Program {
    Parser::new(Lexer::new(source)).parse().expect("should parse")
}

fn bits(n: f64) -> u64 {
    n.to_bits()
}

fn text(s: &str) -> Piece {
    Piece::Text(s.to_string())
}

#[test]
fn the_machine_asks_for_each_conversion_and_operation() {
    let mut interp = Interpreter::new();
    match interp.interpret(parse("var x = 1 + 2.5;")) {
        Request::Convert(n) => assert_eq!(n.as_str(), "1"),
        other => panic!("got {:?}", other),
    }
    match interp.resume(Reply::Number(bits(1.0))) {
        Request::Convert(n) => assert_eq!(n.as_str(), "2.5"),
        other => panic!("got {:?}", other),
    }
    match interp.resume(Reply::Number(bits(2.5))) {
        Request::Compute { op, left, right } => {
            assert_eq!(op, BinaryOp::Add);
            assert_eq!(left, bits(1.0));
            assert_eq!(right, bits(2.5));
        }
        other => panic!("got {:?}", other),
    }
    assert!(interp.get_variables().is_empty());
    assert!(matches!(interp.resume(Reply::Number(bits(3.5))), Request::Finished));
    assert_eq!(interp.get_variables().get("x"), Some(&Value::Number(bits(3.5))));
}

#[test]
fn the_machine_takes_the_reply_as_it_is() {
    // What the host answers is what the program goes on with.
    let mut interp = Interpreter::new();
    assert!(matches!(interp.interpret(parse("var x = 7;")), Request::Convert(_)));
    assert!(matches!(interp.resume(Reply::Number(42)), Request::Finished));
    assert_eq!(interp.get_variables().get("x"), Some(&Value::Number(42)));
}

#[test]
fn a_reply_of_the_wrong_kind_changes_nothing() {
    let mut interp = Interpreter::new();
    assert!(matches!(interp.interpret(parse("print(1);")), Request::Convert(_)));
    match interp.resume(Reply::Written) {
        Request::Convert(n) => assert_eq!(n.as_str(), "1"),
        other => panic!("got {:?}", other),
    }
    match interp.resume(Reply::Number(bits(1.0))) {
        Request::Write(pieces) => assert_eq!(pieces, vec![Piece::Number(bits(1.0))]),
        other => panic!("got {:?}", other),
    }
    match interp.resume(Reply::Number(bits(9.0))) {
        Request::Write(pieces) => assert_eq!(pieces, vec![Piece::Number(bits(1.0))]),
        other => panic!("got {:?}", other),
    }
    assert!(matches!(interp.resume(Reply::Written), Request::Finished));
}

#[test]
fn finished_and_failed_stay() {
    let mut interp = Interpreter::new();
    assert!(matches!(interp.resume(Reply::Written), Request::Finished));
    assert!(matches!(interp.interpret(parse("")), Request::Finished));
    assert!(matches!(interp.resume(Reply::Number(1)), Request::Finished));
    assert!(matches!(interp.interpret(parse("var t = true;")), Request::Finished));
    assert!(matches!(interp.resume(Reply::Written), Request::Finished));
    assert_eq!(interp.get_variables().get("t"), Some(&Value::Boolean(true)));

    for reply in [Reply::Written, Reply::Number(0)] {
        match interp.interpret(parse("var a = t; nope(); var b = t;")) {
            Request::Failed(RuntimeError::UndefinedFunction(name)) => assert_eq!(name, "nope"),
            other => panic!("got {:?}", other),
        }
        match interp.resume(reply) {
            Request::Failed(RuntimeError::UndefinedFunction(name)) => assert_eq!(name, "nope"),
            other => panic!("got {:?}", other),
        }
    }
    assert!(interp.get_variables().contains_key("a"));
    assert!(!interp.get_variables().contains_key("b"));
}

#[test]
fn a_new_program_replaces_the_one_that_runs() {
    let mut interp = Interpreter::new();
    assert!(matches!(interp.interpret(parse("var a = true; var x = 1;")), Request::Convert(_)));
    assert!(matches!(interp.interpret(parse("var c = a;")), Request::Finished));
    assert_eq!(interp.get_variables().get("c"), Some(&Value::Boolean(true)));
    assert!(!interp.get_variables().contains_key("x"));
}

#[test]
fn a_division_by_zero_is_never_asked_for() {
    for zero in [0.0f64, -0.0f64] {
        let mut interp = Interpreter::default();
        assert!(matches!(interp.interpret(parse("var x = 8 / 2;")), Request::Convert(_)));
        assert!(matches!(interp.resume(Reply::Number(bits(8.0))), Request::Convert(_)));
        match interp.resume(Reply::Number(bits(zero))) {
            Request::Failed(RuntimeError::TypeError(message)) => {
                assert_eq!(message, "Division by zero")
            }
            other => panic!("got {:?}", other),
        }
    }
    let nan = f64::NAN;
    match evaluate_binary_op(&Value::Number(bits(1.0)), BinaryOp::Divide, &Value::Number(bits(nan))) {
        Err(Request::Compute { op: BinaryOp::Divide, .. }) => {}
        other => panic!("got {:?}", other),
    }
}

#[test]
fn binary_operations_on_values() {
    let one = Value::Number(bits(1.0));
    let two = Value::Number(bits(2.0));
    let a = Value::String("a".to_string());
    let b = Value::String("b".to_string());
    for op in [BinaryOp::Add, BinaryOp::Subtract, BinaryOp::Multiply, BinaryOp::Divide] {
        match evaluate_binary_op(&one, op, &two) {
            Err(Request::Compute { op: asked, left, right }) => {
                assert_eq!(asked, op);
                assert_eq!(left, bits(1.0));
                assert_eq!(right, bits(2.0));
            }
            other => panic!("got {:?}", other),
        }
    }
    match evaluate_binary_op(&a, BinaryOp::Add, &b) {
        Ok(value) => assert_eq!(value, Value::String("ab".to_string())),
        other => panic!("got {:?}", other),
    }
    match evaluate_binary_op(&b, BinaryOp::Add, &a) {
        Ok(value) => assert_eq!(value, Value::String("ba".to_string())),
        other => panic!("got {:?}", other),
    }
    let message = |l: &Value, op: BinaryOp, r: &Value| match evaluate_binary_op(l, op, r) {
        Err(Request::Failed(RuntimeError::TypeError(message))) => message,
        other => panic!("got {:?}", other),
    };
    assert_eq!(message(&a, BinaryOp::Subtract, &b), "Cannot apply Subtract to string and string");
    assert_eq!(message(&a, BinaryOp::Add, &one), "Cannot apply Add to string and number");
    assert_eq!(message(&Value::Null, BinaryOp::Divide, &Value::Boolean(true)), "Cannot apply Divide to null and boolean");
    assert_eq!(message(&one, BinaryOp::Divide, &Value::Number(0)), "Division by zero");
    assert_eq!(message(&a, BinaryOp::Divide, &Value::Number(0)), "Cannot apply Divide to string and number");
}

#[test]
fn names_of_types_and_operators() {
    assert_eq!(value_type_name(&Value::String(String::new())), "string");
    assert_eq!(value_type_name(&Value::Number(0)), "number");
    assert_eq!(value_type_name(&Value::Boolean(false)), "boolean");
    assert_eq!(value_type_name(&Value::Null), "null");
    assert_eq!(operator_name_of(BinaryOp::Add), "Add");
    assert_eq!(operator_name_of(BinaryOp::Subtract), "Subtract");
    assert_eq!(operator_name_of(BinaryOp::Multiply), "Multiply");
    assert_eq!(operator_name_of(BinaryOp::Divide), "Divide");
}

#[test]
fn literals_become_values() {
    assert_eq!(literal_to_value(&Literal::String("s".to_string())).unwrap(), Value::String("s".to_string()));
    assert_eq!(literal_to_value(&Literal::Boolean(true)).unwrap(), Value::Boolean(true));
    match literal_to_value(&Literal::Number(Numeral::new("-.5").unwrap())) {
        Err(Request::Convert(n)) => assert_eq!(n.as_str(), "-.5"),
        other => panic!("got {:?}", other),
    }
}

#[test]
fn builtins_on_values() {
    let args = vec![Value::String("a".to_string()), Value::Number(7), Value::Boolean(false), Value::Null];
    assert_eq!(
        builtin_print(&args),
        vec![text("a"), text(" "), Piece::Number(7), text(" "), text("false"), text(" "), text("null")]
    );
    assert_eq!(builtin_print(&vec![]), vec![]);
    assert_eq!(builtin_println(&vec![]), vec![text("\n")]);
    assert_eq!(builtin_println(&vec![Value::Boolean(true)]), vec![text("true"), text("\n")]);
    assert_eq!(display_piece(&Value::Number(3)), Piece::Number(3));
    assert_eq!(display_piece(&Value::Boolean(true)), text("true"));
    assert_eq!(builtin_typeof(&vec![Value::Null]).unwrap(), Value::String("null".to_string()));
    match builtin_typeof(&args) {
        Err(RuntimeError::ArityMismatch { function, expected, found }) => {
            assert_eq!((function.as_str(), expected, found), ("typeof", 1, 4))
        }
        other => panic!("got {:?}", other),
    }
    match call_function(&"print".to_string(), &args) {
        Err(Request::Write(pieces)) => assert_eq!(pieces.len(), 7),
        other => panic!("got {:?}", other),
    }
    match call_function(&"println".to_string(), &args) {
        Err(Request::Write(pieces)) => assert_eq!(pieces.len(), 8),
        other => panic!("got {:?}", other),
    }
    assert_eq!(call_function(&"typeof".to_string(), &vec![Value::Number(1)]).unwrap(), Value::String("number".to_string()));
    match call_function(&"Print".to_string(), &args) {
        Err(Request::Failed(RuntimeError::UndefinedFunction(name))) => assert_eq!(name, "Print"),
        other => panic!("got {:?}", other),
    }
}

#[test]
fn the_scope_binds_and_finds() {
    let mut env = Environment::new();
    assert!(matches!(env.get("a"), Err(RuntimeError::UndefinedVariable(name)) if name == "a"));
    env.define("a".to_string(), Value::Number(1));
    env.define("b".to_string(), Value::Null);
    env.define("a".to_string(), Value::Boolean(true));
    assert_eq!(env.get("a").unwrap(), Value::Boolean(true));
    assert_eq!(env.get("b").unwrap(), Value::Null);
    assert_eq!(env.variables().len(), 2);
    assert!(Environment::default().variables().is_empty());
}

#[test]
fn code_is_postfix() {
    let code = compile_program(&parse("var x = f(1, a) * (2 - b); x;"));
    let shape: Vec<String> = code
        .iter()
        .map(|instr| match instr {
            Instr::Push(Literal::Number(n)) => format!("push {}", n.as_str()),
            Instr::Push(other) => format!("push {:?}", other),
            Instr::Load(name) => format!("load {}", name),
            Instr::Apply(op) => format!("apply {:?}", op),
            Instr::Call { name, argc } => format!("call {} {}", name, argc),
            Instr::Store(name) => format!("store {}", name),
            Instr::Drop => "drop".to_string(),
        })
        .collect();
    assert_eq!(
        shape,
        vec![
            "push 1", "load a", "call f 2", "push 2", "load b", "apply Subtract",
            "apply Multiply", "store x", "load x", "drop",
        ]
    );
    assert!(compile_program(&parse("")).is_empty());
}
