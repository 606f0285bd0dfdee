use simple_script_compiler::interpreter::{Interpreter, Piece, Reply, Request, RuntimeError, Value};
use simple_script_compiler::lexer::Lexer;
use simple_script_compiler::parser::{BinaryOp, Parser, Program};

/// The display form of a double.
fn number_text(bits: u64) -> String {
    let n = f64::from_bits(bits);
    if n == 0.0 {
        "0".to_string()
    } else if n.fract() == 0.0 {
        format!("{:.0}", n)
    } else {
        format!("{}", n)
    }
}

/// Runs `program` to its end, doing the host's part; output goes to `out`.
fn interpret(
    interp: &mut Interpreter,
    program: Program,
    out: &mut String,
) -> Result<(), RuntimeError> {
    let mut request = interp.interpret(program);
    loop {
        let reply = match request {
            Request::Finished => return Ok(()),
            Request::Failed(error) => return Err(error),
            Request::Convert(numeral) => {
                Reply::Number(numeral.as_str().parse::<f64>().expect("numeral").to_bits())
            }
            Request::Compute { op, left, right } => {
                let (l, r) = (f64::from_bits(left), f64::from_bits(right));
                let result = match op {
                    BinaryOp::Add => l + r,
                    BinaryOp::Subtract => l - r,
                    BinaryOp::Multiply => l * r,
                    BinaryOp::Divide => l / r,
                };
                Reply::Number(result.to_bits())
            }
            Request::Write(pieces) => {
                for piece in pieces {
                    match piece {
                        Piece::Text(text) => out.push_str(&text),
                        Piece::Number(bits) => out.push_str(&number_text(bits)),
                    }
                }
                Reply::Written
            }
        };
        request = interp.resume(reply);
    }
}

fn run_program(source: &str) -> Result<Interpreter, String> {
    let lexer = Lexer::new(source);
    let mut parser = Parser::new(lexer);

    let program = parser
        .parse()
        .map_err(|e| format!("Parse error: {:?}", e))?;

    let mut interpreter = Interpreter::new();
    let mut out = String::new();
    interpret(&mut interpreter, program, &mut out)
        .map_err(|e| format!("Runtime error: {}", e.message()))?;

    Ok(interpreter)
}

#[test]
fn interpreter_tests_interpreter_arithmetic_and_precedence() {
    let src = r#"
    var a = 10;
    var b = 5;
    var sum = a + b;
    var product = a * b;
    var complex = 2 + 3 * 4;
    "#;

    let interp = run_program(src).expect("should run");
    let vars = interp.get_variables();
    match vars.get("sum").unwrap() {
        Value::Number(n) => assert_eq!(f64::from_bits(*n), 15.0),
        _ => panic!("sum not number"),
    }
}

#[test]
fn interpreter_tests_interpreter_strings_and_concatenation_and_typeof() {
    let src = r#"
    var s = "Hello";
    var t = "World";
    var greeting = s + ", " + t + "!";
    var ty = typeof(greeting);
    "#;

    let interp = run_program(src).expect("should run");
    let vars = interp.get_variables();
    assert_eq!(
        vars.get("greeting").unwrap(),
        &Value::String("Hello, World!".to_string())
    );
    assert_eq!(
        vars.get("ty").unwrap(),
        &Value::String("string".to_string())
    );
}
