//! The evaluator: runtime values, the variable scope, the builtin functions
//! and the machine that runs a program.
//!
//! Numbers are doubles, and this library does no arithmetic on doubles. A
//! number is carried as the 64 bits of its IEEE 754 encoding; whenever the
//! double of a numeral or the result of an operation is needed, and whenever
//! text is to be written, the evaluator stops and says so in a [`Request`].
//! The host does that work and hands the result back in a [`Reply`].

use crate::code::{
    balanced, compile_program, gives, instruction_views, lemma_program_balanced, program_code,
    takes,
    Instr, InstrView,
};
use crate::lexer::{Literal, LiteralView, Numeral};
use crate::parser::{BinaryOp, Program};
use crate::text::{decimal, push_decimal, reads};
use vstd::hash_map::StringHashMap;
use vstd::prelude::*;

verus! {

// ---------------------------------------------------------------------------
// Values and errors
// ---------------------------------------------------------------------------

/// A runtime value. `Number` holds the bits of a double.
#[derive(Debug, PartialEq)]
pub enum Value {
    String(String),
    Number(u64),
    Boolean(bool),
    Null,
}

/// The mathematical content of a [`Value`].
pub enum ValueView {
    String(Seq<char>),
    Number(u64),
    Boolean(bool),
    Null,
}

impl View for Value {
    type V = ValueView;

    open spec fn view(&self) -> ValueView {
        match self {
            Value::String(s) => ValueView::String(s@),
            Value::Number(bits) => ValueView::Number(*bits),
            Value::Boolean(b) => ValueView::Boolean(*b),
            Value::Null => ValueView::Null,
        }
    }
}

impl Clone for Value {
    fn clone(&self) -> (r: Self)
        ensures
            r@ == self@,
    {
        match self {
            Value::String(s) => Value::String(s.clone()),
            Value::Number(bits) => Value::Number(*bits),
            Value::Boolean(b) => Value::Boolean(*b),
            Value::Null => Value::Null,
        }
    }
}

/// The mathematical content of a list of values.
pub open spec fn value_views(list: Seq<Value>) -> Seq<ValueView> {
    Seq::new(list.len(), |i: int| list[i]@)
}

/// Why a program stopped before its end.
#[derive(Debug)]
pub enum RuntimeError {
    UndefinedVariable(String),
    UndefinedFunction(String),
    TypeError(String),
    ArityMismatch { function: String, expected: usize, found: usize },
}

/// The mathematical content of a [`RuntimeError`].
pub enum RuntimeErrorView {
    UndefinedVariable(Seq<char>),
    UndefinedFunction(Seq<char>),
    TypeError(Seq<char>),
    ArityMismatch { function: Seq<char>, expected: nat, found: nat },
}

impl View for RuntimeError {
    type V = RuntimeErrorView;

    open spec fn view(&self) -> RuntimeErrorView {
        match self {
            RuntimeError::UndefinedVariable(name) => RuntimeErrorView::UndefinedVariable(name@),
            RuntimeError::UndefinedFunction(name) => RuntimeErrorView::UndefinedFunction(name@),
            RuntimeError::TypeError(message) => RuntimeErrorView::TypeError(message@),
            RuntimeError::ArityMismatch { function, expected, found } => {
                RuntimeErrorView::ArityMismatch {
                    function: function@,
                    expected: *expected as nat,
                    found: *found as nat,
                }
            },
        }
    }
}

/// The sentence that reports an error.
pub open spec fn error_message(error: RuntimeErrorView) -> Seq<char> {
    match error {
        RuntimeErrorView::UndefinedVariable(name) => "Undefined variable '"@ + name + "'"@,
        RuntimeErrorView::UndefinedFunction(name) => "Undefined function '"@ + name + "'"@,
        RuntimeErrorView::TypeError(message) => "Type error: "@ + message,
        RuntimeErrorView::ArityMismatch { function, expected, found } => "Function '"@ + function
            + "' expects "@ + decimal(expected) + " arguments, but "@ + decimal(found)
            + " were provided"@,
    }
}

impl RuntimeError {
    /// The sentence that reports this error.
    pub fn message(&self) -> (text: String)
        ensures
            text@ == error_message(self@),
    {
        match self {
            RuntimeError::UndefinedVariable(name) => {
                let mut text = "Undefined variable '".to_owned();
                text.append(name.as_str());
                text.append("'");
                text
            },
            RuntimeError::UndefinedFunction(name) => {
                let mut text = "Undefined function '".to_owned();
                text.append(name.as_str());
                text.append("'");
                text
            },
            RuntimeError::TypeError(message) => {
                let mut text = "Type error: ".to_owned();
                text.append(message.as_str());
                text
            },
            RuntimeError::ArityMismatch { function, expected, found } => {
                let mut text = "Function '".to_owned();
                text.append(function.as_str());
                text.append("' expects ");
                push_decimal(&mut text, *expected);
                text.append(" arguments, but ");
                push_decimal(&mut text, *found);
                text.append(" were provided");
                text
            },
        }
    }
}

impl Clone for RuntimeError {
    fn clone(&self) -> (r: Self)
        ensures
            r@ == self@,
    {
        match self {
            RuntimeError::UndefinedVariable(name) => RuntimeError::UndefinedVariable(name.clone()),
            RuntimeError::UndefinedFunction(name) => RuntimeError::UndefinedFunction(name.clone()),
            RuntimeError::TypeError(message) => RuntimeError::TypeError(message.clone()),
            RuntimeError::ArityMismatch { function, expected, found } => {
                RuntimeError::ArityMismatch {
                    function: function.clone(),
                    expected: *expected,
                    found: *found,
                }
            },
        }
    }
}

// ---------------------------------------------------------------------------
// What the host is asked for
// ---------------------------------------------------------------------------

/// A piece of output: text to be written as it is, or a number to be
/// written in its display form.
#[derive(Debug, PartialEq)]
pub enum Piece {
    Text(String),
    Number(u64),
}

/// The mathematical content of a [`Piece`].
pub enum PieceView {
    Text(Seq<char>),
    Number(u64),
}

impl View for Piece {
    type V = PieceView;

    open spec fn view(&self) -> PieceView {
        match self {
            Piece::Text(s) => PieceView::Text(s@),
            Piece::Number(bits) => PieceView::Number(*bits),
        }
    }
}

/// The mathematical content of a list of pieces.
pub open spec fn piece_views(list: Seq<Piece>) -> Seq<PieceView> {
    Seq::new(list.len(), |i: int| list[i]@)
}

/// Where the evaluator stands when it hands control back.
#[derive(Debug)]
pub enum Request {
    /// The program has run to its end.
    Finished,
    /// The program has failed; no statement behind the failure is run.
    Failed(RuntimeError),
    /// The double that the numeral denotes is needed.
    Convert(Numeral),
    /// The double `left op right` is needed. The divisor of a division is
    /// never a zero.
    Compute { op: BinaryOp, left: u64, right: u64 },
    /// The pieces are to be written to the output, in order.
    Write(Vec<Piece>),
}

/// The mathematical content of a [`Request`].
pub enum RequestView {
    Finished,
    Failed(RuntimeErrorView),
    Convert(Seq<char>),
    Compute { op: BinaryOp, left: u64, right: u64 },
    Write(Seq<PieceView>),
}

impl View for Request {
    type V = RequestView;

    open spec fn view(&self) -> RequestView {
        match self {
            Request::Finished => RequestView::Finished,
            Request::Failed(error) => RequestView::Failed(error@),
            Request::Convert(numeral) => RequestView::Convert(numeral@),
            Request::Compute { op, left, right } => RequestView::Compute {
                op: *op,
                left: *left,
                right: *right,
            },
            Request::Write(pieces) => RequestView::Write(piece_views(pieces@)),
        }
    }
}

/// What the host hands back.
#[derive(Debug, Clone, Copy, PartialEq)]
pub enum Reply {
    /// The double asked for by `Convert` or `Compute`.
    Number(u64),
    /// The pieces of `Write` have been written.
    Written,
}

// ---------------------------------------------------------------------------
// Evaluation on values
// ---------------------------------------------------------------------------

/// The name of a value's type.
pub open spec fn name_of_type(value: ValueView) -> Seq<char> {
    match value {
        ValueView::String(_) => "string"@,
        ValueView::Number(_) => "number"@,
        ValueView::Boolean(_) => "boolean"@,
        ValueView::Null => "null"@,
    }
}

/// The name of an operator.
pub open spec fn operator_name(op: BinaryOp) -> Seq<char> {
    match op {
        BinaryOp::Add => "Add"@,
        BinaryOp::Subtract => "Subtract"@,
        BinaryOp::Multiply => "Multiply"@,
        BinaryOp::Divide => "Divide"@,
    }
}

/// Whether the bits are those of a zero, positive or negative.
pub open spec fn is_zero(bits: u64) -> bool {
    bits == 0 || bits == 0x8000_0000_0000_0000
}

/// The message for an operator applied to operands that it does not take.
pub open spec fn mismatch_message(op: BinaryOp, left: ValueView, right: ValueView) -> Seq<char> {
    "Cannot apply "@ + operator_name(op) + " to "@ + name_of_type(left) + " and "@ + name_of_type(right)
}

/// What `left op right` comes to: a value, or what stands in its way.
///
/// - Two numbers: a division by a zero fails with the type error
///   `Division by zero`; any other operation is asked of the host.
/// - Two strings under `Add`: their concatenation.
/// - Anything else fails with the type error of [`mismatch_message`].
pub open spec fn binary_outcome(left: ValueView, op: BinaryOp, right: ValueView) -> Result<
    ValueView,
    RequestView,
> {
    if left is Number && right is Number {
        if op is Divide && is_zero(right->Number_0) {
            Err(RequestView::Failed(RuntimeErrorView::TypeError("Division by zero"@)))
        } else {
            Err(RequestView::Compute { op, left: left->Number_0, right: right->Number_0 })
        }
    } else if left is String && right is String && op is Add {
        Ok(ValueView::String(left->String_0 + right->String_0))
    } else {
        Err(RequestView::Failed(RuntimeErrorView::TypeError(mismatch_message(op, left, right))))
    }
}

/// The piece that displays a value: a string as it is, a boolean as `true`
/// or `false`, null as `null`, a number as a number.
pub open spec fn display(value: ValueView) -> PieceView {
    match value {
        ValueView::String(s) => PieceView::Text(s),
        ValueView::Number(bits) => PieceView::Number(bits),
        ValueView::Boolean(b) => PieceView::Text(
            if b {
                "true"@
            } else {
                "false"@
            },
        ),
        ValueView::Null => PieceView::Text("null"@),
    }
}

/// What `print` writes: the display of each argument, with a space
/// between neighbours.
pub open spec fn print_pieces(args: Seq<ValueView>) -> Seq<PieceView>
    decreases args.len(),
{
    if args.len() == 0 {
        Seq::empty()
    } else if args.len() == 1 {
        seq![display(args[0])]
    } else {
        print_pieces(args.drop_last()).push(PieceView::Text(" "@)).push(display(args.last()))
    }
}

/// What `println` writes: what `print` writes, and a line feed.
pub open spec fn println_pieces(args: Seq<ValueView>) -> Seq<PieceView> {
    print_pieces(args).push(PieceView::Text("\n"@))
}

/// What `typeof` gives: the type name of its one argument, or the arity
/// mismatch that names `typeof`, 1 and the number of arguments found.
pub open spec fn typeof_outcome(args: Seq<ValueView>) -> Result<ValueView, RuntimeErrorView> {
    if args.len() == 1 {
        Ok(ValueView::String(name_of_type(args[0])))
    } else {
        Err(
            RuntimeErrorView::ArityMismatch {
                function: "typeof"@,
                expected: 1,
                found: args.len(),
            },
        )
    }
}

/// What the call of `name` on `args` comes to: for `print` and `println`
/// the request to write, for `typeof` its value or its error, for any other
/// name the error `UndefinedFunction`.
pub open spec fn call_outcome(name: Seq<char>, args: Seq<ValueView>) -> Result<
    ValueView,
    RequestView,
> {
    if name == "print"@ {
        Err(RequestView::Write(print_pieces(args)))
    } else if name == "println"@ {
        Err(RequestView::Write(println_pieces(args)))
    } else if name == "typeof"@ {
        match typeof_outcome(args) {
            Ok(value) => Ok(value),
            Err(error) => Err(RequestView::Failed(error)),
        }
    } else {
        Err(RequestView::Failed(RuntimeErrorView::UndefinedFunction(name)))
    }
}

/// What a literal comes to: the string or boolean that it holds, or, for a
/// number, the request to convert its numeral.
pub open spec fn literal_outcome(literal: LiteralView) -> Result<ValueView, RequestView> {
    match literal {
        LiteralView::String(s) => Ok(ValueView::String(s)),
        LiteralView::Number(numeral) => Err(RequestView::Convert(numeral)),
        LiteralView::Boolean(b) => Ok(ValueView::Boolean(b)),
    }
}

/// What a variable comes to: its value, or the error `UndefinedVariable`
/// that names it.
pub open spec fn variable_outcome(env: Map<Seq<char>, ValueView>, name: Seq<char>) -> Result<
    ValueView,
    RequestView,
> {
    if env.contains_key(name) {
        Ok(env[name])
    } else {
        Err(RequestView::Failed(RuntimeErrorView::UndefinedVariable(name)))
    }
}

/// Whether an exec outcome is the outcome that the rules ask for.
pub open spec fn outcome_is(r: Result<Value, Request>, rule: Result<ValueView, RequestView>) -> bool {
    match rule {
        Ok(value) => r matches Ok(v) && v@ == value,
        Err(request) => r matches Err(q) && q@ == request,
    }
}

/// The name of a value's type: `string`, `number`, `boolean` or `null`.
pub fn value_type_name(value: &Value) -> (name: &'static str)
    ensures
        name@ == name_of_type(value@),
{
    match value {
        Value::String(_) => "string",
        Value::Number(_) => "number",
        Value::Boolean(_) => "boolean",
        Value::Null => "null",
    }
}

/// The name of an operator, as error messages give it.
pub fn operator_name_of(op: BinaryOp) -> (name: &'static str)
    ensures
        name@ == operator_name(op),
{
    match op {
        BinaryOp::Add => "Add",
        BinaryOp::Subtract => "Subtract",
        BinaryOp::Multiply => "Multiply",
        BinaryOp::Divide => "Divide",
    }
}

/// The value of a literal, or the request to convert its numeral.
pub fn literal_to_value(literal: &Literal) -> (r: Result<Value, Request>)
    ensures
        outcome_is(r, literal_outcome(literal@)),
{
    match literal {
        Literal::String(s) => Ok(Value::String(s.clone())),
        Literal::Number(numeral) => Err(Request::Convert(numeral.clone())),
        Literal::Boolean(b) => Ok(Value::Boolean(*b)),
    }
}

/// Applies `op` to two values as far as that needs no arithmetic: see
/// [`binary_outcome`].
pub fn evaluate_binary_op(left: &Value, op: BinaryOp, right: &Value) -> (r: Result<Value, Request>)
    ensures
        outcome_is(r, binary_outcome(left@, op, right@)),
{
    match (left, right) {
        (Value::Number(l), Value::Number(r)) => {
            let by_zero = match op {
                BinaryOp::Divide => *r == 0 || *r == 0x8000_0000_0000_0000,
                _ => false,
            };
            if by_zero {
                Err(Request::Failed(RuntimeError::TypeError("Division by zero".to_owned())))
            } else {
                Err(Request::Compute { op, left: *l, right: *r })
            }
        },
        (Value::String(l), Value::String(r)) => {
            match op {
                BinaryOp::Add => {
                    let mut joined = l.clone();
                    joined.append(r.as_str());
                    Ok(Value::String(joined))
                },
                _ => Err(Request::Failed(mismatch(left, op, right))),
            }
        },
        _ => Err(Request::Failed(mismatch(left, op, right))),
    }
}

/// The type error for an operator applied to operands that it does not
/// take.
fn mismatch(left: &Value, op: BinaryOp, right: &Value) -> (error: RuntimeError)
    ensures
        error@ == RuntimeErrorView::TypeError(mismatch_message(op, left@, right@)),
{
    let mut text = "Cannot apply ".to_owned();
    text.append(operator_name_of(op));
    text.append(" to ");
    text.append(value_type_name(left));
    text.append(" and ");
    text.append(value_type_name(right));
    RuntimeError::TypeError(text)
}

/// The piece that displays `value`.
pub fn display_piece(value: &Value) -> (piece: Piece)
    ensures
        piece@ == display(value@),
{
    match value {
        Value::String(s) => Piece::Text(s.clone()),
        Value::Number(bits) => Piece::Number(*bits),
        Value::Boolean(b) => Piece::Text(
            if *b {
                "true".to_owned()
            } else {
                "false".to_owned()
            },
        ),
        Value::Null => Piece::Text("null".to_owned()),
    }
}

/// What `print` writes for `args`.
pub fn builtin_print(args: &Vec<Value>) -> (pieces: Vec<Piece>)
    ensures
        piece_views(pieces@) == print_pieces(value_views(args@)),
{
    let ghost all = value_views(args@);
    let mut pieces: Vec<Piece> = Vec::new();
    let mut i: usize = 0;
    assert(piece_views(pieces@) =~= print_pieces(all.take(0)));
    while i < args.len()
        invariant
            i <= args.len(),
            all == value_views(args@),
            piece_views(pieces@) == print_pieces(all.take(i as int)),
        decreases args.len() - i,
    {
        let ghost before = piece_views(pieces@);
        if i > 0 {
            pieces.push(Piece::Text(" ".to_owned()));
        }
        pieces.push(display_piece(&args[i]));
        proof {
            let now = all.take(i + 1);
            assert(now.drop_last() =~= all.take(i as int));
            assert(now.last() == args[i as int]@);
            if i > 0 {
                assert(piece_views(pieces@) =~= before.push(PieceView::Text(" "@)).push(
                    display(args[i as int]@),
                ));
            } else {
                assert(piece_views(pieces@) =~= seq![display(args[i as int]@)]);
                assert(now[0] == args[0]@);
            }
        }
        i += 1;
    }
    assert(all.take(i as int) =~= all);
    pieces
}

/// What `println` writes for `args`.
pub fn builtin_println(args: &Vec<Value>) -> (pieces: Vec<Piece>)
    ensures
        piece_views(pieces@) == println_pieces(value_views(args@)),
{
    let mut pieces = builtin_print(args);
    let ghost before = piece_views(pieces@);
    pieces.push(Piece::Text("\n".to_owned()));
    assert(piece_views(pieces@) =~= before.push(PieceView::Text("\n"@)));
    pieces
}

/// The type name of the one argument, as a string value; an arity mismatch
/// unless there is exactly one.
pub fn builtin_typeof(args: &Vec<Value>) -> (r: Result<Value, RuntimeError>)
    ensures
        match typeof_outcome(value_views(args@)) {
            Ok(value) => r matches Ok(v) && v@ == value,
            Err(error) => r matches Err(e) && e@ == error,
        },
{
    if args.len() != 1 {
        return Err(
            RuntimeError::ArityMismatch {
                function: "typeof".to_owned(),
                expected: 1,
                found: args.len(),
            },
        );
    }
    Ok(Value::String(value_type_name(&args[0]).to_owned()))
}

/// Calls the builtin `name` on `args` as far as that needs no output: see
/// [`call_outcome`].
pub fn call_function(name: &String, args: &Vec<Value>) -> (r: Result<Value, Request>)
    ensures
        outcome_is(r, call_outcome(name@, value_views(args@))),
{
    if reads(name, "print") {
        Err(Request::Write(builtin_print(args)))
    } else if reads(name, "println") {
        Err(Request::Write(builtin_println(args)))
    } else if reads(name, "typeof") {
        match builtin_typeof(args) {
            Ok(value) => Ok(value),
            Err(error) => Err(Request::Failed(error)),
        }
    } else {
        Err(Request::Failed(RuntimeError::UndefinedFunction(name.clone())))
    }
}

// ---------------------------------------------------------------------------
// The scope
// ---------------------------------------------------------------------------

/// The mathematical content of a table of variables.
pub open spec fn bindings(table: Map<Seq<char>, Value>) -> Map<Seq<char>, ValueView> {
    table.map_values(|v: Value| v@)
}

/// The one flat scope of a run: variable names and their values.
pub struct Environment {
    variables: StringHashMap<Value>,
}

impl View for Environment {
    type V = Map<Seq<char>, ValueView>;

    closed spec fn view(&self) -> Map<Seq<char>, ValueView> {
        bindings(self.variables@)
    }
}

impl Environment {
    /// The empty scope.
    pub fn new() -> (env: Environment)
        ensures
            env@ == Map::<Seq<char>, ValueView>::empty(),
    {
        let env = Environment { variables: StringHashMap::new() };
        assert(env@ =~= Map::<Seq<char>, ValueView>::empty());
        env
    }

    /// Binds `name` to `value`, whether or not it was bound before.
    pub fn define(&mut self, name: String, value: Value)
        ensures
            final(self)@ == old(self)@.insert(name@, value@),
    {
        self.variables.insert(name, value);
        assert(self@ =~= old(self)@.insert(name@, value@));
    }

    /// The value of `name`, or `UndefinedVariable` if it is not bound.
    pub fn get(&self, name: &str) -> (r: Result<Value, RuntimeError>)
        ensures
            match r {
                Ok(value) => self@.contains_key(name@) && value@ == self@[name@],
                Err(error) => !self@.contains_key(name@) && error@
                    == RuntimeErrorView::UndefinedVariable(name@),
            },
    {
        match self.variables.get(name) {
            Some(value) => Ok(value.clone()),
            None => Err(RuntimeError::UndefinedVariable(name.to_owned())),
        }
    }

    /// The table of variables.
    pub fn variables(&self) -> (table: &StringHashMap<Value>)
        ensures
            bindings(table@) == self@,
    {
        &self.variables
    }
}

impl Default for Environment {
    fn default() -> (env: Environment)
        ensures
            env@ == Map::<Seq<char>, ValueView>::empty(),
    {
        Environment::new()
    }
}

// ---------------------------------------------------------------------------
// The machine
// ---------------------------------------------------------------------------

/// The state of a run: the code that is still to be run, the instruction to
/// be run next at its head; the stack of values; and the scope.
pub struct MachineView {
    pub code: Seq<InstrView>,
    pub stack: Seq<ValueView>,
    pub env: Map<Seq<char>, ValueView>,
}

/// What the instruction at the head of the code does.
pub enum Step {
    /// It has been carried out, and this is the state behind it.
    Go(MachineView),
    /// It cannot be carried out as things stand: the state is unchanged,
    /// and this is why.
    Stop(RequestView),
}

/// The `n` topmost values of a stack, the topmost last.
pub open spec fn top(stack: Seq<ValueView>, n: nat) -> Seq<ValueView> {
    stack.subrange(stack.len() - n, stack.len() as int)
}

/// The state in which the instruction at the head has been carried out
/// with the result `value`: the values that it takes are gone from the
/// stack and `value` is in their place.
pub open spec fn complete(m: MachineView, value: ValueView) -> MachineView {
    MachineView {
        code: m.code.skip(1),
        stack: m.stack.take(m.stack.len() - takes(m.code[0])).push(value),
        env: m.env,
    }
}

/// What the instruction at the head comes to: its value, or what stands in
/// the way.
///
/// - `Push`: what the literal comes to by [`literal_outcome`].
/// - `Load`: what the variable comes to by [`variable_outcome`].
/// - `Apply`: what the operator comes to on the two topmost values, the
///   left operand being the lower one, by [`binary_outcome`].
/// - `Call`: what the call comes to on the `argc` topmost values, by
///   [`call_outcome`].
/// - `Store` and `Drop` come to no value of their own; null stands for it.
pub open spec fn head_outcome(m: MachineView) -> Result<ValueView, RequestView> {
    match m.code[0] {
        InstrView::Push(literal) => literal_outcome(literal),
        InstrView::Load(name) => variable_outcome(m.env, name),
        InstrView::Apply(op) => binary_outcome(
            m.stack[m.stack.len() - 2],
            op,
            m.stack[m.stack.len() - 1],
        ),
        InstrView::Call { name, argc } => call_outcome(name, top(m.stack, argc)),
        InstrView::Store(_) => Ok(ValueView::Null),
        InstrView::Drop => Ok(ValueView::Null),
    }
}

/// One step of a machine that has code left. `Store` binds its variable to
/// the topmost value and takes that value off; `Drop` takes it off; every
/// other instruction is completed with its value, if it comes to one, and
/// stops the machine if not.
pub open spec fn step(m: MachineView) -> Step {
    match m.code[0] {
        InstrView::Store(name) => Step::Go(
            MachineView {
                code: m.code.skip(1),
                stack: m.stack.drop_last(),
                env: m.env.insert(name, m.stack.last()),
            },
        ),
        InstrView::Drop => Step::Go(
            MachineView { code: m.code.skip(1), stack: m.stack.drop_last(), env: m.env },
        ),
        _ => match head_outcome(m) {
            Ok(value) => Step::Go(complete(m, value)),
            Err(request) => Step::Stop(request),
        },
    }
}

/// Runs a machine until it stops: gives the state in which it stops and the
/// request with which it does. A machine without code has `Finished`; a
/// machine that fails stays at the instruction that failed.
pub open spec fn run(m: MachineView) -> (MachineView, RequestView)
    decreases m.code.len(),
{
    if m.code.len() == 0 {
        (m, RequestView::Finished)
    } else {
        match step(m) {
            Step::Go(next) => run(next),
            Step::Stop(request) => (m, request),
        }
    }
}

/// The value that a reply gives to the instruction that made a request:
/// the number for `Convert` and `Compute`, null for `Write`. A reply of
/// the wrong kind, and any reply to `Finished` or `Failed`, gives none.
pub open spec fn answer(request: RequestView, reply: Reply) -> Option<ValueView> {
    match (request, reply) {
        (RequestView::Convert(_), Reply::Number(bits)) => Some(ValueView::Number(bits)),
        (RequestView::Compute { .. }, Reply::Number(bits)) => Some(ValueView::Number(bits)),
        (RequestView::Write(_), Reply::Written) => Some(ValueView::Null),
        _ => None,
    }
}

/// Hands a reply to a stopped machine: the instruction at which it stopped
/// is completed with the value that the reply gives it. Where the reply
/// gives none, nothing changes.
pub open spec fn deliver(m: MachineView, reply: Reply) -> MachineView {
    if m.code.len() == 0 {
        m
    } else {
        match step(m) {
            Step::Go(_) => m,
            Step::Stop(request) => match answer(request, reply) {
                Some(value) => complete(m, value),
                None => m,
            },
        }
    }
}

/// The state that the parts of an evaluator make up.
spec fn machine(
    code: Seq<Instr>,
    pc: usize,
    stack: Seq<Value>,
    env: Map<Seq<char>, ValueView>,
) -> MachineView {
    MachineView {
        code: instruction_views(code).skip(pc as int),
        stack: value_views(stack),
        env: env,
    }
}

/// Whether the parts of an evaluator fit together: the position is within
/// the code, and the code from there on never takes from the stack what is
/// not there.
spec fn fitting(code: Seq<Instr>, pc: usize, stack: Seq<Value>) -> bool {
    &&& pc <= code.len()
    &&& balanced(instruction_views(code).skip(pc as int), stack.len())
}

/// Completes the instruction at `pc` with `value`.
fn finish(code: &Vec<Instr>, pc: &mut usize, stack: &mut Vec<Value>, value: Value, Ghost(env): Ghost<
    Map<Seq<char>, ValueView>,
>)
    requires
        *old(pc) < code.len(),
        fitting(code@, *old(pc), old(stack)@),
        gives(code[*old(pc) as int]@) == 1,
    ensures
        fitting(code@, *final(pc), final(stack)@),
        *final(pc) == *old(pc) + 1,
        machine(code@, *final(pc), final(stack)@, env) == complete(
            machine(code@, *old(pc), old(stack)@, env),
            value@,
        ),
{
    let ghost before = machine(code@, *pc, stack@, env);
    let ghost views = instruction_views(code@);
    assert(before.code[0] == code[*pc as int]@);
    assert(before.code.skip(1) =~= views.skip(*pc + 1));
    let keep: usize = match &code[*pc] {
        Instr::Push(_) => stack.len(),
        Instr::Load(_) => stack.len(),
        Instr::Apply(_) => stack.len() - 2,
        Instr::Call { argc, .. } => stack.len() - *argc,
        Instr::Store(_) => stack.len() - 1,
        Instr::Drop => stack.len() - 1,
    };
    stack.truncate(keep);
    stack.push(value);
    *pc = *pc + 1;
    assert(value_views(stack@) =~= before.stack.take(before.stack.len() - takes(before.code[0])).push(
        value@,
    ));
}

/// Runs the code from `pc` on until the machine stops.
fn execute(code: &Vec<Instr>, pc: &mut usize, stack: &mut Vec<Value>, env: &mut Environment) -> (request:
    Request)
    requires
        fitting(code@, *old(pc), old(stack)@),
    ensures
        fitting(code@, *final(pc), final(stack)@),
        machine(code@, *final(pc), final(stack)@, final(env)@) == run(
            machine(code@, *old(pc), old(stack)@, old(env)@),
        ).0,
        request@ == run(machine(code@, *old(pc), old(stack)@, old(env)@)).1,
{
    let ghost start = machine(code@, *pc, stack@, env@);
    let ghost views = instruction_views(code@);
    loop
        invariant
            fitting(code@, *pc, stack@),
            views == instruction_views(code@),
            start == machine(code@, *old(pc), old(stack)@, old(env)@),
            run(machine(code@, *pc, stack@, env@)) == run(start),
        decreases code.len() - *pc,
    {
        let ghost m = machine(code@, *pc, stack@, env@);
        if *pc >= code.len() {
            assert(m.code.len() == 0);
            return Request::Finished;
        }
        assert(m.code[0] == code[*pc as int]@);
        assert(m.code.skip(1) =~= views.skip(*pc + 1));
        let n = stack.len();
        match &code[*pc] {
            Instr::Push(literal) => {
                match literal_to_value(literal) {
                    Ok(value) => {
                        finish(code, pc, stack, value, Ghost(env@));
                    },
                    Err(request) => {
                        return request;
                    },
                }
            },
            Instr::Load(name) => {
                match env.get(name.as_str()) {
                    Ok(value) => {
                        finish(code, pc, stack, value, Ghost(env@));
                    },
                    Err(error) => {
                        return Request::Failed(error);
                    },
                }
            },
            Instr::Apply(op) => {
                assert(m.stack[n - 2] == stack[n - 2]@);
                assert(m.stack[n - 1] == stack[n - 1]@);
                match evaluate_binary_op(&stack[n - 2], *op, &stack[n - 1]) {
                    Ok(value) => {
                        finish(code, pc, stack, value, Ghost(env@));
                    },
                    Err(request) => {
                        return request;
                    },
                }
            },
            Instr::Call { name, argc } => {
                let ghost whole = stack@;
                let mut args = stack.split_off(n - *argc);
                assert(value_views(args@) =~= top(m.stack, *argc as nat));
                match call_function(name, &args) {
                    Ok(value) => {
                        stack.append(&mut args);
                        assert(stack@ =~= whole);
                        finish(code, pc, stack, value, Ghost(env@));
                    },
                    Err(request) => {
                        stack.append(&mut args);
                        assert(stack@ =~= whole);
                        return request;
                    },
                }
            },
            Instr::Store(name) => {
                let value = stack.pop().unwrap();
                env.define(name.clone(), value);
                *pc = *pc + 1;
                assert(value_views(stack@) =~= m.stack.drop_last());
            },
            Instr::Drop => {
                stack.pop();
                *pc = *pc + 1;
                assert(value_views(stack@) =~= m.stack.drop_last());
            },
        }
    }
}

/// Hands `reply` to the instruction at `pc`.
fn accept(code: &Vec<Instr>, pc: &mut usize, stack: &mut Vec<Value>, reply: Reply, Ghost(env): Ghost<
    Map<Seq<char>, ValueView>,
>)
    requires
        fitting(code@, *old(pc), old(stack)@),
    ensures
        fitting(code@, *final(pc), final(stack)@),
        machine(code@, *final(pc), final(stack)@, env) == deliver(
            machine(code@, *old(pc), old(stack)@, env),
            reply,
        ),
{
    let ghost m = machine(code@, *pc, stack@, env);
    if *pc >= code.len() {
        assert(m.code.len() == 0);
        return ;
    }
    assert(m.code[0] == code[*pc as int]@);
    let n = stack.len();
    match (&code[*pc], reply) {
        (Instr::Push(Literal::Number(_)), Reply::Number(bits)) => {
            finish(code, pc, stack, Value::Number(bits), Ghost(env));
        },
        (Instr::Apply(op), Reply::Number(bits)) => {
            assert(m.stack[n - 2] == stack[n - 2]@);
            assert(m.stack[n - 1] == stack[n - 1]@);
            match evaluate_binary_op(&stack[n - 2], *op, &stack[n - 1]) {
                Err(Request::Compute { .. }) => {
                    finish(code, pc, stack, Value::Number(bits), Ghost(env));
                },
                _ => {},
            }
        },
        (Instr::Call { name, argc }, Reply::Written) => {
            if reads(name, "print") || reads(name, "println") {
                finish(code, pc, stack, Value::Null, Ghost(env));
            }
        },
        _ => {},
    }
}

/// The parts of an evaluator.
struct Machine {
    environment: Environment,
    code: Vec<Instr>,
    pc: usize,
    stack: Vec<Value>,
}

impl Machine {
    /// A machine with an empty scope and no code.
    fn idle() -> (m: Machine)
        ensures
            m.code@.len() == 0,
            m.pc == 0,
            m.stack@.len() == 0,
            m.environment@ == Map::<Seq<char>, ValueView>::empty(),
    {
        Machine { environment: Environment::new(), code: Vec::new(), pc: 0, stack: Vec::new() }
    }
}

/// The evaluator. It keeps the scope of a run and, while a program is
/// running, the machine that runs it.
///
/// [`Interpreter::interpret`] starts a program and [`Interpreter::resume`]
/// carries it on; each runs until the program ends, fails, or needs the
/// host, and says which in its [`Request`].
pub struct Interpreter {
    machine: Machine,
}

impl View for Interpreter {
    type V = MachineView;

    closed spec fn view(&self) -> MachineView {
        machine(
            self.machine.code@,
            self.machine.pc,
            self.machine.stack@,
            self.machine.environment@,
        )
    }
}

impl Interpreter {
    #[verifier::type_invariant]
    spec fn well_formed(self) -> bool {
        fitting(self.machine.code@, self.machine.pc, self.machine.stack@)
    }

    /// An evaluator with an empty scope and no program.
    pub fn new() -> (interpreter: Interpreter)
        ensures
            interpreter@ == (MachineView {
                code: Seq::empty(),
                stack: Seq::empty(),
                env: Map::empty(),
            }),
    {
        let interpreter = Interpreter { machine: Machine::idle() };
        assert(interpreter@.code =~= Seq::<InstrView>::empty());
        assert(interpreter@.stack =~= Seq::<ValueView>::empty());
        interpreter
    }

    /// Starts `program` in the scope as it stands and runs it until it
    /// stops. A program that was running before is given up; the bindings
    /// that it made stay.
    pub fn interpret(&mut self, program: Program) -> (request: Request)
        ensures
            final(self)@ == run(
                MachineView {
                    code: program_code(program@),
                    stack: Seq::empty(),
                    env: old(self)@.env,
                },
            ).0,
            request@ == run(
                MachineView {
                    code: program_code(program@),
                    stack: Seq::empty(),
                    env: old(self)@.env,
                },
            ).1,
    {
        let mut m = Machine::idle();
        core::mem::swap(&mut self.machine, &mut m);
        m.code = compile_program(&program);
        m.pc = 0;
        m.stack = Vec::new();
        proof {
            lemma_program_balanced(program@);
            assert(instruction_views(m.code@).skip(0) =~= program_code(program@));
            assert(value_views(m.stack@) =~= Seq::<ValueView>::empty());
        }
        let request = execute(&m.code, &mut m.pc, &mut m.stack, &mut m.environment);
        self.machine = m;
        request
    }

    /// Hands `reply` to the program and runs it on until it stops again. A
    /// reply that the program is not waiting for changes nothing: the
    /// request that it stopped with is made again.
    pub fn resume(&mut self, reply: Reply) -> (request: Request)
        ensures
            final(self)@ == run(deliver(old(self)@, reply)).0,
            request@ == run(deliver(old(self)@, reply)).1,
    {
        proof {
            use_type_invariant(&*self);
        }
        let mut m = Machine::idle();
        core::mem::swap(&mut self.machine, &mut m);
        accept(&m.code, &mut m.pc, &mut m.stack, reply, Ghost(m.environment@));
        let request = execute(&m.code, &mut m.pc, &mut m.stack, &mut m.environment);
        self.machine = m;
        request
    }

    /// The variables and their values as they stand.
    pub fn get_variables(&self) -> (table: &StringHashMap<Value>)
        ensures
            bindings(table@) == self@.env,
    {
        self.machine.environment.variables()
    }
}

impl Default for Interpreter {
    fn default() -> (interpreter: Interpreter)
        ensures
            interpreter@ == (MachineView {
                code: Seq::empty(),
                stack: Seq::empty(),
                env: Map::empty(),
            }),
    {
        Interpreter::new()
    }
}

} // verus!
