//! What a program means, and that the evaluator computes it.
//!
//! [`execute`] gives the meaning of a program by a walk over its tree, for a
//! host whose conversions and arithmetic are given as functions.
//! [`session`] is what such a host sees when it drives the evaluator with
//! [`Interpreter::interpret`](crate::interpreter::Interpreter::interpret)
//! and [`Interpreter::resume`](crate::interpreter::Interpreter::resume),
//! answering each request. [`theorem_session_is_execution`] shows that the
//! two are the same.

use crate::code::{arguments_code, expression_code, program_code, statement_code, InstrView};
use crate::interpreter::{
    answer, binary_outcome, call_outcome, complete, deliver, head_outcome, is_zero,
    literal_outcome, mismatch_message, name_of_type, operator_name, print_pieces,
    println_pieces, run, step, top, variable_outcome, MachineView, PieceView, Reply,
    RequestView, RuntimeErrorView, Step, ValueView,
};
use crate::parser::{BinaryOp, ExprView, StmtView};
use vstd::prelude::*;

verus! {

/// The work of the host as functions: the bits of the double that a
/// numeral denotes, and the bits of the double that an operation on two
/// doubles gives.
pub struct Host {
    pub convert: spec_fn(Seq<char>) -> u64,
    pub compute: spec_fn(BinaryOp, u64, u64) -> u64,
}

/// The scope of a run.
pub type Scope = Map<Seq<char>, ValueView>;

/// What was written, one entry for each call of `print` or `println`.
pub type Output = Seq<Seq<PieceView>>;

/// What an evaluation comes to: its output, and its value or error.
pub struct Effect<T> {
    pub written: Output,
    pub result: Result<T, RuntimeErrorView>,
}

/// What a run comes to: its output, the scope that it leaves, and whether
/// it came to its end.
pub struct Ran {
    pub written: Output,
    pub env: Scope,
    pub result: Result<(), RuntimeErrorView>,
}

/// The reply of the host to a request.
pub open spec fn host_reply(host: Host, request: RequestView) -> Reply {
    match request {
        RequestView::Convert(numeral) => Reply::Number((host.convert)(numeral)),
        RequestView::Compute { op, left, right } => Reply::Number((host.compute)(op, left, right)),
        _ => Reply::Written,
    }
}

/// What a request adds to the output.
pub open spec fn written_by(request: RequestView) -> Output {
    match request {
        RequestView::Write(pieces) => seq![pieces],
        _ => Seq::empty(),
    }
}

/// What an outcome on values comes to with the host's help: a value as it
/// is, a failure as its error, a request as the value that the host's
/// reply gives, with the output that the request makes.
pub open spec fn settle(outcome: Result<ValueView, RequestView>, host: Host) -> Effect<ValueView> {
    match outcome {
        Ok(value) => Effect { written: Seq::empty(), result: Ok(value) },
        Err(RequestView::Failed(error)) => Effect { written: Seq::empty(), result: Err(error) },
        Err(request) => Effect {
            written: written_by(request),
            result: Ok(
                match answer(request, host_reply(host, request)) {
                    Some(value) => value,
                    None => ValueView::Null,
                },
            ),
        },
    }
}

/// The meaning of an expression in a scope.
///
/// A literal and a variable come to what [`literal_outcome`] and
/// [`variable_outcome`] say. Of a binary operation the left operand is
/// evaluated first, then the right one, then the operator is applied by
/// [`binary_outcome`]. Of a call the arguments are evaluated from first to
/// last, then the function is called by [`call_outcome`]. The first error
/// ends the evaluation; what was written before it stays written.
pub open spec fn evaluate(e: ExprView, env: Scope, host: Host) -> Effect<ValueView>
    decreases e,
{
    match e {
        ExprView::Literal(literal) => settle(literal_outcome(literal), host),
        ExprView::Identifier(name) => settle(variable_outcome(env, name), host),
        ExprView::Binary { left, op, right } => {
            let l = evaluate(*left, env, host);
            match l.result {
                Err(error) => l,
                Ok(left_value) => {
                    let r = evaluate(*right, env, host);
                    match r.result {
                        Err(error) => Effect {
                            written: l.written + r.written,
                            result: Err(error),
                        },
                        Ok(right_value) => {
                            let s = settle(binary_outcome(left_value, op, right_value), host);
                            Effect {
                                written: l.written + r.written + s.written,
                                result: s.result,
                            }
                        },
                    }
                },
            }
        },
        ExprView::FunctionCall { name, args } => {
            let a = evaluate_all(args, env, host);
            match a.result {
                Err(error) => Effect { written: a.written, result: Err(error) },
                Ok(values) => {
                    let s = settle(call_outcome(name, values), host);
                    Effect { written: a.written + s.written, result: s.result }
                },
            }
        },
    }
}

/// The meaning of an argument list: the values of the arguments, first to
/// last, or the first error.
pub open spec fn evaluate_all(args: Seq<ExprView>, env: Scope, host: Host) -> Effect<
    Seq<ValueView>,
>
    decreases args,
{
    if args.len() == 0 {
        Effect { written: Seq::empty(), result: Ok(Seq::empty()) }
    } else {
        let first = evaluate(args[0], env, host);
        match first.result {
            Err(error) => Effect { written: first.written, result: Err(error) },
            Ok(value) => {
                let others = evaluate_all(args.skip(1), env, host);
                match others.result {
                    Err(error) => Effect {
                        written: first.written + others.written,
                        result: Err(error),
                    },
                    Ok(values) => Effect {
                        written: first.written + others.written,
                        result: Ok(seq![value] + values),
                    },
                }
            },
        }
    }
}

/// A run with `written` in front of its output.
pub open spec fn behind(written: Output, ran: Ran) -> Ran {
    Ran { written: written + ran.written, env: ran.env, result: ran.result }
}

/// The meaning of a program in a scope: the statements are carried out in
/// order. A declaration evaluates its initializer and binds the name to
/// the value, whether or not it was bound before; an expression statement
/// evaluates its expression and forgets the value. The first error ends
/// the run; the bindings made and the output written before it stay.
pub open spec fn execute(statements: Seq<StmtView>, env: Scope, host: Host) -> Ran
    decreases statements.len(),
{
    if statements.len() == 0 {
        Ran { written: Seq::empty(), env, result: Ok(()) }
    } else {
        match statements[0] {
            StmtView::VarDeclaration { name, value } => {
                let v = evaluate(value, env, host);
                match v.result {
                    Err(error) => Ran { written: v.written, env, result: Err(error) },
                    Ok(value) => behind(
                        v.written,
                        execute(statements.skip(1), env.insert(name, value), host),
                    ),
                }
            },
            StmtView::Expression(e) => {
                let v = evaluate(e, env, host);
                match v.result {
                    Err(error) => Ran { written: v.written, env, result: Err(error) },
                    Ok(_) => behind(v.written, execute(statements.skip(1), env, host)),
                }
            },
        }
    }
}

/// What a host sees that drives a machine to its end: it lets the machine
/// run, answers the request with which it stops by [`host_reply`], hands
/// the reply over by [`deliver`], and so on until the machine has
/// finished or failed.
pub open spec fn session(m: MachineView, host: Host) -> Ran
    decreases m.code.len(),
    via session_decreases
{
    let (stopped, request) = run(m);
    match request {
        RequestView::Finished => Ran { written: Seq::empty(), env: stopped.env, result: Ok(()) },
        RequestView::Failed(error) => Ran {
            written: Seq::empty(),
            env: stopped.env,
            result: Err(error),
        },
        _ => behind(
            written_by(request),
            session(deliver(stopped, host_reply(host, request)), host),
        ),
    }
}

#[via_fn]
proof fn session_decreases(m: MachineView, host: Host) {
    lemma_run_stops(m);
}

/// Where a machine stops: not in front of where it started; without code
/// exactly when it has finished; and otherwise at an instruction that
/// makes the request.
pub proof fn lemma_run_stops(m: MachineView)
    ensures
        run(m).0.code.len() <= m.code.len(),
        run(m).1 is Finished <==> run(m).0.code.len() == 0,
        run(m).0.code.len() > 0 ==> step(run(m).0) == Step::Stop(run(m).1),
    decreases m.code.len(),
{
    if m.code.len() > 0 {
        match step(m) {
            Step::Go(next) => {
                lemma_run_stops(next);
            },
            Step::Stop(request) => {},
        }
    }
}

/// Output in front of output in front of a run is the joined output in
/// front of the run.
pub proof fn lemma_behind_twice(first: Output, second: Output, ran: Ran)
    ensures
        behind(first, behind(second, ran)) == behind(first + second, ran),
        behind(Seq::empty(), ran) == ran,
{
    assert(first + (second + ran.written) =~= (first + second) + ran.written);
    assert(Seq::<Seq<PieceView>>::empty() + ran.written =~= ran.written);
}

/// A session goes through every step that the machine takes by itself.
pub proof fn lemma_session_moves(m: MachineView, host: Host)
    requires
        m.code.len() > 0,
        step(m) is Go,
    ensures
        session(m, host) == session(step(m)->Go_0, host),
{
}

/// A session at an instruction that comes to a value or to a request: the
/// host settles the outcome, and the session goes on behind the
/// instruction, or ends with its error.
pub proof fn lemma_session_settles(m: MachineView, host: Host)
    requires
        m.code.len() > 0,
        !(m.code[0] is Store),
        !(m.code[0] is Drop),
    ensures
        session(m, host) == ({
            let s = settle(head_outcome(m), host);
            match s.result {
                Ok(value) => behind(s.written, session(complete(m, value), host)),
                Err(error) => Ran { written: s.written, env: m.env, result: Err(error) },
            }
        }),
{
    match head_outcome(m) {
        Ok(value) => {
            lemma_session_moves(m, host);
            lemma_behind_twice(Seq::empty(), Seq::empty(), session(complete(m, value), host));
        },
        Err(request) => {
            assert(run(m) == (m, request));
        },
    }
}

/// The code of an expression, run in a session, comes to what the
/// expression means: with its value on the stack the session goes on
/// behind the code, and with its error the session ends.
pub proof fn lemma_expression_runs(
    e: ExprView,
    rest: Seq<InstrView>,
    stack: Seq<ValueView>,
    env: Scope,
    host: Host,
)
    ensures
        session(MachineView { code: expression_code(e) + rest, stack, env }, host) == ({
            let v = evaluate(e, env, host);
            match v.result {
                Ok(value) => behind(
                    v.written,
                    session(MachineView { code: rest, stack: stack.push(value), env }, host),
                ),
                Err(error) => Ran { written: v.written, env, result: Err(error) },
            }
        }),
    decreases e,
{
    let m = MachineView { code: expression_code(e) + rest, stack, env };
    match e {
        ExprView::Literal(literal) => {
            assert(m.code.skip(1) =~= rest);
            assert(m.code[0] == InstrView::Push(literal));
            lemma_session_settles(m, host);
            assert forall|value: ValueView| #[trigger]
                complete(m, value) == (MachineView { code: rest, stack: stack.push(value), env }) by {
                assert(stack.take(stack.len() as int) =~= stack);
            }
        },
        ExprView::Identifier(name) => {
            assert(m.code.skip(1) =~= rest);
            assert(m.code[0] == InstrView::Load(name));
            lemma_session_settles(m, host);
            assert forall|value: ValueView| #[trigger]
                complete(m, value) == (MachineView { code: rest, stack: stack.push(value), env }) by {
                assert(stack.take(stack.len() as int) =~= stack);
            }
        },
        ExprView::Binary { left, op, right } => {
            let apply = seq![InstrView::Apply(op)] + rest;
            let from_right = expression_code(*right) + apply;
            assert(m.code =~= expression_code(*left) + from_right);
            lemma_expression_runs(*left, from_right, stack, env, host);
            let l = evaluate(*left, env, host);
            if let Ok(left_value) = l.result {
                let with_left = stack.push(left_value);
                lemma_expression_runs(*right, apply, with_left, env, host);
                let r = evaluate(*right, env, host);
                let at_right = MachineView { code: from_right, stack: with_left, env };
                if let Ok(right_value) = r.result {
                    let with_both = with_left.push(right_value);
                    let at_apply = MachineView { code: apply, stack: with_both, env };
                    assert(at_apply.code.skip(1) =~= rest);
                    assert(at_apply.code[0] == InstrView::Apply(op));
                    lemma_session_settles(at_apply, host);
                    let s = settle(binary_outcome(left_value, op, right_value), host);
                    assert(head_outcome(at_apply) == binary_outcome(left_value, op, right_value));
                    assert forall|value: ValueView| #[trigger]
                        complete(at_apply, value) == (MachineView {
                            code: rest,
                            stack: stack.push(value),
                            env,
                        }) by {
                        assert(with_both.take(with_both.len() - 2) =~= stack);
                    }
                    match s.result {
                        Ok(value) => {
                            let end = session(
                                MachineView { code: rest, stack: stack.push(value), env },
                                host,
                            );
                            lemma_behind_twice(r.written, s.written, end);
                            lemma_behind_twice(l.written, r.written + s.written, end);
                            assert(l.written + (r.written + s.written) =~= l.written + r.written
                                + s.written);
                        },
                        Err(error) => {
                            assert(s.written =~= Seq::<Seq<PieceView>>::empty());
                            assert(l.written + r.written + s.written =~= l.written + r.written);
                            assert(r.written + s.written =~= r.written);
                        },
                    }
                }
            }
        },
        ExprView::FunctionCall { name, args } => {
            let call = seq![InstrView::Call { name, argc: args.len() }] + rest;
            assert(m.code =~= arguments_code(args) + call);
            lemma_arguments_run(args, call, stack, env, host);
            let a = evaluate_all(args, env, host);
            if let Ok(values) = a.result {
                let with_all = stack + values;
                let at_call = MachineView { code: call, stack: with_all, env };
                assert(at_call.code.skip(1) =~= rest);
                assert(at_call.code[0] == InstrView::Call { name, argc: args.len() });
                assert(top(with_all, args.len()) =~= values);
                lemma_session_settles(at_call, host);
                let s = settle(call_outcome(name, values), host);
                assert forall|value: ValueView| #[trigger]
                    complete(at_call, value) == (MachineView {
                        code: rest,
                        stack: stack.push(value),
                        env,
                    }) by {
                    assert(with_all.take(with_all.len() - args.len()) =~= stack);
                }
                match s.result {
                    Ok(value) => {
                        let end = session(
                            MachineView { code: rest, stack: stack.push(value), env },
                            host,
                        );
                        lemma_behind_twice(a.written, s.written, end);
                    },
                    Err(error) => {
                        assert(a.written + s.written =~= a.written);
                    },
                }
            }
        },
    }
}

/// The code of an argument list, run in a session, comes to what the list
/// means: with the values on the stack, the first lowest, the session goes
/// on behind the code, and with the first error the session ends.
pub proof fn lemma_arguments_run(
    args: Seq<ExprView>,
    rest: Seq<InstrView>,
    stack: Seq<ValueView>,
    env: Scope,
    host: Host,
)
    ensures
        evaluate_all(args, env, host).result matches Ok(values) ==> values.len() == args.len(),
        session(MachineView { code: arguments_code(args) + rest, stack, env }, host) == ({
            let a = evaluate_all(args, env, host);
            match a.result {
                Ok(values) => behind(
                    a.written,
                    session(MachineView { code: rest, stack: stack + values, env }, host),
                ),
                Err(error) => Ran { written: a.written, env, result: Err(error) },
            }
        }),
    decreases args,
{
    let m = MachineView { code: arguments_code(args) + rest, stack, env };
    if args.len() == 0 {
        assert(m.code =~= rest);
        assert(stack + Seq::<ValueView>::empty() =~= stack);
        lemma_behind_twice(Seq::empty(), Seq::empty(), session(m, host));
    } else {
        let others = args.skip(1);
        let from_others = arguments_code(others) + rest;
        assert(m.code =~= expression_code(args[0]) + from_others);
        lemma_expression_runs(args[0], from_others, stack, env, host);
        let first = evaluate(args[0], env, host);
        if let Ok(value) = first.result {
            lemma_arguments_run(others, rest, stack.push(value), env, host);
            let o = evaluate_all(others, env, host);
            if let Ok(values) = o.result {
                assert(stack.push(value) + values =~= stack + (seq![value] + values));
                let end = session(
                    MachineView { code: rest, stack: stack + (seq![value] + values), env },
                    host,
                );
                lemma_behind_twice(first.written, o.written, end);
            }
        }
    }
}

/// The evaluator computes what the program means. For every program,
/// scope and host: the session in which the host drives the machine over
/// the program's code gives the output, the scope and the result that
/// [`execute`] gives.
pub proof fn theorem_session_is_execution(statements: Seq<StmtView>, env: Scope, host: Host)
    ensures
        session(
            MachineView { code: program_code(statements), stack: Seq::empty(), env },
            host,
        ) == execute(statements, env, host),
    decreases statements.len(),
{
    let none = Seq::<ValueView>::empty();
    let m = MachineView { code: program_code(statements), stack: none, env };
    if statements.len() == 0 {
        assert(run(m) == (m, RequestView::Finished));
    } else {
        let others = program_code(statements.skip(1));
        match statements[0] {
            StmtView::VarDeclaration { name, value } => {
                let store = seq![InstrView::Store(name)] + others;
                assert(m.code =~= expression_code(value) + store);
                lemma_expression_runs(value, store, none, env, host);
                let v = evaluate(value, env, host);
                if let Ok(bound) = v.result {
                    let at_store = MachineView { code: store, stack: none.push(bound), env };
                    lemma_session_moves(at_store, host);
                    assert(store.skip(1) =~= others);
                    assert(none.push(bound).drop_last() =~= none);
                    theorem_session_is_execution(
                        statements.skip(1),
                        env.insert(name, bound),
                        host,
                    );
                }
            },
            StmtView::Expression(e) => {
                let forget = seq![InstrView::Drop] + others;
                assert(m.code =~= expression_code(e) + forget);
                lemma_expression_runs(e, forget, none, env, host);
                let v = evaluate(e, env, host);
                if let Ok(value) = v.result {
                    let at_drop = MachineView { code: forget, stack: none.push(value), env };
                    lemma_session_moves(at_drop, host);
                    assert(forget.skip(1) =~= others);
                    assert(none.push(value).drop_last() =~= none);
                    theorem_session_is_execution(statements.skip(1), env, host);
                }
            },
        }
    }
}

// ---------------------------------------------------------------------------
// Laws of the language
// ---------------------------------------------------------------------------

/// Last write wins: of two declarations of one name that both succeed, the
/// second decides what the name is bound to.
pub proof fn lemma_last_declaration_wins(
    name: Seq<char>,
    first: ExprView,
    second: ExprView,
    env: Scope,
    host: Host,
)
    requires
        evaluate(first, env, host).result is Ok,
        evaluate(
            second,
            env.insert(name, evaluate(first, env, host).result->Ok_0),
            host,
        ).result is Ok,
    ensures
        ({
            let between = env.insert(name, evaluate(first, env, host).result->Ok_0);
            let ran = execute(
                seq![
                    StmtView::VarDeclaration { name, value: first },
                    StmtView::VarDeclaration { name, value: second },
                ],
                env,
                host,
            );
            &&& ran.result is Ok
            &&& ran.env == env.insert(name, evaluate(second, between, host).result->Ok_0)
        }),
{
    let one = StmtView::VarDeclaration { name, value: first };
    let two = StmtView::VarDeclaration { name, value: second };
    let both = seq![one, two];
    let v1 = evaluate(first, env, host).result->Ok_0;
    let between = env.insert(name, v1);
    let v2 = evaluate(second, between, host).result->Ok_0;
    assert(both.skip(1) =~= seq![two]);
    assert(seq![two].skip(1) =~= Seq::<StmtView>::empty());
    assert(execute(Seq::<StmtView>::empty(), between.insert(name, v2), host).env
        == between.insert(name, v2));
    assert(execute(seq![two], between, host).env == between.insert(name, v2));
    assert(between.insert(name, v2) =~= env.insert(name, v2));
}

/// A division by a zero, positive or negative, fails with the type error
/// `Division by zero`, whatever the dividend.
pub proof fn lemma_division_by_zero_fails(dividend: u64, divisor: u64)
    requires
        is_zero(divisor),
    ensures
        binary_outcome(
            ValueView::Number(dividend),
            BinaryOp::Divide,
            ValueView::Number(divisor),
        ) == Err::<ValueView, RequestView>(
            RequestView::Failed(RuntimeErrorView::TypeError("Division by zero"@)),
        ),
{
}

/// The host is never asked to divide by a zero, and whatever it is asked
/// to compute is an operation on the two operands as they are.
pub proof fn lemma_no_division_by_zero_is_asked(left: ValueView, op: BinaryOp, right: ValueView)
    ensures
        binary_outcome(left, op, right) matches Err(RequestView::Compute { op: o, left: l, right: r })
            ==> o == op && left == ValueView::Number(l) && right == ValueView::Number(r) && !(op
            is Divide && is_zero(r)),
{
}

/// An operator applied to operands that it does not take fails with a type
/// error whose message ends with the names of both operand types. Every
/// pair of operands is such a pair, except two numbers, and two strings
/// under `Add`.
pub proof fn lemma_mismatch_names_both_types(left: ValueView, op: BinaryOp, right: ValueView)
    requires
        !(left is Number && right is Number),
        !(left is String && right is String && op is Add),
    ensures
        binary_outcome(left, op, right) == Err::<ValueView, RequestView>(
            RequestView::Failed(RuntimeErrorView::TypeError(mismatch_message(op, left, right))),
        ),
        mismatch_message(op, left, right).len() >= (name_of_type(left) + " and "@ + name_of_type(
            right,
        )).len(),
        mismatch_message(op, left, right).skip(
            mismatch_message(op, left, right).len() - (name_of_type(left) + " and "@
                + name_of_type(right)).len(),
        ) == name_of_type(left) + " and "@ + name_of_type(right),
{
    let names = name_of_type(left) + " and "@ + name_of_type(right);
    let message = mismatch_message(op, left, right);
    let front = "Cannot apply "@ + operator_name(op) + " to "@;
    assert(message =~= front + names);
    assert(message.skip(message.len() - names.len()) =~= names);
}

/// Two strings under `Add` are joined, the left one first.
pub proof fn lemma_strings_concatenate(left: Seq<char>, right: Seq<char>)
    ensures
        binary_outcome(ValueView::String(left), BinaryOp::Add, ValueView::String(right)) == Ok::<
            ValueView,
            RequestView,
        >(ValueView::String(left + right)),
{
}

/// `typeof` of one value is the name of its type: `string` for a string,
/// `number` for a number, `boolean` for a boolean, `null` for null.
pub proof fn lemma_typeof_names_the_type(value: ValueView)
    ensures
        call_outcome("typeof"@, seq![value]) == Ok::<ValueView, RequestView>(
            ValueView::String(name_of_type(value)),
        ),
        value is String ==> name_of_type(value) == "string"@,
        value is Number ==> name_of_type(value) == "number"@,
        value is Boolean ==> name_of_type(value) == "boolean"@,
        value is Null ==> name_of_type(value) == "null"@,
{
    reveal_strlit("typeof");
    reveal_strlit("print");
    reveal_strlit("println");
    assert("typeof"@.len() != "print"@.len());
    assert("typeof"@.len() != "println"@.len());
}

/// `typeof` of no argument, or of more than one, fails with the arity
/// mismatch that names `typeof`, the one argument expected and the number
/// found.
pub proof fn lemma_typeof_wants_one_argument(args: Seq<ValueView>)
    requires
        args.len() != 1,
    ensures
        call_outcome("typeof"@, args) == Err::<ValueView, RequestView>(
            RequestView::Failed(
                RuntimeErrorView::ArityMismatch {
                    function: "typeof"@,
                    expected: 1,
                    found: args.len(),
                },
            ),
        ),
{
    reveal_strlit("typeof");
    reveal_strlit("print");
    reveal_strlit("println");
    assert("typeof"@.len() != "print"@.len());
    assert("typeof"@.len() != "println"@.len());
}

/// A name that is not bound fails as an undefined variable, and a call of
/// a name that is none of `print`, `println` and `typeof` fails as an
/// undefined function, whatever its arguments; each error carries the name.
pub proof fn lemma_undefined_names_fail(name: Seq<char>, env: Scope, args: Seq<ValueView>)
    ensures
        !env.contains_key(name) ==> variable_outcome(env, name) == Err::<ValueView, RequestView>(
            RequestView::Failed(RuntimeErrorView::UndefinedVariable(name)),
        ),
        name != "print"@ && name != "println"@ && name != "typeof"@ ==> call_outcome(name, args)
            == Err::<ValueView, RequestView>(
            RequestView::Failed(RuntimeErrorView::UndefinedFunction(name)),
        ),
{
}

/// A name evaluates to what it is bound to at that moment, and fails if
/// it is not bound: there is no reference forwards. Neither writes
/// anything.
pub proof fn lemma_names_resolve_in_the_scope(name: Seq<char>, env: Scope, host: Host)
    ensures
        evaluate(ExprView::Identifier(name), env, host) == (Effect {
            written: Seq::empty(),
            result: if env.contains_key(name) {
                Ok(env[name])
            } else {
                Err(RuntimeErrorView::UndefinedVariable(name))
            },
        }),
{
}

/// The expression of a statement.
pub open spec fn expression_of(statement: StmtView) -> ExprView {
    match statement {
        StmtView::VarDeclaration { value, .. } => value,
        StmtView::Expression(e) => e,
    }
}

/// The first error ends the run: when the expression of the first
/// statement fails, no later statement is carried out, the scope stays as
/// it was, and only what that expression wrote is written.
pub proof fn lemma_first_error_ends_the_run(statements: Seq<StmtView>, env: Scope, host: Host)
    requires
        statements.len() > 0,
        evaluate(expression_of(statements[0]), env, host).result is Err,
    ensures
        execute(statements, env, host) == (Ran {
            written: evaluate(expression_of(statements[0]), env, host).written,
            env,
            result: Err(evaluate(expression_of(statements[0]), env, host).result->Err_0),
        }),
{
}

/// `print` and `println` write the display of their arguments, `println`
/// with a line feed behind it, and give null.
pub proof fn lemma_print_writes_and_gives_null(args: Seq<ValueView>, host: Host)
    ensures
        settle(call_outcome("print"@, args), host) == (Effect {
            written: seq![print_pieces(args)],
            result: Ok(ValueView::Null),
        }),
        settle(call_outcome("println"@, args), host) == (Effect {
            written: seq![println_pieces(args)],
            result: Ok(ValueView::Null),
        }),
{
    reveal_strlit("print");
    reveal_strlit("println");
    assert("print"@.len() != "println"@.len());
}

} // verus!
