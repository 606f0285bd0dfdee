//! The postfix code that the evaluator runs.
//!
//! A program is lowered to a flat sequence of instructions for a machine
//! with a stack of values: operands come before their operator, arguments
//! before their call, an initializer before the declaration that binds it.
//! Running the code from left to right evaluates every expression in the
//! order of the tree walk: left operand before right, arguments from first
//! to last.

use crate::lexer::{Literal, LiteralView};
use crate::parser::{BinaryOp, ExprView, Expression, Program, Statement, StmtView};
use vstd::prelude::*;

verus! {

/// One instruction.
#[derive(Debug)]
pub enum Instr {
    /// Puts the value of a literal on the stack.
    Push(Literal),
    /// Puts the value of a variable on the stack.
    Load(String),
    /// Replaces the two topmost values by the result of the operator.
    Apply(BinaryOp),
    /// Replaces the `argc` topmost values by the result of the call.
    Call { name: String, argc: usize },
    /// Takes the topmost value and binds the variable to it.
    Store(String),
    /// Takes the topmost value and forgets it.
    Drop,
}

/// The mathematical content of an [`Instr`].
pub enum InstrView {
    Push(LiteralView),
    Load(Seq<char>),
    Apply(BinaryOp),
    Call { name: Seq<char>, argc: nat },
    Store(Seq<char>),
    Drop,
}

impl View for Instr {
    type V = InstrView;

    open spec fn view(&self) -> InstrView {
        match self {
            Instr::Push(literal) => InstrView::Push(literal@),
            Instr::Load(name) => InstrView::Load(name@),
            Instr::Apply(op) => InstrView::Apply(*op),
            Instr::Call { name, argc } => InstrView::Call { name: name@, argc: *argc as nat },
            Instr::Store(name) => InstrView::Store(name@),
            Instr::Drop => InstrView::Drop,
        }
    }
}

/// The mathematical content of a list of instructions.
pub open spec fn instruction_views(list: Seq<Instr>) -> Seq<InstrView> {
    Seq::new(list.len(), |i: int| list[i]@)
}

/// The code of an expression: it leaves the expression's value on top of
/// the stack.
pub open spec fn expression_code(e: ExprView) -> Seq<InstrView>
    decreases e,
{
    match e {
        ExprView::Literal(literal) => seq![InstrView::Push(literal)],
        ExprView::Identifier(name) => seq![InstrView::Load(name)],
        ExprView::FunctionCall { name, args } => arguments_code(args) + seq![
            InstrView::Call { name, argc: args.len() },
        ],
        ExprView::Binary { left, op, right } => expression_code(*left) + expression_code(*right)
            + seq![InstrView::Apply(op)],
    }
}

/// The code of an argument list: the code of each argument, first to last.
pub open spec fn arguments_code(args: Seq<ExprView>) -> Seq<InstrView>
    decreases args,
{
    if args.len() == 0 {
        Seq::empty()
    } else {
        expression_code(args[0]) + arguments_code(args.skip(1))
    }
}

/// The code of a statement: the code of its expression, then the
/// instruction that binds or forgets the value.
pub open spec fn statement_code(s: StmtView) -> Seq<InstrView> {
    match s {
        StmtView::VarDeclaration { name, value } => expression_code(value) + seq![
            InstrView::Store(name),
        ],
        StmtView::Expression(e) => expression_code(e) + seq![InstrView::Drop],
    }
}

/// The code of a program: the code of each statement, first to last.
pub open spec fn program_code(statements: Seq<StmtView>) -> Seq<InstrView>
    decreases statements.len(),
{
    if statements.len() == 0 {
        Seq::empty()
    } else {
        statement_code(statements[0]) + program_code(statements.skip(1))
    }
}

/// How many values an instruction takes from the stack.
pub open spec fn takes(instr: InstrView) -> nat {
    match instr {
        InstrView::Push(_) => 0,
        InstrView::Load(_) => 0,
        InstrView::Apply(_) => 2,
        InstrView::Call { argc, .. } => argc,
        InstrView::Store(_) => 1,
        InstrView::Drop => 1,
    }
}

/// How many values an instruction puts on the stack.
pub open spec fn gives(instr: InstrView) -> nat {
    match instr {
        InstrView::Store(_) => 0,
        InstrView::Drop => 0,
        _ => 1,
    }
}

/// Whether `code` can run on a stack of `depth` values without ever taking
/// a value that is not there.
pub open spec fn balanced(code: Seq<InstrView>, depth: nat) -> bool
    decreases code.len(),
{
    if code.len() == 0 {
        true
    } else {
        &&& takes(code[0]) <= depth
        &&& balanced(code.skip(1), (depth - takes(code[0]) + gives(code[0])) as nat)
    }
}

/// The code of an argument list grows at its end with the list.
pub proof fn lemma_arguments_push(args: Seq<ExprView>, last: ExprView)
    ensures
        arguments_code(args.push(last)) == arguments_code(args) + expression_code(last),
    decreases args.len(),
{
    let all = args.push(last);
    if args.len() == 0 {
        assert(all.skip(1) =~= args);
        assert(arguments_code(all) =~= arguments_code(args) + expression_code(last));
    } else {
        assert(all.skip(1) =~= args.skip(1).push(last));
        lemma_arguments_push(args.skip(1), last);
        assert(arguments_code(all) =~= arguments_code(args) + expression_code(last));
    }
}

/// The code of a program grows at its end with the program.
pub proof fn lemma_program_push(statements: Seq<StmtView>, last: StmtView)
    ensures
        program_code(statements.push(last)) == program_code(statements) + statement_code(last),
    decreases statements.len(),
{
    let all = statements.push(last);
    if statements.len() == 0 {
        assert(all.skip(1) =~= statements);
        assert(program_code(all) =~= program_code(statements) + statement_code(last));
    } else {
        assert(all.skip(1) =~= statements.skip(1).push(last));
        lemma_program_push(statements.skip(1), last);
        assert(program_code(all) =~= program_code(statements) + statement_code(last));
    }
}

/// The code of an expression takes nothing that it has not put there and
/// leaves one value more than it found.
pub proof fn lemma_expression_balanced(e: ExprView, rest: Seq<InstrView>, depth: nat)
    requires
        balanced(rest, depth + 1),
    ensures
        balanced(expression_code(e) + rest, depth),
    decreases e,
{
    match e {
        ExprView::Literal(literal) => {
            let code = expression_code(e) + rest;
            assert(code.skip(1) =~= rest);
        },
        ExprView::Identifier(name) => {
            let code = expression_code(e) + rest;
            assert(code.skip(1) =~= rest);
        },
        ExprView::FunctionCall { name, args } => {
            let call = seq![InstrView::Call { name, argc: args.len() }];
            assert((call + rest).skip(1) =~= rest);
            assert(balanced(call + rest, depth + args.len()));
            lemma_arguments_balanced(args, call + rest, depth);
            assert(expression_code(e) + rest =~= arguments_code(args) + (call + rest));
        },
        ExprView::Binary { left, op, right } => {
            let apply = seq![InstrView::Apply(op)];
            assert((apply + rest).skip(1) =~= rest);
            assert(balanced(apply + rest, depth + 2));
            lemma_expression_balanced(*right, apply + rest, depth + 1);
            lemma_expression_balanced(*left, expression_code(*right) + (apply + rest), depth);
            assert(expression_code(e) + rest =~= expression_code(*left) + (expression_code(*right)
                + (apply + rest)));
        },
    }
}

/// The code of an argument list leaves one value more for each argument.
pub proof fn lemma_arguments_balanced(args: Seq<ExprView>, rest: Seq<InstrView>, depth: nat)
    requires
        balanced(rest, depth + args.len()),
    ensures
        balanced(arguments_code(args) + rest, depth),
    decreases args,
{
    if args.len() == 0 {
        assert(arguments_code(args) + rest =~= rest);
    } else {
        let others = args.skip(1);
        lemma_arguments_balanced(others, rest, depth + 1);
        lemma_expression_balanced(args[0], arguments_code(others) + rest, depth);
        assert(arguments_code(args) + rest =~= expression_code(args[0]) + (arguments_code(others)
            + rest));
    }
}

/// The code of a program runs on the empty stack.
pub proof fn lemma_program_balanced(statements: Seq<StmtView>)
    ensures
        balanced(program_code(statements), 0),
    decreases statements.len(),
{
    if statements.len() > 0 {
        let others = program_code(statements.skip(1));
        lemma_program_balanced(statements.skip(1));
        match statements[0] {
            StmtView::VarDeclaration { name, value } => {
                let store = seq![InstrView::Store(name)];
                assert((store + others).skip(1) =~= others);
                lemma_expression_balanced(value, store + others, 0);
                assert(program_code(statements) =~= expression_code(value) + (store + others));
            },
            StmtView::Expression(e) => {
                let forget = seq![InstrView::Drop];
                assert((forget + others).skip(1) =~= others);
                lemma_expression_balanced(e, forget + others, 0);
                assert(program_code(statements) =~= expression_code(e) + (forget + others));
            },
        }
    }
}

/// Appends the code of `e` to `code`.
pub fn compile_expression(e: &Expression, code: &mut Vec<Instr>)
    ensures
        instruction_views(final(code)@) == instruction_views(old(code)@) + expression_code(e@),
    decreases e,
{
    let ghost start = instruction_views(code@);
    match e {
        Expression::Literal(literal) => {
            code.push(Instr::Push(literal.clone()));
            assert(instruction_views(code@) =~= start + expression_code(e@));
        },
        Expression::Identifier(name) => {
            code.push(Instr::Load(name.clone()));
            assert(instruction_views(code@) =~= start + expression_code(e@));
        },
        Expression::FunctionCall { name, args } => {
            let ghost views = e@->args;
            let mut i: usize = 0;
            assert(views.take(0) =~= Seq::<ExprView>::empty());
            assert(instruction_views(code@) =~= start + arguments_code(views.take(0)));
            while i < args.len()
                invariant
                    i <= args.len(),
                    *e matches Expression::FunctionCall { args: a, .. } && a == args,
                    views == e@->args,
                    views.len() == args.len(),
                    instruction_views(code@) == start + arguments_code(views.take(i as int)),
                decreases args.len() - i,
            {
                let ghost before = instruction_views(code@);
                compile_expression(&args[i], code);
                proof {
                    assert(views[i as int] == args[i as int]@);
                    lemma_arguments_push(views.take(i as int), views[i as int]);
                    assert(views.take(i + 1) =~= views.take(i as int).push(views[i as int]));
                    assert(instruction_views(code@) =~= start + arguments_code(views.take(i + 1)));
                }
                i += 1;
            }
            assert(views.take(i as int) =~= views);
            let ghost filled = instruction_views(code@);
            code.push(Instr::Call { name: name.clone(), argc: args.len() });
            assert(instruction_views(code@) =~= filled.push(
                InstrView::Call { name: name@, argc: args.len() as nat },
            ));
            assert(instruction_views(code@) =~= start + expression_code(e@));
        },
        Expression::Binary { left, op, right } => {
            compile_expression(left, code);
            compile_expression(right, code);
            let ghost filled = instruction_views(code@);
            code.push(Instr::Apply(*op));
            assert(instruction_views(code@) =~= filled.push(InstrView::Apply(*op)));
            assert(filled == start + expression_code(left@) + expression_code(right@));
            assert(instruction_views(code@) =~= start + expression_code(e@));
        },
    }
}

/// Appends the code of `s` to `code`.
pub fn compile_statement(s: &Statement, code: &mut Vec<Instr>)
    ensures
        instruction_views(final(code)@) == instruction_views(old(code)@) + statement_code(s@),
{
    let ghost start = instruction_views(code@);
    match s {
        Statement::VarDeclaration { name, value } => {
            compile_expression(value, code);
            let ghost filled = instruction_views(code@);
            code.push(Instr::Store(name.clone()));
            assert(instruction_views(code@) =~= filled.push(InstrView::Store(name@)));
            assert(instruction_views(code@) =~= start + statement_code(s@));
        },
        Statement::Expression(e) => {
            compile_expression(e, code);
            let ghost filled = instruction_views(code@);
            code.push(Instr::Drop);
            assert(instruction_views(code@) =~= filled.push(InstrView::Drop));
            assert(instruction_views(code@) =~= start + statement_code(s@));
        },
    }
}

/// The code of `program`.
pub fn compile_program(program: &Program) -> (code: Vec<Instr>)
    ensures
        instruction_views(code@) == program_code(program@),
{
    let ghost statements = program@;
    let mut code: Vec<Instr> = Vec::new();
    let mut i: usize = 0;
    assert(statements.take(0) =~= Seq::<StmtView>::empty());
    assert(instruction_views(code@) =~= program_code(statements.take(0)));
    while i < program.statements.len()
        invariant
            i <= program.statements.len(),
            statements == program@,
            instruction_views(code@) == program_code(statements.take(i as int)),
        decreases program.statements.len() - i,
    {
        compile_statement(&program.statements[i], &mut code);
        proof {
            assert(statements[i as int] == program.statements[i as int]@);
            lemma_program_push(statements.take(i as int), statements[i as int]);
            assert(statements.take(i + 1) =~= statements.take(i as int).push(statements[i as int]));
        }
        i += 1;
    }
    assert(statements.take(i as int) =~= statements);
    code
}

} // verus!
