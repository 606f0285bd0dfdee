//! The parser: tokens to a program tree, by recursive descent.
//!
//! The grammar is stated as functions on token sequences ([`program`],
//! [`statement`], [`expression`], ...), which give the tree or the error and
//! the tokens left over. [`Parser`] is proved to compute exactly those
//! functions on the tokens of its tokenizer.
//!
//! ```text
//! program        := statement* EOF
//! statement      := "var" identifier "=" expression ";"
//!                 | expression ";"
//! expression     := additive
//! additive       := multiplicative (("+" | "-") multiplicative)*
//! multiplicative := primary (("*" | "/") primary)*
//! primary        := literal
//!                 | identifier ("(" arguments ")")?
//!                 | "(" expression ")"
//! arguments      := (expression ("," expression)*)?
//! ```

use crate::lexer::{head, tail, Lexer, Literal, LiteralView, Token, TokenView};
use vstd::prelude::*;

verus! {

// ---------------------------------------------------------------------------
// The program tree
// ---------------------------------------------------------------------------

/// The four binary operators.
#[derive(Debug, Clone, Copy, PartialEq, Eq)]
pub enum BinaryOp {
    Add,
    Subtract,
    Multiply,
    Divide,
}

/// An expression. Children belong to their parent alone.
#[derive(Debug, PartialEq)]
pub enum Expression {
    Literal(Literal),
    Identifier(String),
    FunctionCall { name: String, args: Vec<Expression> },
    Binary { left: Box<Expression>, op: BinaryOp, right: Box<Expression> },
}

/// The mathematical content of an [`Expression`].
pub enum ExprView {
    Literal(LiteralView),
    Identifier(Seq<char>),
    FunctionCall { name: Seq<char>, args: Seq<ExprView> },
    Binary { left: Box<ExprView>, op: BinaryOp, right: Box<ExprView> },
}

/// The mathematical content of an expression, node by node.
pub open spec fn expression_view(e: Expression) -> ExprView
    decreases e,
{
    match e {
        Expression::Literal(literal) => ExprView::Literal(literal@),
        Expression::Identifier(name) => ExprView::Identifier(name@),
        Expression::FunctionCall { name, args } => ExprView::FunctionCall {
            name: name@,
            args: Seq::new(
                args.len() as nat,
                |i: int|
                    if 0 <= i < args.len() {
                        expression_view(args[i])
                    } else {
                        ExprView::Identifier(Seq::empty())
                    },
            ),
        },
        Expression::Binary { left, op, right } => ExprView::Binary {
            left: Box::new(expression_view(*left)),
            op: op,
            right: Box::new(expression_view(*right)),
        },
    }
}

impl View for Expression {
    type V = ExprView;

    open spec fn view(&self) -> ExprView {
        expression_view(*self)
    }
}

impl Clone for Expression {
    fn clone(&self) -> (r: Self)
        ensures
            r@ == self@,
        decreases self,
    {
        match self {
            Expression::Literal(literal) => Expression::Literal(literal.clone()),
            Expression::Identifier(name) => Expression::Identifier(name.clone()),
            Expression::FunctionCall { name, args } => {
                let mut copies: Vec<Expression> = Vec::new();
                let mut i: usize = 0;
                while i < args.len()
                    invariant
                        i <= args.len(),
                        copies.len() == i,
                        *self matches Expression::FunctionCall { args: a, .. } && a == args,
                        forall|j: int| 0 <= j < i ==> (#[trigger] copies[j])@ == args[j]@,
                    decreases args.len() - i,
                {
                    copies.push(args[i].clone());
                    i += 1;
                }
                let r = Expression::FunctionCall { name: name.clone(), args: copies };
                assert(r@->args =~= self@->args);
                r
            },
            Expression::Binary { left, op, right } => Expression::Binary {
                left: Box::new((**left).clone()),
                op: *op,
                right: Box::new((**right).clone()),
            },
        }
    }
}

/// A statement.
#[derive(Debug, PartialEq)]
pub enum Statement {
    VarDeclaration { name: String, value: Expression },
    Expression(Expression),
}

/// The mathematical content of a [`Statement`].
pub enum StmtView {
    VarDeclaration { name: Seq<char>, value: ExprView },
    Expression(ExprView),
}

impl View for Statement {
    type V = StmtView;

    open spec fn view(&self) -> StmtView {
        match self {
            Statement::VarDeclaration { name, value } => StmtView::VarDeclaration {
                name: name@,
                value: value@,
            },
            Statement::Expression(e) => StmtView::Expression(e@),
        }
    }
}

impl Clone for Statement {
    fn clone(&self) -> (r: Self)
        ensures
            r@ == self@,
    {
        match self {
            Statement::VarDeclaration { name, value } => Statement::VarDeclaration {
                name: name.clone(),
                value: value.clone(),
            },
            Statement::Expression(e) => Statement::Expression(e.clone()),
        }
    }
}

/// A program: its statements in order.
#[derive(Debug, PartialEq)]
pub struct Program {
    pub statements: Vec<Statement>,
}

/// The mathematical content of a list of statements.
pub open spec fn statement_views(list: Seq<Statement>) -> Seq<StmtView> {
    Seq::new(list.len(), |i: int| list[i]@)
}

impl View for Program {
    type V = Seq<StmtView>;

    open spec fn view(&self) -> Seq<StmtView> {
        statement_views(self.statements@)
    }
}

impl Clone for Program {
    fn clone(&self) -> (r: Self)
        ensures
            r@ == self@,
    {
        let mut copies: Vec<Statement> = Vec::new();
        let mut i: usize = 0;
        while i < self.statements.len()
            invariant
                i <= self.statements.len(),
                copies.len() == i,
                forall|j: int| 0 <= j < i ==> (#[trigger] copies[j])@ == self.statements[j]@,
            decreases self.statements.len() - i,
        {
            copies.push(self.statements[i].clone());
            i += 1;
        }
        let r = Program { statements: copies };
        assert(r@ =~= self@);
        r
    }
}

/// Why a token sequence is no program.
#[derive(Debug)]
pub enum ParseError {
    /// Another token was needed where `found` stands.
    UnexpectedToken { expected: String, found: Token },
    /// Reserved; no rule of the grammar reports it.
    UnexpectedEOF,
    /// Reserved; no rule of the grammar reports it.
    InvalidExpression,
}

/// The mathematical content of a [`ParseError`].
pub enum ParseErrorView {
    UnexpectedToken { expected: Seq<char>, found: TokenView },
    UnexpectedEOF,
    InvalidExpression,
}

impl View for ParseError {
    type V = ParseErrorView;

    open spec fn view(&self) -> ParseErrorView {
        match self {
            ParseError::UnexpectedToken { expected, found } => ParseErrorView::UnexpectedToken {
                expected: expected@,
                found: found@,
            },
            ParseError::UnexpectedEOF => ParseErrorView::UnexpectedEOF,
            ParseError::InvalidExpression => ParseErrorView::InvalidExpression,
        }
    }
}

// ---------------------------------------------------------------------------
// The grammar
// ---------------------------------------------------------------------------

/// Where and why a rule fails: the error, and the tokens that are left, the
/// token at which the rule failed first. Nothing is consumed behind the
/// point of failure.
pub struct Failure {
    pub error: ParseErrorView,
    pub left: Seq<TokenView>,
}

/// What a rule makes of a token sequence: the tree and the tokens behind it,
/// or the failure.
pub type Parsed<T> = Result<(T, Seq<TokenView>), Failure>;

/// The failure at a token sequence whose head is not what was `expected`.
pub open spec fn unexpected(expected: Seq<char>, tokens: Seq<TokenView>) -> Failure {
    Failure {
        error: ParseErrorView::UnexpectedToken { expected, found: head(tokens) },
        left: tokens,
    }
}

/// A failure that no token sequence leads to. It stands where a definition
/// has to give something for a case that cannot arise.
pub open spec fn no_failure() -> Failure {
    Failure { error: ParseErrorView::InvalidExpression, left: Seq::empty() }
}

/// Whether two tokens are of one kind, whatever text or value they carry:
/// any two identifiers are, and any two literals.
pub open spec fn same_kind(a: TokenView, b: TokenView) -> bool {
    match a {
        TokenView::Identifier(_) => b is Identifier,
        TokenView::Literal(_) => b is Literal,
        _ => a == b,
    }
}

/// The name under which a kind of token is reported when it is missing.
pub open spec fn kind_name(token: TokenView) -> Seq<char> {
    match token {
        TokenView::Var => "Var"@,
        TokenView::Equals => "Equals"@,
        TokenView::SemiColon => "SemiColon"@,
        TokenView::LeftParen => "LeftParen"@,
        TokenView::RightParen => "RightParen"@,
        TokenView::Comma => "Comma"@,
        TokenView::Add => "Add"@,
        TokenView::Subtract => "Subtract"@,
        TokenView::Multiply => "Multiply"@,
        TokenView::Divide => "Divide"@,
        TokenView::EOF => "EOF"@,
        TokenView::Identifier(_) => "Identifier"@,
        TokenView::Literal(_) => "Literal"@,
    }
}

/// Requires a token of the kind of `wanted` at the head: gives the tokens
/// behind it, or the failure that names the kind and the token found.
pub open spec fn expect(tokens: Seq<TokenView>, wanted: TokenView) -> Result<
    Seq<TokenView>,
    Failure,
> {
    if same_kind(head(tokens), wanted) {
        Ok(tail(tokens))
    } else {
        Err(unexpected(kind_name(wanted), tokens))
    }
}

/// `primary := literal | identifier ("(" arguments ")")? | "(" expression ")"`
///
/// Any other token is reported as found where an `expression` was expected.
pub open spec fn primary(tokens: Seq<TokenView>) -> Parsed<ExprView>
    decreases tokens.len(), 0nat,
{
    match head(tokens) {
        TokenView::Literal(literal) => Ok((ExprView::Literal(literal), tail(tokens))),
        TokenView::Identifier(name) => {
            if head(tail(tokens)) is LeftParen {
                call(name, tail(tokens))
            } else {
                Ok((ExprView::Identifier(name), tail(tokens)))
            }
        },
        TokenView::LeftParen => match expression(tail(tokens)) {
            Ok((e, rest)) => match expect(rest, TokenView::RightParen) {
                Ok(behind) => Ok((e, behind)),
                Err(error) => Err(error),
            },
            Err(error) => Err(error),
        },
        _ => Err(unexpected("expression"@, tokens)),
    }
}

/// The call of `name` whose opening parenthesis is at the head of `tokens`:
/// `"(" (expression ("," expression)*)? ")"`.
pub open spec fn call(name: Seq<char>, tokens: Seq<TokenView>) -> Parsed<ExprView>
    decreases tokens.len(), 7nat,
{
    match expect(tokens, TokenView::LeftParen) {
        Err(error) => Err(error),
        Ok(rest) => {
            if head(rest) is RightParen {
                Ok((ExprView::FunctionCall { name, args: Seq::empty() }, tail(rest)))
            } else if rest.len() < tokens.len() {
                arguments(name, Seq::empty(), rest)
            } else {
                Err(no_failure())
            }
        },
    }
}

/// The arguments of a call of `name` from the head of `tokens` on, `done`
/// being those already read: an expression, then either `,` and more
/// arguments, or `)`. Any other token behind an argument is reported as
/// found where `',' or ')'` was expected.
pub open spec fn arguments(name: Seq<char>, done: Seq<ExprView>, tokens: Seq<TokenView>) -> Parsed<
    ExprView,
>
    decreases tokens.len(), 6nat,
{
    match expression(tokens) {
        Err(error) => Err(error),
        Ok((argument, rest)) => {
            let args = done.push(argument);
            match head(rest) {
                TokenView::Comma => {
                    if rest.len() <= tokens.len() {
                        arguments(name, args, tail(rest))
                    } else {
                        Err(no_failure())
                    }
                },
                TokenView::RightParen => Ok((ExprView::FunctionCall { name, args }, tail(rest))),
                _ => Err(unexpected("',' or ')'"@, rest)),
            }
        },
    }
}

/// The operator of the multiplicative level that a token stands for.
pub open spec fn multiplicative_op(token: TokenView) -> Option<BinaryOp> {
    match token {
        TokenView::Multiply => Some(BinaryOp::Multiply),
        TokenView::Divide => Some(BinaryOp::Divide),
        _ => None,
    }
}

/// The operator of the additive level that a token stands for.
pub open spec fn additive_op(token: TokenView) -> Option<BinaryOp> {
    match token {
        TokenView::Add => Some(BinaryOp::Add),
        TokenView::Subtract => Some(BinaryOp::Subtract),
        _ => None,
    }
}

/// The node `left op right`.
pub open spec fn binary(left: ExprView, op: BinaryOp, right: ExprView) -> ExprView {
    ExprView::Binary { left: Box::new(left), op, right: Box::new(right) }
}

/// `(("*" | "/") primary)*` behind the operand `left`: each further operand
/// is joined to all that stands to its left.
pub open spec fn multiplicative_rest(left: ExprView, tokens: Seq<TokenView>) -> Parsed<ExprView>
    decreases tokens.len(), 1nat,
{
    match multiplicative_op(head(tokens)) {
        None => Ok((left, tokens)),
        Some(op) => match primary(tail(tokens)) {
            Err(error) => Err(error),
            Ok((right, rest)) => {
                if rest.len() < tokens.len() {
                    multiplicative_rest(binary(left, op, right), rest)
                } else {
                    Err(no_failure())
                }
            },
        },
    }
}

/// `multiplicative := primary (("*" | "/") primary)*`, left-associative.
pub open spec fn multiplicative(tokens: Seq<TokenView>) -> Parsed<ExprView>
    decreases tokens.len(), 2nat,
{
    match primary(tokens) {
        Err(error) => Err(error),
        Ok((left, rest)) => {
            if rest.len() <= tokens.len() {
                multiplicative_rest(left, rest)
            } else {
                Err(no_failure())
            }
        },
    }
}

/// `(("+" | "-") multiplicative)*` behind the operand `left`.
pub open spec fn additive_rest(left: ExprView, tokens: Seq<TokenView>) -> Parsed<ExprView>
    decreases tokens.len(), 3nat,
{
    match additive_op(head(tokens)) {
        None => Ok((left, tokens)),
        Some(op) => match multiplicative(tail(tokens)) {
            Err(error) => Err(error),
            Ok((right, rest)) => {
                if rest.len() < tokens.len() {
                    additive_rest(binary(left, op, right), rest)
                } else {
                    Err(no_failure())
                }
            },
        },
    }
}

/// `additive := multiplicative (("+" | "-") multiplicative)*`,
/// left-associative.
pub open spec fn additive(tokens: Seq<TokenView>) -> Parsed<ExprView>
    decreases tokens.len(), 4nat,
{
    match multiplicative(tokens) {
        Err(error) => Err(error),
        Ok((left, rest)) => {
            if rest.len() <= tokens.len() {
                additive_rest(left, rest)
            } else {
                Err(no_failure())
            }
        },
    }
}

/// `expression := additive`
///
/// The tests on lengths in this and the other rules only serve to show that
/// the definitions are well-founded; by [`lemma_expression_consumes`] and
/// its companions they always hold.
pub open spec fn expression(tokens: Seq<TokenView>) -> Parsed<ExprView>
    decreases tokens.len(), 5nat,
{
    additive(tokens)
}

/// `"var" identifier "=" expression ";"`, for `tokens` that begin with
/// `var`.
pub open spec fn declaration(tokens: Seq<TokenView>) -> Parsed<StmtView> {
    let behind_var = tail(tokens);
    match head(behind_var) {
        TokenView::Identifier(name) => match expect(tail(behind_var), TokenView::Equals) {
            Err(error) => Err(error),
            Ok(behind_equals) => match expression(behind_equals) {
                Err(error) => Err(error),
                Ok((value, rest)) => match expect(rest, TokenView::SemiColon) {
                    Err(error) => Err(error),
                    Ok(behind) => Ok((StmtView::VarDeclaration { name, value }, behind)),
                },
            },
        },
        _ => Err(unexpected("identifier"@, behind_var)),
    }
}

/// `statement := "var" identifier "=" expression ";" | expression ";"`
pub open spec fn statement(tokens: Seq<TokenView>) -> Parsed<StmtView> {
    if head(tokens) is Var {
        declaration(tokens)
    } else {
        match expression(tokens) {
            Err(error) => Err(error),
            Ok((e, rest)) => match expect(rest, TokenView::SemiColon) {
                Err(error) => Err(error),
                Ok(behind) => Ok((StmtView::Expression(e), behind)),
            },
        }
    }
}

/// `program := statement* EOF`: the statements of `tokens`, or the error of
/// the first statement that fails.
pub open spec fn program(tokens: Seq<TokenView>) -> Result<Seq<StmtView>, Failure>
    decreases tokens.len(),
{
    if tokens.len() == 0 {
        Ok(Seq::empty())
    } else {
        match statement(tokens) {
            Err(error) => Err(error),
            Ok((first, rest)) => {
                if rest.len() < tokens.len() {
                    match program(rest) {
                        Err(error) => Err(error),
                        Ok(others) => Ok(seq![first] + others),
                    }
                } else {
                    Err(no_failure())
                }
            },
        }
    }
}

/// A primary uses up at least one token.
pub proof fn lemma_primary_consumes(tokens: Seq<TokenView>)
    ensures
        primary(tokens) matches Ok((_, rest)) ==> rest.len() < tokens.len(),
    decreases tokens.len(), 0nat,
{
    match head(tokens) {
        TokenView::Identifier(name) => {
            if head(tail(tokens)) is LeftParen {
                lemma_call_consumes(name, tail(tokens));
            }
        },
        TokenView::LeftParen => {
            lemma_expression_consumes(tail(tokens));
        },
        _ => {},
    }
}

/// A call uses up at least one token.
pub proof fn lemma_call_consumes(name: Seq<char>, tokens: Seq<TokenView>)
    ensures
        call(name, tokens) matches Ok((_, rest)) ==> rest.len() < tokens.len(),
    decreases tokens.len(), 7nat,
{
    if head(tokens) is LeftParen {
        let rest = tail(tokens);
        if !(head(rest) is RightParen) {
            lemma_arguments_consume(name, Seq::empty(), rest);
        }
    }
}

/// An argument list uses up at least one token.
pub proof fn lemma_arguments_consume(
    name: Seq<char>,
    done: Seq<ExprView>,
    tokens: Seq<TokenView>,
)
    ensures
        arguments(name, done, tokens) matches Ok((_, rest)) ==> rest.len() < tokens.len(),
    decreases tokens.len(), 6nat,
{
    lemma_expression_consumes(tokens);
    match expression(tokens) {
        Err(_) => {},
        Ok((argument, rest)) => {
            if head(rest) is Comma {
                lemma_arguments_consume(name, done.push(argument), tail(rest));
            }
        },
    }
}

/// The tail of a multiplicative level never gives tokens back.
pub proof fn lemma_multiplicative_rest_consumes(left: ExprView, tokens: Seq<TokenView>)
    ensures
        multiplicative_rest(left, tokens) matches Ok((_, rest)) ==> rest.len() <= tokens.len(),
    decreases tokens.len(), 1nat,
{
    match multiplicative_op(head(tokens)) {
        None => {},
        Some(op) => {
            lemma_primary_consumes(tail(tokens));
            match primary(tail(tokens)) {
                Err(_) => {},
                Ok((right, rest)) => {
                    lemma_multiplicative_rest_consumes(binary(left, op, right), rest);
                },
            }
        },
    }
}

/// A multiplicative level uses up at least one token.
pub proof fn lemma_multiplicative_consumes(tokens: Seq<TokenView>)
    ensures
        multiplicative(tokens) matches Ok((_, rest)) ==> rest.len() < tokens.len(),
    decreases tokens.len(), 2nat,
{
    lemma_primary_consumes(tokens);
    match primary(tokens) {
        Err(_) => {},
        Ok((left, rest)) => {
            lemma_multiplicative_rest_consumes(left, rest);
        },
    }
}

/// The tail of an additive level never gives tokens back.
pub proof fn lemma_additive_rest_consumes(left: ExprView, tokens: Seq<TokenView>)
    ensures
        additive_rest(left, tokens) matches Ok((_, rest)) ==> rest.len() <= tokens.len(),
    decreases tokens.len(), 3nat,
{
    match additive_op(head(tokens)) {
        None => {},
        Some(op) => {
            lemma_multiplicative_consumes(tail(tokens));
            match multiplicative(tail(tokens)) {
                Err(_) => {},
                Ok((right, rest)) => {
                    lemma_additive_rest_consumes(binary(left, op, right), rest);
                },
            }
        },
    }
}

/// An expression uses up at least one token.
pub proof fn lemma_expression_consumes(tokens: Seq<TokenView>)
    ensures
        expression(tokens) matches Ok((_, rest)) ==> rest.len() < tokens.len(),
    decreases tokens.len(), 5nat,
{
    lemma_multiplicative_consumes(tokens);
    match multiplicative(tokens) {
        Err(_) => {},
        Ok((left, rest)) => {
            lemma_additive_rest_consumes(left, rest);
        },
    }
}

/// A statement uses up at least one token.
pub proof fn lemma_statement_consumes(tokens: Seq<TokenView>)
    ensures
        statement(tokens) matches Ok((_, rest)) ==> rest.len() < tokens.len(),
{
    if head(tokens) is Var {
        let behind_var = tail(tokens);
        if head(behind_var) is Identifier {
            if head(tail(behind_var)) is Equals {
                lemma_expression_consumes(tail(tail(behind_var)));
            }
        }
    } else {
        lemma_expression_consumes(tokens);
    }
}

/// Whether a token is an operand by itself: a literal or a name.
pub open spec fn is_operand(token: TokenView) -> bool {
    token is Literal || token is Identifier
}

/// The expression that an operand token stands for.
pub open spec fn operand(token: TokenView) -> ExprView {
    match token {
        TokenView::Literal(literal) => ExprView::Literal(literal),
        TokenView::Identifier(name) => ExprView::Identifier(name),
        _ => ExprView::Identifier(Seq::empty()),
    }
}

/// Whether a token can stand behind a chain of `*` and `/` without
/// belonging to it: it is none of `*`, `/` and `(`.
pub open spec fn ends_product(token: TokenView) -> bool {
    multiplicative_op(token) is None && !(token is LeftParen)
}

/// Whether a token can stand behind a chain of `+` and `-` without
/// belonging to it: it is no operator and not `(`.
pub open spec fn ends_sum(token: TokenView) -> bool {
    additive_op(token) is None && ends_product(token)
}

/// An operand that no `(` follows is a primary.
pub proof fn lemma_operand_is_primary(x: TokenView, behind: Seq<TokenView>)
    requires
        is_operand(x),
        !(head(behind) is LeftParen),
    ensures
        primary(seq![x] + behind) == Ok::<(ExprView, Seq<TokenView>), Failure>(
            (operand(x), behind),
        ),
{
    let tokens = seq![x] + behind;
    assert(tail(tokens) =~= behind);
}

/// In a chain of `*` and `/`, the next operand is joined to all that stands
/// to its left.
pub proof fn lemma_product_grows_leftwards(
    left: ExprView,
    o: TokenView,
    x: TokenView,
    behind: Seq<TokenView>,
)
    requires
        multiplicative_op(o) is Some,
        is_operand(x),
        !(head(behind) is LeftParen),
    ensures
        multiplicative_rest(left, seq![o, x] + behind) == multiplicative_rest(
            binary(left, multiplicative_op(o)->0, operand(x)),
            behind,
        ),
{
    let tokens = seq![o, x] + behind;
    assert(tail(tokens) =~= seq![x] + behind);
    lemma_operand_is_primary(x, behind);
}

/// A single operand is a product.
pub proof fn lemma_operand_is_product(x: TokenView, behind: Seq<TokenView>)
    requires
        is_operand(x),
        ends_product(head(behind)),
    ensures
        multiplicative(seq![x] + behind) == Ok::<(ExprView, Seq<TokenView>), Failure>(
            (operand(x), behind),
        ),
{
    lemma_operand_is_primary(x, behind);
}

/// In a chain of `+` and `-`, the next operand is joined to all that stands
/// to its left.
pub proof fn lemma_sum_grows_leftwards(
    left: ExprView,
    o: TokenView,
    x: TokenView,
    behind: Seq<TokenView>,
)
    requires
        additive_op(o) is Some,
        is_operand(x),
        ends_product(head(behind)),
    ensures
        additive_rest(left, seq![o, x] + behind) == additive_rest(
            binary(left, additive_op(o)->0, operand(x)),
            behind,
        ),
{
    let tokens = seq![o, x] + behind;
    assert(tail(tokens) =~= seq![x] + behind);
    lemma_operand_is_product(x, behind);
}

/// Left-associativity: `x o1 y o2 z` with two operators of the additive
/// level is `(x o1 y) o2 z`.
pub proof fn lemma_sums_associate_left(
    x: TokenView,
    o1: TokenView,
    y: TokenView,
    o2: TokenView,
    z: TokenView,
    behind: Seq<TokenView>,
)
    requires
        is_operand(x) && is_operand(y) && is_operand(z),
        additive_op(o1) is Some,
        additive_op(o2) is Some,
        ends_sum(head(behind)),
    ensures
        expression(seq![x, o1, y, o2, z] + behind) == Ok::<
            (ExprView, Seq<TokenView>),
            Failure,
        >(
            (
                binary(
                    binary(operand(x), additive_op(o1)->0, operand(y)),
                    additive_op(o2)->0,
                    operand(z),
                ),
                behind,
            ),
        ),
{
    let tokens = seq![x, o1, y, o2, z] + behind;
    let after_x = seq![o1, y] + (seq![o2, z] + behind);
    let after_y = seq![o2, z] + behind;
    assert(tokens =~= seq![x] + after_x);
    lemma_operand_is_product(x, after_x);
    lemma_sum_grows_leftwards(operand(x), o1, y, after_y);
    lemma_sum_grows_leftwards(
        binary(operand(x), additive_op(o1)->0, operand(y)),
        o2,
        z,
        behind,
    );
}

/// Left-associativity: `x o1 y o2 z` with two operators of the
/// multiplicative level is `(x o1 y) o2 z`.
pub proof fn lemma_products_associate_left(
    x: TokenView,
    o1: TokenView,
    y: TokenView,
    o2: TokenView,
    z: TokenView,
    behind: Seq<TokenView>,
)
    requires
        is_operand(x) && is_operand(y) && is_operand(z),
        multiplicative_op(o1) is Some,
        multiplicative_op(o2) is Some,
        ends_sum(head(behind)),
    ensures
        expression(seq![x, o1, y, o2, z] + behind) == Ok::<
            (ExprView, Seq<TokenView>),
            Failure,
        >(
            (
                binary(
                    binary(operand(x), multiplicative_op(o1)->0, operand(y)),
                    multiplicative_op(o2)->0,
                    operand(z),
                ),
                behind,
            ),
        ),
{
    let tokens = seq![x, o1, y, o2, z] + behind;
    let after_x = seq![o1, y] + (seq![o2, z] + behind);
    let after_y = seq![o2, z] + behind;
    assert(tokens =~= seq![x] + after_x);
    lemma_operand_is_primary(x, after_x);
    lemma_product_grows_leftwards(operand(x), o1, y, after_y);
    lemma_product_grows_leftwards(
        binary(operand(x), multiplicative_op(o1)->0, operand(y)),
        o2,
        z,
        behind,
    );
}

/// Precedence: in `x o1 y o2 z` with `o1` of the additive and `o2` of the
/// multiplicative level, `o2` binds tighter: the tree is `x o1 (y o2 z)`.
pub proof fn lemma_product_binds_tighter(
    x: TokenView,
    o1: TokenView,
    y: TokenView,
    o2: TokenView,
    z: TokenView,
    behind: Seq<TokenView>,
)
    requires
        is_operand(x) && is_operand(y) && is_operand(z),
        additive_op(o1) is Some,
        multiplicative_op(o2) is Some,
        ends_sum(head(behind)),
    ensures
        expression(seq![x, o1, y, o2, z] + behind) == Ok::<
            (ExprView, Seq<TokenView>),
            Failure,
        >(
            (
                binary(
                    operand(x),
                    additive_op(o1)->0,
                    binary(operand(y), multiplicative_op(o2)->0, operand(z)),
                ),
                behind,
            ),
        ),
{
    let tokens = seq![x, o1, y, o2, z] + behind;
    let after_x = seq![o1, y, o2, z] + behind;
    let from_y = seq![y] + (seq![o2, z] + behind);
    let after_y = seq![o2, z] + behind;
    assert(tokens =~= seq![x] + after_x);
    lemma_operand_is_product(x, after_x);
    assert(tail(after_x) =~= from_y);
    lemma_operand_is_primary(y, after_y);
    lemma_product_grows_leftwards(operand(y), o2, z, behind);
}

/// Parentheses override precedence: `( x o1 y ) o2 z` with `o1` of the
/// additive and `o2` of the multiplicative level is `(x o1 y) o2 z`.
pub proof fn lemma_parentheses_override(
    x: TokenView,
    o1: TokenView,
    y: TokenView,
    o2: TokenView,
    z: TokenView,
    behind: Seq<TokenView>,
)
    requires
        is_operand(x) && is_operand(y) && is_operand(z),
        additive_op(o1) is Some,
        multiplicative_op(o2) is Some,
        ends_sum(head(behind)),
    ensures
        expression(
            seq![TokenView::LeftParen, x, o1, y, TokenView::RightParen, o2, z] + behind,
        ) == Ok::<(ExprView, Seq<TokenView>), Failure>(
            (
                binary(
                    binary(operand(x), additive_op(o1)->0, operand(y)),
                    multiplicative_op(o2)->0,
                    operand(z),
                ),
                behind,
            ),
        ),
{
    let tokens = seq![TokenView::LeftParen, x, o1, y, TokenView::RightParen, o2, z] + behind;
    let after_group = seq![o2, z] + behind;
    let closing = seq![TokenView::RightParen] + after_group;
    let after_x = seq![o1, y] + closing;
    let inside = seq![x] + after_x;
    assert(tail(tokens) =~= inside);
    lemma_operand_is_product(x, after_x);
    lemma_sum_grows_leftwards(operand(x), o1, y, closing);
    let sum = binary(operand(x), additive_op(o1)->0, operand(y));
    assert(expression(inside) == Ok::<(ExprView, Seq<TokenView>), Failure>((sum, closing)));
    assert(tail(closing) =~= after_group);
    assert(primary(tokens) == Ok::<(ExprView, Seq<TokenView>), Failure>(
        (sum, after_group),
    ));
    lemma_product_grows_leftwards(sum, o2, z, behind);
}

// ---------------------------------------------------------------------------
// The parser
// ---------------------------------------------------------------------------

/// The mathematical content of a list of expressions.
pub open spec fn expression_views(list: Seq<Expression>) -> Seq<ExprView> {
    Seq::new(list.len(), |i: int| list[i]@)
}

/// Whether the outcome `r` of a parsing step, with `left_over` as the tokens
/// that the parser is left with, is what `rule` asks for.
pub open spec fn agrees<T: View>(
    r: Result<T, ParseError>,
    left_over: Seq<TokenView>,
    rule: Parsed<T::V>,
) -> bool {
    match rule {
        Ok((tree, rest)) => r matches Ok(t) && t@ == tree && left_over == rest,
        Err(failure) => r matches Err(e) && e@ == failure.error && left_over == failure.left,
    }
}

/// The name under which the kind of `token` is reported when it is missing.
fn kind_name_of(token: &Token) -> (name: String)
    ensures
        name@ == kind_name(token@),
{
    match token {
        Token::Var => "Var".to_owned(),
        Token::Equals => "Equals".to_owned(),
        Token::SemiColon => "SemiColon".to_owned(),
        Token::LeftParen => "LeftParen".to_owned(),
        Token::RightParen => "RightParen".to_owned(),
        Token::Comma => "Comma".to_owned(),
        Token::Add => "Add".to_owned(),
        Token::Subtract => "Subtract".to_owned(),
        Token::Multiply => "Multiply".to_owned(),
        Token::Divide => "Divide".to_owned(),
        Token::EOF => "EOF".to_owned(),
        Token::Identifier(_) => "Identifier".to_owned(),
        Token::Literal(_) => "Literal".to_owned(),
    }
}

/// Whether `token` is of the kind of `wanted`.
fn is_token(token: &Token, wanted: &Token) -> (r: bool)
    ensures
        r == same_kind(token@, wanted@),
{
    match (token, wanted) {
        (Token::Identifier(_), Token::Identifier(_)) => true,
        (Token::Literal(_), Token::Literal(_)) => true,
        (Token::Var, Token::Var) => true,
        (Token::Equals, Token::Equals) => true,
        (Token::SemiColon, Token::SemiColon) => true,
        (Token::LeftParen, Token::LeftParen) => true,
        (Token::RightParen, Token::RightParen) => true,
        (Token::Comma, Token::Comma) => true,
        (Token::Add, Token::Add) => true,
        (Token::Subtract, Token::Subtract) => true,
        (Token::Multiply, Token::Multiply) => true,
        (Token::Divide, Token::Divide) => true,
        (Token::EOF, Token::EOF) => true,
        _ => false,
    }
}

/// The operator of the multiplicative level that `token` stands for.
fn multiplicative_operator(token: &Token) -> (r: Option<BinaryOp>)
    ensures
        r == multiplicative_op(token@),
{
    match token {
        Token::Multiply => Some(BinaryOp::Multiply),
        Token::Divide => Some(BinaryOp::Divide),
        _ => None,
    }
}

/// The operator of the additive level that `token` stands for.
fn additive_operator(token: &Token) -> (r: Option<BinaryOp>)
    ensures
        r == additive_op(token@),
{
    match token {
        Token::Add => Some(BinaryOp::Add),
        Token::Subtract => Some(BinaryOp::Subtract),
        _ => None,
    }
}

/// A recursive-descent parser over the tokens of a [`Lexer`].
pub struct Parser {
    lexer: Lexer,
}

impl Parser {
    /// The tokens that are still to be parsed.
    pub closed spec fn tokens(&self) -> Seq<TokenView> {
        self.lexer.pending()
    }

    /// The token that the parser is at, without consuming it.
    pub fn current_token(&self) -> (token: &Token)
        ensures
            token@ == head(self.tokens()),
    {
        self.lexer.current_token()
    }

    /// A parser over the tokens of `lexer`.
    pub fn new(lexer: Lexer) -> (parser: Parser)
        ensures
            parser.tokens() == lexer.pending(),
    {
        Parser { lexer }
    }

    /// Parses all the tokens as a program. Gives the program, every token
    /// being consumed, or the error of the first statement that is none,
    /// the parser being left at the token at which that statement failed.
    pub fn parse(&mut self) -> (r: Result<Program, ParseError>)
        ensures
            match program(old(self).tokens()) {
                Ok(statements) => r matches Ok(p) && p@ == statements && final(self).tokens().len()
                    == 0,
                Err(failure) => r matches Err(e) && e@ == failure.error && final(self).tokens()
                    == failure.left,
            },
    {
        let ghost start = self.tokens();
        let mut statements: Vec<Statement> = Vec::new();
        loop
            invariant
                start == old(self).tokens(),
                program(start) == match program(self.tokens()) {
                    Ok(others) => Ok::<Seq<StmtView>, Failure>(
                        statement_views(statements@) + others,
                    ),
                    Err(error) => Err(error),
                },
            decreases self.tokens().len(),
        {
            let ghost here = self.tokens();
            let ghost done = statement_views(statements@);
            if is_token(self.lexer.current_token(), &Token::EOF) {
                assert(done + Seq::<StmtView>::empty() =~= done);
                return Ok(Program { statements });
            }
            proof {
                lemma_statement_consumes(here);
            }
            match self.parse_statement() {
                Ok(statement) => {
                    statements.push(statement);
                    proof {
                        let now = statement_views(statements@);
                        assert(now =~= done.push(statement@));
                        match program(self.tokens()) {
                            Ok(others) => {
                                assert(done + (seq![statement@] + others) =~= now + others);
                            },
                            Err(_) => {},
                        }
                    }
                },
                Err(error) => {
                    return Err(error);
                },
            }
        }
    }

    /// Parses one statement.
    pub fn parse_statement(&mut self) -> (r: Result<Statement, ParseError>)
        ensures
            agrees(r, final(self).tokens(), statement(old(self).tokens())),
    {
        if is_token(self.lexer.current_token(), &Token::Var) {
            self.parse_var_declaration()
        } else {
            let e = match self.parse_expression() {
                Ok(e) => e,
                Err(error) => {
                    return Err(error);
                },
            };
            match self.expect_token(Token::SemiColon) {
                Ok(()) => Ok(Statement::Expression(e)),
                Err(error) => Err(error),
            }
        }
    }

    /// Parses a declaration, the current token being `var`.
    pub fn parse_var_declaration(&mut self) -> (r: Result<Statement, ParseError>)
        ensures
            agrees(r, final(self).tokens(), declaration(old(self).tokens())),
    {
        self.lexer.advance();
        let name = match self.lexer.current_token() {
            Token::Identifier(name) => name.clone(),
            token => {
                return Err(
                    ParseError::UnexpectedToken {
                        expected: "identifier".to_owned(),
                        found: token.clone(),
                    },
                );
            },
        };
        self.lexer.advance();
        match self.expect_token(Token::Equals) {
            Ok(()) => {},
            Err(error) => {
                return Err(error);
            },
        }
        let value = match self.parse_expression() {
            Ok(e) => e,
            Err(error) => {
                return Err(error);
            },
        };
        match self.expect_token(Token::SemiColon) {
            Ok(()) => Ok(Statement::VarDeclaration { name, value }),
            Err(error) => Err(error),
        }
    }

    /// Parses an expression.
    pub fn parse_expression(&mut self) -> (r: Result<Expression, ParseError>)
        ensures
            agrees(r, final(self).tokens(), expression(old(self).tokens())),
        decreases old(self).tokens().len(), 5nat,
    {
        self.parse_additive()
    }

    /// Parses a chain of `+` and `-`, joining operands from the left.
    pub fn parse_additive(&mut self) -> (r: Result<Expression, ParseError>)
        ensures
            agrees(r, final(self).tokens(), additive(old(self).tokens())),
        decreases old(self).tokens().len(), 4nat,
    {
        let ghost start = self.tokens();
        let mut left = match self.parse_multiplicative() {
            Ok(e) => e,
            Err(error) => {
                return Err(error);
            },
        };
        proof {
            lemma_multiplicative_consumes(start);
        }
        loop
            invariant
                self.tokens().len() <= start.len(),
                start == old(self).tokens(),
                additive(start) == additive_rest(left@, self.tokens()),
            decreases self.tokens().len(),
        {
            let ghost here = self.tokens();
            let op = match additive_operator(self.lexer.current_token()) {
                Some(op) => op,
                None => {
                    return Ok(left);
                },
            };
            self.lexer.advance();
            proof {
                lemma_multiplicative_consumes(tail(here));
            }
            let right = match self.parse_multiplicative() {
                Ok(e) => e,
                Err(error) => {
                    return Err(error);
                },
            };
            left = Expression::Binary { left: Box::new(left), op, right: Box::new(right) };
        }
    }

    /// Parses a chain of `*` and `/`, joining operands from the left.
    pub fn parse_multiplicative(&mut self) -> (r: Result<Expression, ParseError>)
        ensures
            agrees(r, final(self).tokens(), multiplicative(old(self).tokens())),
        decreases old(self).tokens().len(), 2nat,
    {
        let ghost start = self.tokens();
        let mut left = match self.parse_primary() {
            Ok(e) => e,
            Err(error) => {
                return Err(error);
            },
        };
        proof {
            lemma_primary_consumes(start);
        }
        loop
            invariant
                self.tokens().len() <= start.len(),
                start == old(self).tokens(),
                multiplicative(start) == multiplicative_rest(left@, self.tokens()),
            decreases self.tokens().len(),
        {
            let ghost here = self.tokens();
            let op = match multiplicative_operator(self.lexer.current_token()) {
                Some(op) => op,
                None => {
                    return Ok(left);
                },
            };
            self.lexer.advance();
            proof {
                lemma_primary_consumes(tail(here));
            }
            let right = match self.parse_primary() {
                Ok(e) => e,
                Err(error) => {
                    return Err(error);
                },
            };
            left = Expression::Binary { left: Box::new(left), op, right: Box::new(right) };
        }
    }

    /// Parses a literal, a variable, a call or a parenthesized expression.
    pub fn parse_primary(&mut self) -> (r: Result<Expression, ParseError>)
        ensures
            agrees(r, final(self).tokens(), primary(old(self).tokens())),
        decreases old(self).tokens().len(), 0nat,
    {
        let token = self.lexer.current_token().clone();
        match token {
            Token::Literal(literal) => {
                self.lexer.advance();
                Ok(Expression::Literal(literal))
            },
            Token::Identifier(name) => {
                self.lexer.advance();
                if is_token(self.lexer.current_token(), &Token::LeftParen) {
                    self.parse_function_call(name)
                } else {
                    Ok(Expression::Identifier(name))
                }
            },
            Token::LeftParen => {
                self.lexer.advance();
                let e = match self.parse_expression() {
                    Ok(e) => e,
                    Err(error) => {
                        return Err(error);
                    },
                };
                match self.expect_token(Token::RightParen) {
                    Ok(()) => Ok(e),
                    Err(error) => Err(error),
                }
            },
            other => Err(
                ParseError::UnexpectedToken { expected: "expression".to_owned(), found: other },
            ),
        }
    }

    /// Parses the argument list of a call of `name`, the current token being
    /// its opening parenthesis.
    pub fn parse_function_call(&mut self, name: String) -> (r: Result<Expression, ParseError>)
        ensures
            agrees(r, final(self).tokens(), call(name@, old(self).tokens())),
        decreases old(self).tokens().len(), 7nat,
    {
        let ghost start = self.tokens();
        match self.expect_token(Token::LeftParen) {
            Ok(()) => {},
            Err(error) => {
                return Err(error);
            },
        }
        let mut args: Vec<Expression> = Vec::new();
        assert(expression_views(args@) =~= Seq::<ExprView>::empty());
        if is_token(self.lexer.current_token(), &Token::RightParen) {
            self.lexer.advance();
            let r = Expression::FunctionCall { name, args };
            assert(r@->args =~= Seq::<ExprView>::empty());
            return Ok(r);
        }
        loop
            invariant
                self.tokens().len() < start.len(),
                start == old(self).tokens(),
                call(name@, start) == arguments(name@, expression_views(args@), self.tokens()),
            decreases self.tokens().len(),
        {
            let ghost here = self.tokens();
            let ghost done = expression_views(args@);
            proof {
                lemma_expression_consumes(here);
            }
            let argument = match self.parse_expression() {
                Ok(e) => e,
                Err(error) => {
                    return Err(error);
                },
            };
            args.push(argument);
            assert(expression_views(args@) =~= done.push(argument@));
            if is_token(self.lexer.current_token(), &Token::Comma) {
                self.lexer.advance();
            } else if is_token(self.lexer.current_token(), &Token::RightParen) {
                self.lexer.advance();
                let r = Expression::FunctionCall { name, args };
                assert(r@->args =~= done.push(argument@));
                return Ok(r);
            } else {
                return Err(
                    ParseError::UnexpectedToken {
                        expected: "',' or ')'".to_owned(),
                        found: self.lexer.current_token().clone(),
                    },
                );
            }
        }
    }

    /// Consumes the current token if it is of the kind of `expected`,
    /// whatever text or value either carries. If it is not, the kind is
    /// reported as missing and the current token stays where it is.
    pub fn expect_token(&mut self, expected: Token) -> (r: Result<(), ParseError>)
        ensures
            match expect(old(self).tokens(), expected@) {
                Ok(rest) => r is Ok && final(self).tokens() == rest,
                Err(failure) => r matches Err(e) && e@ == failure.error && final(self).tokens()
                    == failure.left,
            },
    {
        if is_token(self.lexer.current_token(), &expected) {
            self.lexer.advance();
            Ok(())
        } else {
            Err(
                ParseError::UnexpectedToken {
                    expected: kind_name_of(&expected),
                    found: self.lexer.current_token().clone(),
                },
            )
        }
    }
}

} // verus!
