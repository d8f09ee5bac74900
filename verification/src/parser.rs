//! Recursive-descent parsing: turns a token sequence into a `Program` AST.
//!
//! The grammar is a precedence ladder (logical, comparison, additive,
//! multiplicative, primary); each level builds left-associative binary
//! nodes. Function calls and assignments are detected by one token of
//! lookahead after an identifier in primary position. Parsing is fail-fast:
//! any grammar violation aborts the whole parse with a typed error and no
//! partial tree.
//!
//! The whole grammar is stated a second time as spec functions over token
//! views (`spec_parse_program` and its helpers); every executable parsing
//! function is proved to return exactly what the spec grammar assigns to
//! its input, errors included.

use vstd::prelude::*;

use crate::tokenizer::SpecToken;
use crate::tokenizer::Token;
use crate::tokenizer::toks_view;

verus! {

// ---------- The AST ----------

/// A name appearing in the source.
#[derive(Debug, PartialEq)]
pub struct Identifier {
    pub name: String,
}

/// A binary operator. Pure value: no behavior is attached at this layer.
#[derive(Debug, PartialEq)]
pub enum Operator {
    Add,
    Subtract,
    Multiply,
    Divide,
    Modulus,
    Exponent,
    GreaterThan,
    LessThan,
    GreaterThanOrEqual,
    LessThanOrEqual,
    Equality,
    NotEquals,
    And,
    Or,
}

/// A literal value. A float literal keeps its source text.
#[derive(Debug, PartialEq)]
pub enum Literal {
    Int(i64),
    Float(String),
    Str(String),
}

/// An expression node. Binary operands and assignment values are statement
/// nodes, as the grammar folds expressions into expression statements.
#[derive(Debug, PartialEq)]
pub enum Expression {
    Literal(Literal),
    Identifier(Identifier),
    UnaryExpression(Box<Expression>, Operator),
    BinaryExpression(Box<Statement>, Operator, Box<Statement>),
    FunctionCallExpression(Identifier, Vec<Statement>),
    AssignmentExpression(Identifier, Box<Statement>),
}

/// A statement node; block bodies are ordered statement sequences owned by
/// their parent.
#[derive(Debug, PartialEq)]
pub enum Statement {
    IfStatement { test: Box<Statement>, body: Vec<Statement> },
    FunctionDefinitionStatement { id: Identifier, params: Vec<Identifier>, body: Vec<Statement> },
    ExpressionStatement(Expression),
}

/// The parse root: the ordered top-level statements of one source text.
#[derive(Debug, PartialEq)]
pub struct Program {
    pub body: Vec<Statement>,
}

/// Why a parse failed. Parsing is fail-fast: the first violation aborts
/// the whole parse and carries the offending token.
#[derive(Debug, PartialEq)]
pub enum ParseError {
    /// A token stood where the grammar required another.
    UnexpectedToken(Token),
    /// `def` was not followed by a function name.
    MissingIdentifier(Token),
    /// The cursor ran past the end of the token sequence.
    UnexpectedEnd,
}

// ---------- Mathematical models of the AST ----------

pub enum SpecLiteral {
    Int(int),
    Float(Seq<char>),
    Str(Seq<char>),
}

pub enum SpecExpression {
    Literal(SpecLiteral),
    Identifier(Seq<char>),
    UnaryExpression(Box<SpecExpression>, Operator),
    BinaryExpression(Box<SpecStatement>, Operator, Box<SpecStatement>),
    FunctionCallExpression(Seq<char>, Seq<SpecStatement>),
    AssignmentExpression(Seq<char>, Box<SpecStatement>),
}

pub enum SpecStatement {
    IfStatement { test: Box<SpecStatement>, body: Seq<SpecStatement> },
    FunctionDefinitionStatement {
        id: Seq<char>,
        params: Seq<Seq<char>>,
        body: Seq<SpecStatement>,
    },
    ExpressionStatement(SpecExpression),
}

pub enum SpecParseError {
    UnexpectedToken(SpecToken),
    MissingIdentifier(SpecToken),
    UnexpectedEnd,
}

impl View for Literal {
    type V = SpecLiteral;

    open spec fn view(&self) -> SpecLiteral {
        match self {
            Literal::Int(v) => SpecLiteral::Int(*v as int),
            Literal::Float(t) => SpecLiteral::Float(t@),
            Literal::Str(t) => SpecLiteral::Str(t@),
        }
    }
}

impl View for ParseError {
    type V = SpecParseError;

    open spec fn view(&self) -> SpecParseError {
        match self {
            ParseError::UnexpectedToken(t) => SpecParseError::UnexpectedToken(t@),
            ParseError::MissingIdentifier(t) => SpecParseError::MissingIdentifier(t@),
            ParseError::UnexpectedEnd => SpecParseError::UnexpectedEnd,
        }
    }
}

/// The view of a statement tree.
pub open spec fn stmt_view(s: Statement) -> SpecStatement
    decreases s, 0int,
{
    match s {
        Statement::IfStatement { test, body } => SpecStatement::IfStatement {
            test: Box::new(stmt_view(*test)),
            body: stmts_view(body@),
        },
        Statement::FunctionDefinitionStatement { id, params, body } =>
            SpecStatement::FunctionDefinitionStatement {
            id: id.name@,
            params: idents_view(params@),
            body: stmts_view(body@),
        },
        Statement::ExpressionStatement(e) => SpecStatement::ExpressionStatement(expr_view(e)),
    }
}

/// The view of an expression node.
pub open spec fn expr_view(e: Expression) -> SpecExpression
    decreases e, 0int,
{
    match e {
        Expression::Literal(l) => SpecExpression::Literal(l@),
        Expression::Identifier(id) => SpecExpression::Identifier(id.name@),
        Expression::UnaryExpression(inner, op) => SpecExpression::UnaryExpression(
            Box::new(expr_view(*inner)),
            op,
        ),
        Expression::BinaryExpression(l, op, r) => SpecExpression::BinaryExpression(
            Box::new(stmt_view(*l)),
            op,
            Box::new(stmt_view(*r)),
        ),
        Expression::FunctionCallExpression(id, args) => SpecExpression::FunctionCallExpression(
            id.name@,
            stmts_view(args@),
        ),
        Expression::AssignmentExpression(id, v) => SpecExpression::AssignmentExpression(
            id.name@,
            Box::new(stmt_view(*v)),
        ),
    }
}

/// The view of a statement sequence, element by element.
pub open spec fn stmts_view(ss: Seq<Statement>) -> Seq<SpecStatement>
    decreases ss, 1int,
{
    if ss.len() == 0 {
        Seq::<SpecStatement>::empty()
    } else {
        stmts_view(ss.drop_last()).push(stmt_view(ss.last()))
    }
}

/// The view of a parameter list: each identifier becomes its name.
pub open spec fn idents_view(ids: Seq<Identifier>) -> Seq<Seq<char>>
    decreases ids,
{
    if ids.len() == 0 {
        Seq::<Seq<char>>::empty()
    } else {
        idents_view(ids.drop_last()).push(ids.last().name@)
    }
}

impl View for Program {
    type V = Seq<SpecStatement>;

    open spec fn view(&self) -> Seq<SpecStatement> {
        stmts_view(self.body@)
    }
}

pub broadcast proof fn lemma_stmts_view_push(ss: Seq<Statement>, s: Statement)
    ensures
        #[trigger] stmts_view(ss.push(s)) == stmts_view(ss).push(stmt_view(s)),
{
    assert(ss.push(s).drop_last() =~= ss);
    assert(ss.push(s).last() == s);
}

pub broadcast proof fn lemma_idents_view_push(ids: Seq<Identifier>, id: Identifier)
    ensures
        #[trigger] idents_view(ids.push(id)) == idents_view(ids).push(id.name@),
{
    assert(ids.push(id).drop_last() =~= ids);
    assert(ids.push(id).last() == id);
}

// ---------- The grammar, stated over token views ----------

/// Where parsing continues after a sub-parse that started at `i` and ended
/// at `p`. Every sub-parse ends inside `(i, n]`, which this bound keeps
/// explicit so that the descent visibly terminates.
pub open spec fn resume(i: int, p: int, n: int) -> int {
    if i < p <= n {
        p
    } else if i < n {
        i + 1
    } else {
        n
    }
}

/// primary: literal, identifier (with call/assignment lookahead),
/// parenthesized expression, or a nested block behind indentation.
pub open spec fn spec_parse_primary(ts: Seq<SpecToken>, i: int) -> Result<
    (SpecStatement, int),
    SpecParseError,
>
    decreases ts.len() - i, 0int,
{
    if i < 0 || i >= ts.len() {
        Err(SpecParseError::UnexpectedEnd)
    } else {
        match ts[i] {
            SpecToken::Identifier(v) => {
                if i + 1 >= ts.len() {
                    Err(SpecParseError::UnexpectedEnd)
                } else if ts[i + 1] == SpecToken::LParen {
                    match spec_parse_arguments(ts, i + 2) {
                        Ok((args, p)) => Ok(
                            (
                                SpecStatement::ExpressionStatement(
                                    SpecExpression::FunctionCallExpression(v, args),
                                ),
                                p,
                            ),
                        ),
                        Err(e) => Err(e),
                    }
                } else if ts[i + 1] == SpecToken::Equals {
                    match spec_parse_expression(ts, i + 2) {
                        Ok((val, p)) => Ok(
                            (
                                SpecStatement::ExpressionStatement(
                                    SpecExpression::AssignmentExpression(v, Box::new(val)),
                                ),
                                p,
                            ),
                        ),
                        Err(e) => Err(e),
                    }
                } else {
                    Ok((SpecStatement::ExpressionStatement(SpecExpression::Identifier(v)), i + 1))
                }
            },
            SpecToken::Integer(v) => Ok(
                (
                    SpecStatement::ExpressionStatement(
                        SpecExpression::Literal(SpecLiteral::Int(v)),
                    ),
                    i + 1,
                ),
            ),
            SpecToken::Float(t) => Ok(
                (
                    SpecStatement::ExpressionStatement(
                        SpecExpression::Literal(SpecLiteral::Float(t)),
                    ),
                    i + 1,
                ),
            ),
            SpecToken::StringLiteral(t) => Ok(
                (
                    SpecStatement::ExpressionStatement(
                        SpecExpression::Literal(SpecLiteral::Str(t)),
                    ),
                    i + 1,
                ),
            ),
            SpecToken::LParen => match spec_parse_expression(ts, i + 1) {
                Ok((val, p0)) => {
                    let p = resume(i + 1, p0, ts.len() as int);
                    if p >= ts.len() {
                        Err(SpecParseError::UnexpectedEnd)
                    } else if ts[p] == SpecToken::RParen {
                        Ok((val, p + 1))
                    } else {
                        Err(SpecParseError::UnexpectedToken(ts[p]))
                    }
                },
                Err(e) => Err(e),
            },
            SpecToken::Indent => spec_parse_block_statement(ts, i + 1),
            SpecToken::Newline => spec_parse_block_statement(ts, i + 1),
            _ => Err(SpecParseError::UnexpectedToken(ts[i])),
        }
    }
}

/// A comma-separated argument list after a call's `(`, ended by `)`.
pub open spec fn spec_parse_arguments(ts: Seq<SpecToken>, i: int) -> Result<
    (Seq<SpecStatement>, int),
    SpecParseError,
>
    decreases ts.len() - i, 13int,
{
    if i < 0 || i >= ts.len() {
        Err(SpecParseError::UnexpectedEnd)
    } else if ts[i] == SpecToken::RParen {
        Ok((Seq::<SpecStatement>::empty(), i + 1))
    } else {
        spec_parse_arguments_rest(ts, i, Seq::<SpecStatement>::empty())
    }
}

pub open spec fn spec_parse_arguments_rest(
    ts: Seq<SpecToken>,
    i: int,
    acc: Seq<SpecStatement>,
) -> Result<(Seq<SpecStatement>, int), SpecParseError>
    decreases ts.len() - i, 12int,
{
    if i < 0 || i >= ts.len() {
        Err(SpecParseError::UnexpectedEnd)
    } else {
        spec_parse_arguments_step(ts, i, acc)
    }
}

pub open spec fn spec_parse_arguments_step(
    ts: Seq<SpecToken>,
    i: int,
    acc: Seq<SpecStatement>,
) -> Result<(Seq<SpecStatement>, int), SpecParseError>
    decreases ts.len() - i, 11int,
{
    match spec_parse_expression(ts, i) {
        Err(e) => Err(e),
        Ok((arg, p0)) => {
            let p = resume(i, p0, ts.len() as int);
            let acc2 = acc.push(arg);
            if p >= ts.len() {
                Err(SpecParseError::UnexpectedEnd)
            } else {
                let p2 = if ts[p] == SpecToken::Comma {
                    p + 1
                } else {
                    p
                };
                if p2 >= ts.len() {
                    Err(SpecParseError::UnexpectedEnd)
                } else if ts[p2] == SpecToken::RParen {
                    Ok((acc2, p2 + 1))
                } else {
                    spec_parse_arguments_rest(ts, p2, acc2)
                }
            }
        },
    }
}

/// multiplicative: `primary ( (*|/|**) primary )*`, left-associative.
pub open spec fn spec_parse_multiplicative(ts: Seq<SpecToken>, i: int) -> Result<
    (SpecStatement, int),
    SpecParseError,
>
    decreases ts.len() - i, 2int,
{
    if i < 0 || i >= ts.len() {
        Err(SpecParseError::UnexpectedEnd)
    } else {
        match spec_parse_primary(ts, i) {
            Err(e) => Err(e),
            Ok((left, p0)) => spec_parse_multiplicative_rest(
                ts,
                resume(i, p0, ts.len() as int),
                left,
            ),
        }
    }
}

pub open spec fn spec_parse_multiplicative_rest(
    ts: Seq<SpecToken>,
    i: int,
    left: SpecStatement,
) -> Result<(SpecStatement, int), SpecParseError>
    decreases ts.len() - i, 1int,
{
    if i < 0 || i >= ts.len() {
        Err(SpecParseError::UnexpectedEnd)
    } else if ts[i] == SpecToken::Star || ts[i] == SpecToken::Slash || ts[i]
        == SpecToken::DoubleStar {
        let op = if ts[i] == SpecToken::Star {
            Operator::Multiply
        } else if ts[i] == SpecToken::Slash {
            Operator::Divide
        } else {
            Operator::Exponent
        };
        match spec_parse_primary(ts, i + 1) {
            Err(e) => Err(e),
            Ok((right, p0)) => spec_parse_multiplicative_rest(
                ts,
                resume(i + 1, p0, ts.len() as int),
                SpecStatement::ExpressionStatement(
                    SpecExpression::BinaryExpression(Box::new(left), op, Box::new(right)),
                ),
            ),
        }
    } else {
        Ok((left, i))
    }
}

/// additive: `multiplicative ( (+|-) multiplicative )*`, left-associative.
pub open spec fn spec_parse_additive(ts: Seq<SpecToken>, i: int) -> Result<
    (SpecStatement, int),
    SpecParseError,
>
    decreases ts.len() - i, 4int,
{
    if i < 0 || i >= ts.len() {
        Err(SpecParseError::UnexpectedEnd)
    } else {
        match spec_parse_multiplicative(ts, i) {
            Err(e) => Err(e),
            Ok((left, p0)) => spec_parse_additive_rest(ts, resume(i, p0, ts.len() as int), left),
        }
    }
}

pub open spec fn spec_parse_additive_rest(ts: Seq<SpecToken>, i: int, left: SpecStatement) -> Result<
    (SpecStatement, int),
    SpecParseError,
>
    decreases ts.len() - i, 3int,
{
    if i < 0 || i >= ts.len() {
        Err(SpecParseError::UnexpectedEnd)
    } else if ts[i] == SpecToken::Plus || ts[i] == SpecToken::Minus {
        let op = if ts[i] == SpecToken::Plus {
            Operator::Add
        } else {
            Operator::Subtract
        };
        match spec_parse_multiplicative(ts, i + 1) {
            Err(e) => Err(e),
            Ok((right, p0)) => spec_parse_additive_rest(
                ts,
                resume(i + 1, p0, ts.len() as int),
                SpecStatement::ExpressionStatement(
                    SpecExpression::BinaryExpression(Box::new(left), op, Box::new(right)),
                ),
            ),
        }
    } else {
        Ok((left, i))
    }
}

/// comparison: `additive ( (>|<|>=|<=) additive )*`, left-associative.
pub open spec fn spec_parse_comparison(ts: Seq<SpecToken>, i: int) -> Result<
    (SpecStatement, int),
    SpecParseError,
>
    decreases ts.len() - i, 6int,
{
    if i < 0 || i >= ts.len() {
        Err(SpecParseError::UnexpectedEnd)
    } else {
        match spec_parse_additive(ts, i) {
            Err(e) => Err(e),
            Ok((left, p0)) => spec_parse_comparison_rest(ts, resume(i, p0, ts.len() as int), left),
        }
    }
}

pub open spec fn spec_parse_comparison_rest(
    ts: Seq<SpecToken>,
    i: int,
    left: SpecStatement,
) -> Result<(SpecStatement, int), SpecParseError>
    decreases ts.len() - i, 5int,
{
    if i < 0 || i >= ts.len() {
        Err(SpecParseError::UnexpectedEnd)
    } else if ts[i] == SpecToken::GreaterThan || ts[i] == SpecToken::LessThan || ts[i]
        == SpecToken::GreaterThanOrEqual || ts[i] == SpecToken::LessThanOrEqual {
        let op = if ts[i] == SpecToken::GreaterThan {
            Operator::GreaterThan
        } else if ts[i] == SpecToken::LessThan {
            Operator::LessThan
        } else if ts[i] == SpecToken::GreaterThanOrEqual {
            Operator::GreaterThanOrEqual
        } else {
            Operator::LessThanOrEqual
        };
        match spec_parse_additive(ts, i + 1) {
            Err(e) => Err(e),
            Ok((right, p0)) => spec_parse_comparison_rest(
                ts,
                resume(i + 1, p0, ts.len() as int),
                SpecStatement::ExpressionStatement(
                    SpecExpression::BinaryExpression(Box::new(left), op, Box::new(right)),
                ),
            ),
        }
    } else {
        Ok((left, i))
    }
}

/// logical: `comparison ( (and|or|==|!=) comparison )*`, left-associative.
pub open spec fn spec_parse_logical(ts: Seq<SpecToken>, i: int) -> Result<
    (SpecStatement, int),
    SpecParseError,
>
    decreases ts.len() - i, 8int,
{
    if i < 0 || i >= ts.len() {
        Err(SpecParseError::UnexpectedEnd)
    } else {
        match spec_parse_comparison(ts, i) {
            Err(e) => Err(e),
            Ok((left, p0)) => spec_parse_logical_rest(ts, resume(i, p0, ts.len() as int), left),
        }
    }
}

pub open spec fn spec_parse_logical_rest(ts: Seq<SpecToken>, i: int, left: SpecStatement) -> Result<
    (SpecStatement, int),
    SpecParseError,
>
    decreases ts.len() - i, 7int,
{
    if i < 0 || i >= ts.len() {
        Err(SpecParseError::UnexpectedEnd)
    } else if ts[i] == SpecToken::And || ts[i] == SpecToken::Or || ts[i] == SpecToken::DoubleEquals
        || ts[i] == SpecToken::NotEquals {
        let op = if ts[i] == SpecToken::And {
            Operator::And
        } else if ts[i] == SpecToken::Or {
            Operator::Or
        } else if ts[i] == SpecToken::DoubleEquals {
            Operator::Equality
        } else {
            Operator::NotEquals
        };
        match spec_parse_comparison(ts, i + 1) {
            Err(e) => Err(e),
            Ok((right, p0)) => spec_parse_logical_rest(
                ts,
                resume(i + 1, p0, ts.len() as int),
                SpecStatement::ExpressionStatement(
                    SpecExpression::BinaryExpression(Box::new(left), op, Box::new(right)),
                ),
            ),
        }
    } else {
        Ok((left, i))
    }
}

/// expression: the top of the precedence ladder.
pub open spec fn spec_parse_expression(ts: Seq<SpecToken>, i: int) -> Result<
    (SpecStatement, int),
    SpecParseError,
>
    decreases ts.len() - i, 9int,
{
    spec_parse_logical(ts, i)
}

/// statement dispatch: `if`, `def`, or a bare expression statement.
pub open spec fn spec_parse_block_statement(ts: Seq<SpecToken>, i: int) -> Result<
    (SpecStatement, int),
    SpecParseError,
>
    decreases ts.len() - i, 10int,
{
    if i < 0 || i >= ts.len() {
        Err(SpecParseError::UnexpectedEnd)
    } else if ts[i] == SpecToken::IfKeyword {
        spec_parse_if_statement(ts, i)
    } else if ts[i] == SpecToken::DefKeyword {
        spec_parse_function_definition(ts, i)
    } else {
        spec_parse_expression(ts, i)
    }
}

/// `if` `(` expression `)` `:` block-body. The `(` is consumed without
/// being checked; `)` and `:` are required.
pub open spec fn spec_parse_if_statement(ts: Seq<SpecToken>, i: int) -> Result<
    (SpecStatement, int),
    SpecParseError,
>
    decreases ts.len() - i, 0int,
{
    if i < 0 || i >= ts.len() {
        Err(SpecParseError::UnexpectedEnd)
    } else if i + 1 >= ts.len() {
        Err(SpecParseError::UnexpectedEnd)
    } else {
        match spec_parse_expression(ts, i + 2) {
            Err(e) => Err(e),
            Ok((test, p0)) => {
                let p = resume(i + 2, p0, ts.len() as int);
                if p >= ts.len() {
                    Err(SpecParseError::UnexpectedEnd)
                } else if ts[p] != SpecToken::RParen {
                    Err(SpecParseError::UnexpectedToken(ts[p]))
                } else if p + 1 >= ts.len() {
                    Err(SpecParseError::UnexpectedEnd)
                } else if ts[p + 1] != SpecToken::Colon {
                    Err(SpecParseError::UnexpectedToken(ts[p + 1]))
                } else {
                    match spec_parse_block_body(ts, p + 2) {
                        Err(e) => Err(e),
                        Ok((body, p2)) => Ok(
                            (SpecStatement::IfStatement { test: Box::new(test), body }, p2),
                        ),
                    }
                }
            },
        }
    }
}

/// A block body after `:`: a `Newline` and an `Indent` are consumed
/// unconditionally, then statements accumulate until the matching dedent
/// or `EOF`.
pub open spec fn spec_parse_block_body(ts: Seq<SpecToken>, i: int) -> Result<
    (Seq<SpecStatement>, int),
    SpecParseError,
>
    decreases ts.len() - i, 0int,
{
    if i < 0 || i >= ts.len() {
        Err(SpecParseError::UnexpectedEnd)
    } else if i + 1 >= ts.len() {
        Err(SpecParseError::UnexpectedEnd)
    } else {
        spec_parse_block_rest(ts, i + 2, Seq::<SpecStatement>::empty())
    }
}

pub open spec fn spec_parse_block_rest(
    ts: Seq<SpecToken>,
    i: int,
    acc: Seq<SpecStatement>,
) -> Result<(Seq<SpecStatement>, int), SpecParseError>
    decreases ts.len() - i, 11int,
{
    if i < 0 || i >= ts.len() {
        Err(SpecParseError::UnexpectedEnd)
    } else if ts[i] == SpecToken::EOF {
        Ok((acc, i))
    } else if ts[i] == SpecToken::Newline {
        if i + 1 >= ts.len() {
            Err(SpecParseError::UnexpectedEnd)
        } else if ts[i + 1] == SpecToken::Dedent {
            match spec_skip_dedents(ts, i + 1) {
                Err(e) => Err(e),
                Ok(p) => Ok((acc, p)),
            }
        } else {
            spec_parse_block_rest(ts, i + 1, acc)
        }
    } else {
        match spec_parse_block_statement(ts, i) {
            Err(e) => Err(e),
            Ok((st, p0)) => spec_parse_block_rest(
                ts,
                resume(i, p0, ts.len() as int),
                acc.push(st),
            ),
        }
    }
}

/// Consumes the run of `Dedent` tokens closing a block.
pub open spec fn spec_skip_dedents(ts: Seq<SpecToken>, i: int) -> Result<int, SpecParseError>
    decreases ts.len() - i, 0int,
{
    if i < 0 || i >= ts.len() {
        Err(SpecParseError::UnexpectedEnd)
    } else if ts[i] == SpecToken::Dedent {
        spec_skip_dedents(ts, i + 1)
    } else {
        Ok(i)
    }
}

/// The parameter list of a function definition: identifiers separated by
/// commas, ended by `)`; any other token is fatal.
pub open spec fn spec_parse_parameters(ts: Seq<SpecToken>, i: int, acc: Seq<Seq<char>>) -> Result<
    (Seq<Seq<char>>, int),
    SpecParseError,
>
    decreases ts.len() - i, 0int,
{
    if i < 0 || i >= ts.len() {
        Err(SpecParseError::UnexpectedEnd)
    } else {
        match ts[i] {
            SpecToken::Identifier(v) => spec_parse_parameters(ts, i + 1, acc.push(v)),
            SpecToken::Comma => spec_parse_parameters(ts, i + 1, acc),
            SpecToken::RParen => Ok((acc, i + 1)),
            _ => Err(SpecParseError::UnexpectedToken(ts[i])),
        }
    }
}

/// `def` name `(` parameters `)` `:` block-body. The name is required; an
/// empty parameter list is detected by a `)` directly after the `(`.
pub open spec fn spec_parse_function_definition(ts: Seq<SpecToken>, i: int) -> Result<
    (SpecStatement, int),
    SpecParseError,
>
    decreases ts.len() - i, 0int,
{
    if i < 0 || i >= ts.len() {
        Err(SpecParseError::UnexpectedEnd)
    } else if i + 1 >= ts.len() {
        Err(SpecParseError::UnexpectedEnd)
    } else {
        match ts[i + 1] {
            SpecToken::Identifier(name) => {
                if i + 2 >= ts.len() {
                    Err(SpecParseError::UnexpectedEnd)
                } else if i + 3 >= ts.len() {
                    Err(SpecParseError::UnexpectedEnd)
                } else if ts[i + 3] == SpecToken::RParen {
                    if i + 4 >= ts.len() {
                        Err(SpecParseError::UnexpectedEnd)
                    } else {
                        match spec_parse_block_body(ts, i + 5) {
                            Err(e) => Err(e),
                            Ok((body, p2)) => Ok(
                                (
                                    SpecStatement::FunctionDefinitionStatement {
                                        id: name,
                                        params: Seq::<Seq<char>>::empty(),
                                        body,
                                    },
                                    p2,
                                ),
                            ),
                        }
                    }
                } else {
                    match spec_parse_parameters(ts, i + 3, Seq::<Seq<char>>::empty()) {
                        Err(e) => Err(e),
                        Ok((params, p0)) => {
                            let p = resume(i + 3, p0, ts.len() as int);
                            if p >= ts.len() {
                                Err(SpecParseError::UnexpectedEnd)
                            } else if ts[p] != SpecToken::Colon {
                                Err(SpecParseError::UnexpectedToken(ts[p]))
                            } else {
                                match spec_parse_block_body(ts, p + 1) {
                                    Err(e) => Err(e),
                                    Ok((body, p2)) => Ok(
                                        (
                                            SpecStatement::FunctionDefinitionStatement {
                                                id: name,
                                                params,
                                                body,
                                            },
                                            p2,
                                        ),
                                    ),
                                }
                            }
                        },
                    }
                }
            },
            _ => Err(SpecParseError::MissingIdentifier(ts[i + 1])),
        }
    }
}

/// Top-level statements until the `EOF` token, which stays unconsumed.
pub open spec fn spec_parse_program_rest(
    ts: Seq<SpecToken>,
    i: int,
    acc: Seq<SpecStatement>,
) -> Result<(Seq<SpecStatement>, int), SpecParseError>
    decreases ts.len() - i, 14int,
{
    if i < 0 || i >= ts.len() {
        Err(SpecParseError::UnexpectedEnd)
    } else if ts[i] == SpecToken::EOF {
        Ok((acc, i))
    } else {
        match spec_parse_block_statement(ts, i) {
            Err(e) => Err(e),
            Ok((st, p0)) => spec_parse_program_rest(
                ts,
                resume(i, p0, ts.len() as int),
                acc.push(st),
            ),
        }
    }
}

/// What parsing a whole token sequence yields, from its first token on:
/// the ordered top-level statements, or the first grammar violation.
pub open spec fn spec_parse_program(ts: Seq<SpecToken>, i: int) -> Result<
    (Seq<SpecStatement>, int),
    SpecParseError,
> {
    spec_parse_program_rest(ts, i, Seq::<SpecStatement>::empty())
}

// ---------- The executable parser ----------

/// An executable statement result equals a spec one when the node's view
/// and the end position agree, or both fail with the same error.
pub open spec fn stmt_res_matches(
    r: Result<(Statement, usize), ParseError>,
    s: Result<(SpecStatement, int), SpecParseError>,
) -> bool {
    match (r, s) {
        (Ok(rv), Ok(sv)) => stmt_view(rv.0) == sv.0 && rv.1 as int == sv.1,
        (Err(e), Err(se)) => e@ == se,
        _ => false,
    }
}

pub open spec fn list_res_matches(
    r: Result<(Vec<Statement>, usize), ParseError>,
    s: Result<(Seq<SpecStatement>, int), SpecParseError>,
) -> bool {
    match (r, s) {
        (Ok(rv), Ok(sv)) => stmts_view(rv.0@) == sv.0 && rv.1 as int == sv.1,
        (Err(e), Err(se)) => e@ == se,
        _ => false,
    }
}

pub open spec fn params_res_matches(
    r: Result<(Vec<Identifier>, usize), ParseError>,
    s: Result<(Seq<Seq<char>>, int), SpecParseError>,
) -> bool {
    match (r, s) {
        (Ok(rv), Ok(sv)) => idents_view(rv.0@) == sv.0 && rv.1 as int == sv.1,
        (Err(e), Err(se)) => e@ == se,
        _ => false,
    }
}

pub open spec fn pos_res_matches(r: Result<usize, ParseError>, s: Result<int, SpecParseError>) -> bool {
    match (r, s) {
        (Ok(p), Ok(sp)) => p as int == sp,
        (Err(e), Err(se)) => e@ == se,
        _ => false,
    }
}

#[verifier::rlimit(100)]
fn parse_primary(toks: &Vec<Token>, pos: usize) -> (r: Result<(Statement, usize), ParseError>)
    ensures
        stmt_res_matches(r, spec_parse_primary(toks_view(toks@), pos as int)),
        r matches Ok(v) ==> pos < v.1 && v.1 <= toks.len(),
    decreases toks@.len() - pos, 0int,
{
    let n = toks.len();
    if pos >= n {
        return Err(ParseError::UnexpectedEnd);
    }
    match &toks[pos] {
        Token::Identifier(v) => {
            if pos + 1 >= n {
                Err(ParseError::UnexpectedEnd)
            } else if matches!(&toks[pos + 1], Token::LParen) {
                match parse_function_arguments(toks, pos + 2) {
                    Ok((args, p)) => {
                        let ghost av = stmts_view(args@);
                        let e = Expression::FunctionCallExpression(
                            Identifier { name: v.clone() },
                            args,
                        );
                        let node = Statement::ExpressionStatement(e);
                        proof {
                            assert(expr_view(e) == SpecExpression::FunctionCallExpression(
                                v@,
                                av,
                            ));
                        }
                        Ok((node, p))
                    },
                    Err(e) => Err(e),
                }
            } else if matches!(&toks[pos + 1], Token::Equals) {
                match parse_expression(toks, pos + 2) {
                    Ok((val, p)) => {
                        let ghost vv = stmt_view(val);
                        let e = Expression::AssignmentExpression(
                            Identifier { name: v.clone() },
                            Box::new(val),
                        );
                        let node = Statement::ExpressionStatement(e);
                        proof {
                            assert(expr_view(e) == SpecExpression::AssignmentExpression(
                                v@,
                                Box::new(vv),
                            ));
                        }
                        Ok((node, p))
                    },
                    Err(e) => Err(e),
                }
            } else {
                let e = Expression::Identifier(Identifier { name: v.clone() });
                let node = Statement::ExpressionStatement(e);
                proof {
                    assert(expr_view(e) == SpecExpression::Identifier(v@));
                }
                Ok((node, pos + 1))
            }
        },
        Token::Integer(val) => {
            let l = Literal::Int(*val);
            let e = Expression::Literal(l);
            let node = Statement::ExpressionStatement(e);
            proof {
                assert(expr_view(e) == SpecExpression::Literal(SpecLiteral::Int(*val as int)));
            }
            Ok((node, pos + 1))
        },
        Token::Float(t) => {
            let l = Literal::Float(t.clone());
            let e = Expression::Literal(l);
            let node = Statement::ExpressionStatement(e);
            proof {
                assert(expr_view(e) == SpecExpression::Literal(SpecLiteral::Float(t@)));
            }
            Ok((node, pos + 1))
        },
        Token::StringLiteral(t) => {
            let l = Literal::Str(t.clone());
            let e = Expression::Literal(l);
            let node = Statement::ExpressionStatement(e);
            proof {
                assert(expr_view(e) == SpecExpression::Literal(SpecLiteral::Str(t@)));
            }
            Ok((node, pos + 1))
        },
        Token::LParen => match parse_expression(toks, pos + 1) {
            Ok((val, p)) => {
                if p >= n {
                    Err(ParseError::UnexpectedEnd)
                } else if matches!(&toks[p], Token::RParen) {
                    Ok((val, p + 1))
                } else {
                    Err(ParseError::UnexpectedToken(toks[p].duplicate()))
                }
            },
            Err(e) => Err(e),
        },
        Token::Indent => parse_block_statement(toks, pos + 1),
        Token::Newline => parse_block_statement(toks, pos + 1),
        _ => Err(ParseError::UnexpectedToken(toks[pos].duplicate())),
    }
}

fn parse_function_arguments(toks: &Vec<Token>, pos: usize) -> (r: Result<
    (Vec<Statement>, usize),
    ParseError,
>)
    ensures
        list_res_matches(r, spec_parse_arguments(toks_view(toks@), pos as int)),
        r matches Ok(v) ==> pos < v.1 && v.1 <= toks.len(),
    decreases toks@.len() - pos, 13int,
{
    let n = toks.len();
    if pos >= n {
        return Err(ParseError::UnexpectedEnd);
    }
    if matches!(&toks[pos], Token::RParen) {
        let empty: Vec<Statement> = Vec::new();
        return Ok((empty, pos + 1));
    }
    let empty: Vec<Statement> = Vec::new();
    parse_function_arguments_rest(toks, pos, empty)
}

fn parse_function_arguments_rest(toks: &Vec<Token>, pos: usize, acc: Vec<Statement>) -> (r: Result<
    (Vec<Statement>, usize),
    ParseError,
>)
    ensures
        list_res_matches(
            r,
            spec_parse_arguments_rest(toks_view(toks@), pos as int, stmts_view(acc@)),
        ),
        r matches Ok(v) ==> pos < v.1 && v.1 <= toks.len(),
    decreases toks@.len() - pos, 12int,
{
    broadcast use lemma_stmts_view_push;

    let n = toks.len();
    if pos >= n {
        return Err(ParseError::UnexpectedEnd);
    }
    match parse_expression(toks, pos) {
        Err(e) => Err(e),
        Ok((arg, p)) => {
            let mut acc2 = acc;
            acc2.push(arg);
            if p >= n {
                Err(ParseError::UnexpectedEnd)
            } else {
                let p2 = if matches!(&toks[p], Token::Comma) {
                    p + 1
                } else {
                    p
                };
                if p2 >= n {
                    Err(ParseError::UnexpectedEnd)
                } else if matches!(&toks[p2], Token::RParen) {
                    Ok((acc2, p2 + 1))
                } else {
                    parse_function_arguments_rest(toks, p2, acc2)
                }
            }
        },
    }
}

fn parse_multiplicative_expression(toks: &Vec<Token>, pos: usize) -> (r: Result<
    (Statement, usize),
    ParseError,
>)
    ensures
        stmt_res_matches(r, spec_parse_multiplicative(toks_view(toks@), pos as int)),
        r matches Ok(v) ==> pos < v.1 && v.1 <= toks.len(),
    decreases toks@.len() - pos, 2int,
{
    let n = toks.len();
    if pos >= n {
        return Err(ParseError::UnexpectedEnd);
    }
    match parse_primary(toks, pos) {
        Err(e) => Err(e),
        Ok((left, p)) => parse_multiplicative_rest(toks, p, left),
    }
}

fn parse_multiplicative_rest(toks: &Vec<Token>, pos: usize, left: Statement) -> (r: Result<
    (Statement, usize),
    ParseError,
>)
    ensures
        stmt_res_matches(
            r,
            spec_parse_multiplicative_rest(toks_view(toks@), pos as int, stmt_view(left)),
        ),
        r matches Ok(v) ==> pos <= v.1 && v.1 <= toks.len(),
    decreases toks@.len() - pos, 1int,
{
    let n = toks.len();
    if pos >= n {
        return Err(ParseError::UnexpectedEnd);
    }
    let is_star = matches!(&toks[pos], Token::Star);
    let is_slash = matches!(&toks[pos], Token::Slash);
    let is_dstar = matches!(&toks[pos], Token::DoubleStar);
    if is_star || is_slash || is_dstar {
        let op = if is_star {
            Operator::Multiply
        } else if is_slash {
            Operator::Divide
        } else {
            Operator::Exponent
        };
        match parse_primary(toks, pos + 1) {
            Err(e) => Err(e),
            Ok((right, p)) => {
                let ghost lv = stmt_view(left);
                let ghost rv = stmt_view(right);
                let ghost opv = op;
                let e = Expression::BinaryExpression(Box::new(left), op, Box::new(right));
                let node = Statement::ExpressionStatement(e);
                proof {
                    assert(expr_view(e) == SpecExpression::BinaryExpression(
                        Box::new(lv),
                        opv,
                        Box::new(rv),
                    ));
                }
                parse_multiplicative_rest(toks, p, node)
            },
        }
    } else {
        Ok((left, pos))
    }
}

fn parse_additive_expression(toks: &Vec<Token>, pos: usize) -> (r: Result<
    (Statement, usize),
    ParseError,
>)
    ensures
        stmt_res_matches(r, spec_parse_additive(toks_view(toks@), pos as int)),
        r matches Ok(v) ==> pos < v.1 && v.1 <= toks.len(),
    decreases toks@.len() - pos, 4int,
{
    let n = toks.len();
    if pos >= n {
        return Err(ParseError::UnexpectedEnd);
    }
    match parse_multiplicative_expression(toks, pos) {
        Err(e) => Err(e),
        Ok((left, p)) => parse_additive_rest(toks, p, left),
    }
}

fn parse_additive_rest(toks: &Vec<Token>, pos: usize, left: Statement) -> (r: Result<
    (Statement, usize),
    ParseError,
>)
    ensures
        stmt_res_matches(
            r,
            spec_parse_additive_rest(toks_view(toks@), pos as int, stmt_view(left)),
        ),
        r matches Ok(v) ==> pos <= v.1 && v.1 <= toks.len(),
    decreases toks@.len() - pos, 3int,
{
    let n = toks.len();
    if pos >= n {
        return Err(ParseError::UnexpectedEnd);
    }
    let is_plus = matches!(&toks[pos], Token::Plus);
    let is_minus = matches!(&toks[pos], Token::Minus);
    if is_plus || is_minus {
        let op = if is_plus {
            Operator::Add
        } else {
            Operator::Subtract
        };
        match parse_multiplicative_expression(toks, pos + 1) {
            Err(e) => Err(e),
            Ok((right, p)) => {
                let ghost lv = stmt_view(left);
                let ghost rv = stmt_view(right);
                let ghost opv = op;
                let e = Expression::BinaryExpression(Box::new(left), op, Box::new(right));
                let node = Statement::ExpressionStatement(e);
                proof {
                    assert(expr_view(e) == SpecExpression::BinaryExpression(
                        Box::new(lv),
                        opv,
                        Box::new(rv),
                    ));
                }
                parse_additive_rest(toks, p, node)
            },
        }
    } else {
        Ok((left, pos))
    }
}

fn parse_comparison_expression(toks: &Vec<Token>, pos: usize) -> (r: Result<
    (Statement, usize),
    ParseError,
>)
    ensures
        stmt_res_matches(r, spec_parse_comparison(toks_view(toks@), pos as int)),
        r matches Ok(v) ==> pos < v.1 && v.1 <= toks.len(),
    decreases toks@.len() - pos, 6int,
{
    let n = toks.len();
    if pos >= n {
        return Err(ParseError::UnexpectedEnd);
    }
    match parse_additive_expression(toks, pos) {
        Err(e) => Err(e),
        Ok((left, p)) => parse_comparison_rest(toks, p, left),
    }
}

fn parse_comparison_rest(toks: &Vec<Token>, pos: usize, left: Statement) -> (r: Result<
    (Statement, usize),
    ParseError,
>)
    ensures
        stmt_res_matches(
            r,
            spec_parse_comparison_rest(toks_view(toks@), pos as int, stmt_view(left)),
        ),
        r matches Ok(v) ==> pos <= v.1 && v.1 <= toks.len(),
    decreases toks@.len() - pos, 5int,
{
    let n = toks.len();
    if pos >= n {
        return Err(ParseError::UnexpectedEnd);
    }
    let is_gt = matches!(&toks[pos], Token::GreaterThan);
    let is_lt = matches!(&toks[pos], Token::LessThan);
    let is_ge = matches!(&toks[pos], Token::GreaterThanOrEqual);
    let is_le = matches!(&toks[pos], Token::LessThanOrEqual);
    if is_gt || is_lt || is_ge || is_le {
        let op = if is_gt {
            Operator::GreaterThan
        } else if is_lt {
            Operator::LessThan
        } else if is_ge {
            Operator::GreaterThanOrEqual
        } else {
            Operator::LessThanOrEqual
        };
        match parse_additive_expression(toks, pos + 1) {
            Err(e) => Err(e),
            Ok((right, p)) => {
                let ghost lv = stmt_view(left);
                let ghost rv = stmt_view(right);
                let ghost opv = op;
                let e = Expression::BinaryExpression(Box::new(left), op, Box::new(right));
                let node = Statement::ExpressionStatement(e);
                proof {
                    assert(expr_view(e) == SpecExpression::BinaryExpression(
                        Box::new(lv),
                        opv,
                        Box::new(rv),
                    ));
                }
                parse_comparison_rest(toks, p, node)
            },
        }
    } else {
        Ok((left, pos))
    }
}

fn parse_logical_expression(toks: &Vec<Token>, pos: usize) -> (r: Result<
    (Statement, usize),
    ParseError,
>)
    ensures
        stmt_res_matches(r, spec_parse_logical(toks_view(toks@), pos as int)),
        r matches Ok(v) ==> pos < v.1 && v.1 <= toks.len(),
    decreases toks@.len() - pos, 8int,
{
    let n = toks.len();
    if pos >= n {
        return Err(ParseError::UnexpectedEnd);
    }
    match parse_comparison_expression(toks, pos) {
        Err(e) => Err(e),
        Ok((left, p)) => parse_logical_rest(toks, p, left),
    }
}

fn parse_logical_rest(toks: &Vec<Token>, pos: usize, left: Statement) -> (r: Result<
    (Statement, usize),
    ParseError,
>)
    ensures
        stmt_res_matches(
            r,
            spec_parse_logical_rest(toks_view(toks@), pos as int, stmt_view(left)),
        ),
        r matches Ok(v) ==> pos <= v.1 && v.1 <= toks.len(),
    decreases toks@.len() - pos, 7int,
{
    let n = toks.len();
    if pos >= n {
        return Err(ParseError::UnexpectedEnd);
    }
    let is_and = matches!(&toks[pos], Token::And);
    let is_or = matches!(&toks[pos], Token::Or);
    let is_eq = matches!(&toks[pos], Token::DoubleEquals);
    let is_ne = matches!(&toks[pos], Token::NotEquals);
    if is_and || is_or || is_eq || is_ne {
        let op = if is_and {
            Operator::And
        } else if is_or {
            Operator::Or
        } else if is_eq {
            Operator::Equality
        } else {
            Operator::NotEquals
        };
        match parse_comparison_expression(toks, pos + 1) {
            Err(e) => Err(e),
            Ok((right, p)) => {
                let ghost lv = stmt_view(left);
                let ghost rv = stmt_view(right);
                let ghost opv = op;
                let e = Expression::BinaryExpression(Box::new(left), op, Box::new(right));
                let node = Statement::ExpressionStatement(e);
                proof {
                    assert(expr_view(e) == SpecExpression::BinaryExpression(
                        Box::new(lv),
                        opv,
                        Box::new(rv),
                    ));
                }
                parse_logical_rest(toks, p, node)
            },
        }
    } else {
        Ok((left, pos))
    }
}

fn parse_expression(toks: &Vec<Token>, pos: usize) -> (r: Result<(Statement, usize), ParseError>)
    ensures
        stmt_res_matches(r, spec_parse_expression(toks_view(toks@), pos as int)),
        r matches Ok(v) ==> pos < v.1 && v.1 <= toks.len(),
    decreases toks@.len() - pos, 9int,
{
    parse_logical_expression(toks, pos)
}

fn parse_block_statement(toks: &Vec<Token>, pos: usize) -> (r: Result<
    (Statement, usize),
    ParseError,
>)
    ensures
        stmt_res_matches(r, spec_parse_block_statement(toks_view(toks@), pos as int)),
        r matches Ok(v) ==> pos < v.1 && v.1 <= toks.len(),
    decreases toks@.len() - pos, 10int,
{
    let n = toks.len();
    if pos >= n {
        return Err(ParseError::UnexpectedEnd);
    }
    if matches!(&toks[pos], Token::IfKeyword) {
        parse_if_statement(toks, pos)
    } else if matches!(&toks[pos], Token::DefKeyword) {
        parse_function_definition_statement(toks, pos)
    } else {
        parse_expression(toks, pos)
    }
}

fn parse_if_statement(toks: &Vec<Token>, pos: usize) -> (r: Result<(Statement, usize), ParseError>)
    ensures
        stmt_res_matches(r, spec_parse_if_statement(toks_view(toks@), pos as int)),
        r matches Ok(v) ==> pos < v.1 && v.1 <= toks.len(),
    decreases toks@.len() - pos, 0int,
{
    let n = toks.len();
    if pos >= n {
        return Err(ParseError::UnexpectedEnd);
    }
    if pos + 1 >= n {
        return Err(ParseError::UnexpectedEnd);
    }
    match parse_expression(toks, pos + 2) {
        Err(e) => Err(e),
        Ok((test, p)) => {
            if p >= n {
                Err(ParseError::UnexpectedEnd)
            } else if !matches!(&toks[p], Token::RParen) {
                Err(ParseError::UnexpectedToken(toks[p].duplicate()))
            } else if p + 1 >= n {
                Err(ParseError::UnexpectedEnd)
            } else if !matches!(&toks[p + 1], Token::Colon) {
                Err(ParseError::UnexpectedToken(toks[p + 1].duplicate()))
            } else {
                match parse_block_statement_body(toks, p + 2) {
                    Err(e) => Err(e),
                    Ok((body, p2)) => Ok(
                        (Statement::IfStatement { test: Box::new(test), body }, p2),
                    ),
                }
            }
        },
    }
}

fn parse_block_statement_body(toks: &Vec<Token>, pos: usize) -> (r: Result<
    (Vec<Statement>, usize),
    ParseError,
>)
    ensures
        list_res_matches(r, spec_parse_block_body(toks_view(toks@), pos as int)),
        r matches Ok(v) ==> pos < v.1 && v.1 <= toks.len(),
    decreases toks@.len() - pos, 0int,
{
    let n = toks.len();
    if pos >= n {
        return Err(ParseError::UnexpectedEnd);
    }
    if pos + 1 >= n {
        return Err(ParseError::UnexpectedEnd);
    }
    let empty: Vec<Statement> = Vec::new();
    parse_block_rest(toks, pos + 2, empty)
}

fn parse_block_rest(toks: &Vec<Token>, pos: usize, acc: Vec<Statement>) -> (r: Result<
    (Vec<Statement>, usize),
    ParseError,
>)
    ensures
        list_res_matches(
            r,
            spec_parse_block_rest(toks_view(toks@), pos as int, stmts_view(acc@)),
        ),
        r matches Ok(v) ==> pos <= v.1 && v.1 <= toks.len(),
    decreases toks@.len() - pos, 11int,
{
    broadcast use lemma_stmts_view_push;

    let n = toks.len();
    if pos >= n {
        return Err(ParseError::UnexpectedEnd);
    }
    if matches!(&toks[pos], Token::EOF) {
        return Ok((acc, pos));
    }
    if matches!(&toks[pos], Token::Newline) {
        if pos + 1 >= n {
            return Err(ParseError::UnexpectedEnd);
        }
        if matches!(&toks[pos + 1], Token::Dedent) {
            match skip_dedents(toks, pos + 1) {
                Err(e) => Err(e),
                Ok(p) => Ok((acc, p)),
            }
        } else {
            parse_block_rest(toks, pos + 1, acc)
        }
    } else {
        match parse_block_statement(toks, pos) {
            Err(e) => Err(e),
            Ok((st, p)) => {
                let mut acc2 = acc;
                acc2.push(st);
                parse_block_rest(toks, p, acc2)
            },
        }
    }
}

fn skip_dedents(toks: &Vec<Token>, pos: usize) -> (r: Result<usize, ParseError>)
    ensures
        pos_res_matches(r, spec_skip_dedents(toks_view(toks@), pos as int)),
        r matches Ok(p) ==> pos <= p && p <= toks.len(),
    decreases toks@.len() - pos, 0int,
{
    let n = toks.len();
    if pos >= n {
        return Err(ParseError::UnexpectedEnd);
    }
    if matches!(&toks[pos], Token::Dedent) {
        skip_dedents(toks, pos + 1)
    } else {
        Ok(pos)
    }
}

fn parse_function_parameters(toks: &Vec<Token>, pos: usize, acc: Vec<Identifier>) -> (r: Result<
    (Vec<Identifier>, usize),
    ParseError,
>)
    ensures
        params_res_matches(
            r,
            spec_parse_parameters(toks_view(toks@), pos as int, idents_view(acc@)),
        ),
        r matches Ok(v) ==> pos < v.1 && v.1 <= toks.len(),
    decreases toks@.len() - pos, 0int,
{
    broadcast use lemma_idents_view_push;

    let n = toks.len();
    if pos >= n {
        return Err(ParseError::UnexpectedEnd);
    }
    match &toks[pos] {
        Token::Identifier(v) => {
            let mut acc2 = acc;
            acc2.push(Identifier { name: v.clone() });
            parse_function_parameters(toks, pos + 1, acc2)
        },
        Token::Comma => parse_function_parameters(toks, pos + 1, acc),
        Token::RParen => Ok((acc, pos + 1)),
        _ => Err(ParseError::UnexpectedToken(toks[pos].duplicate())),
    }
}

fn parse_function_definition_statement(toks: &Vec<Token>, pos: usize) -> (r: Result<
    (Statement, usize),
    ParseError,
>)
    ensures
        stmt_res_matches(r, spec_parse_function_definition(toks_view(toks@), pos as int)),
        r matches Ok(v) ==> pos < v.1 && v.1 <= toks.len(),
    decreases toks@.len() - pos, 0int,
{
    let n = toks.len();
    if pos >= n {
        return Err(ParseError::UnexpectedEnd);
    }
    if pos + 1 >= n {
        return Err(ParseError::UnexpectedEnd);
    }
    match &toks[pos + 1] {
        Token::Identifier(v) => {
            let name = Identifier { name: v.clone() };
            if pos + 2 >= n {
                Err(ParseError::UnexpectedEnd)
            } else if pos + 3 >= n {
                Err(ParseError::UnexpectedEnd)
            } else if matches!(&toks[pos + 3], Token::RParen) {
                if pos + 4 >= n {
                    Err(ParseError::UnexpectedEnd)
                } else {
                    match parse_block_statement_body(toks, pos + 5) {
                        Err(e) => Err(e),
                        Ok((body, p2)) => {
                            let params: Vec<Identifier> = Vec::new();
                            Ok(
                                (
                                    Statement::FunctionDefinitionStatement {
                                        id: name,
                                        params,
                                        body,
                                    },
                                    p2,
                                ),
                            )
                        },
                    }
                }
            } else {
                let empty: Vec<Identifier> = Vec::new();
                match parse_function_parameters(toks, pos + 3, empty) {
                    Err(e) => Err(e),
                    Ok((params, p)) => {
                        if p >= n {
                            Err(ParseError::UnexpectedEnd)
                        } else if !matches!(&toks[p], Token::Colon) {
                            Err(ParseError::UnexpectedToken(toks[p].duplicate()))
                        } else {
                            match parse_block_statement_body(toks, p + 1) {
                                Err(e) => Err(e),
                                Ok((body, p2)) => Ok(
                                    (
                                        Statement::FunctionDefinitionStatement {
                                            id: name,
                                            params,
                                            body,
                                        },
                                        p2,
                                    ),
                                ),
                            }
                        }
                    },
                }
            }
        },
        _ => Err(ParseError::MissingIdentifier(toks[pos + 1].duplicate())),
    }
}

fn parse_program_rest(toks: &Vec<Token>, pos: usize, acc: Vec<Statement>) -> (r: Result<
    (Vec<Statement>, usize),
    ParseError,
>)
    ensures
        list_res_matches(
            r,
            spec_parse_program_rest(toks_view(toks@), pos as int, stmts_view(acc@)),
        ),
        r matches Ok(v) ==> pos <= v.1 && v.1 <= toks.len(),
    decreases toks@.len() - pos, 14int,
{
    broadcast use lemma_stmts_view_push;

    let n = toks.len();
    if pos >= n {
        return Err(ParseError::UnexpectedEnd);
    }
    if matches!(&toks[pos], Token::EOF) {
        return Ok((acc, pos));
    }
    match parse_block_statement(toks, pos) {
        Err(e) => Err(e),
        Ok((st, p)) => {
            let mut acc2 = acc;
            acc2.push(st);
            parse_program_rest(toks, p, acc2)
        },
    }
}

/// The recursive-descent parser: a materialized token sequence and a
/// cursor into it.
pub struct Parser {
    tokens: Vec<Token>,
    current_token: usize,
}

impl Parser {
    /// The view of the parser's token sequence.
    pub closed spec fn toks(&self) -> Seq<SpecToken> {
        toks_view(self.tokens@)
    }

    /// The cursor's position.
    pub closed spec fn cursor(&self) -> int {
        self.current_token as int
    }

    /// A parser over a copy of the given tokens, with the cursor at the
    /// first one.
    pub fn new(tokens: &Vec<Token>) -> (p: Parser)
        ensures
            p.toks() == toks_view(tokens@),
            p.cursor() == 0,
    {
        let mut copy: Vec<Token> = Vec::new();
        let mut k: usize = 0;
        proof {
            assert(copy@ =~= tokens@.subrange(0, 0));
        }
        while k < tokens.len()
            invariant
                k <= tokens.len(),
                copy@ == tokens@.subrange(0, k as int),
            decreases tokens.len() - k,
        {
            copy.push(tokens[k].duplicate());
            k = k + 1;
            proof {
                assert(tokens@.subrange(0, k as int) =~= tokens@.subrange(0, k - 1).push(
                    tokens@[k - 1],
                ));
            }
        }
        proof {
            assert(tokens@.subrange(0, tokens@.len() as int) =~= tokens@);
        }
        Parser { tokens: copy, current_token: 0 }
    }

    /// Parses the whole token sequence from the cursor into a `Program`,
    /// or fails fatally on the first grammar violation with no partial
    /// result. On success the cursor rests on the final `EOF` token.
    pub fn parse(&mut self) -> (r: Result<Program, ParseError>)
        ensures
            final(self).toks() == old(self).toks(),
            match r {
                Ok(prog) => spec_parse_program(old(self).toks(), old(self).cursor()) matches Ok(v)
                    && prog@ == v.0 && final(self).cursor() == v.1,
                Err(e) => spec_parse_program(old(self).toks(), old(self).cursor()) matches Err(se)
                    && e@ == se && final(self).cursor() == old(self).cursor(),
            },
    {
        let empty: Vec<Statement> = Vec::new();
        let r = parse_program_rest(&self.tokens, self.current_token, empty);
        match r {
            Ok((body, p)) => {
                self.current_token = p;
                Ok(Program { body })
            },
            Err(e) => Err(e),
        }
    }
}

} // verus!

