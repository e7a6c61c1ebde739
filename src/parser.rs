use crate::ast::{Expr, List, Lit, Stmt};
use crate::progress::lemma_synchronize;
use crate::token::{Token, TokenKind};
use vstd::prelude::*;

verus! {

broadcast use vstd::string::group_string_axioms;

/// Why a piece of the token sequence does not match the grammar.
#[derive(Clone, Copy, Debug, PartialEq, Eq, Structural)]
pub enum ErrorKind {
    ExpectedExpression,
    UnexpectedEof,
    UnterminatedString,
    ExpectedRightParen,
    ExpectedSemicolonAfterValue,
    ExpectedSemicolonAfterExpression,
    ExpectedSemicolonAfterDeclaration,
    ExpectedVariableName,
    InvalidAssignmentTarget,
    ExpectedLeftParenAfterIf,
    ExpectedLeftParenAfterWhile,
    ExpectedRightParenAfterCondition,
    ExpectedRightParenAfterArguments,
    ExpectedRightBrace,
    ExpectedLeftParenAfterFor,
    ExpectedSemicolonAfterLoopCondition,
    ExpectedRightParenAfterForClauses,
    ExpectedSemicolonAfterReturn,
    ExpectedFunctionName,
    ExpectedLeftParenAfterFunctionName,
    ExpectedParameterName,
    ExpectedRightParenAfterParameters,
    ExpectedLeftBraceBeforeBody,
}

/// A parse error: the offending token and what was expected there.
#[derive(Debug)]
pub struct Error {
    pub token: Token,
    pub kind: ErrorKind,
}

/// The human-readable text of each kind of parse error.
pub open spec fn message_text(k: ErrorKind) -> &'static str {
    match k {
        ErrorKind::ExpectedExpression => "Expected expression.",
        ErrorKind::UnexpectedEof => "Unexpected end of file.",
        ErrorKind::UnterminatedString => "Unterminated string.",
        ErrorKind::ExpectedRightParen => "Expected \")\" after expression.",
        ErrorKind::ExpectedSemicolonAfterValue => "Expected ';' after value.",
        ErrorKind::ExpectedSemicolonAfterExpression => "Expected ';' after expression.",
        ErrorKind::ExpectedSemicolonAfterDeclaration => "Expected ';' after variable declaration.",
        ErrorKind::ExpectedVariableName => "Expected variable name.",
        ErrorKind::InvalidAssignmentTarget => "Invalid assignment target.",
        ErrorKind::ExpectedLeftParenAfterIf => "Expected '(' after 'if'.",
        ErrorKind::ExpectedLeftParenAfterWhile => "Expected '(' after 'while'.",
        ErrorKind::ExpectedRightParenAfterCondition => "Expected ')' after condition.",
        ErrorKind::ExpectedRightParenAfterArguments => "Expected ')' after arguments.",
        ErrorKind::ExpectedRightBrace => "Expected '}' after block.",
        ErrorKind::ExpectedLeftParenAfterFor => "Expected '(' after 'for'.",
        ErrorKind::ExpectedSemicolonAfterLoopCondition => "Expected ';' after loop condition.",
        ErrorKind::ExpectedRightParenAfterForClauses => "Expected ')' after for clauses.",
        ErrorKind::ExpectedSemicolonAfterReturn => "Expected ';' after return value.",
        ErrorKind::ExpectedFunctionName => "Expected function name.",
        ErrorKind::ExpectedLeftParenAfterFunctionName => "Expected '(' after function name.",
        ErrorKind::ExpectedParameterName => "Expected parameter name.",
        ErrorKind::ExpectedRightParenAfterParameters => "Expected ')' after parameters.",
        ErrorKind::ExpectedLeftBraceBeforeBody => "Expected '{' before function body.",
    }
}

impl ErrorKind {
    /// The human-readable text of this kind of error.
    pub fn message(&self) -> (r: String)
        ensures
            r@ == message_text(*self)@,
    {
        let text: &str = match self {
            ErrorKind::ExpectedExpression => "Expected expression.",
            ErrorKind::UnexpectedEof => "Unexpected end of file.",
            ErrorKind::UnterminatedString => "Unterminated string.",
            ErrorKind::ExpectedRightParen => "Expected \")\" after expression.",
            ErrorKind::ExpectedSemicolonAfterValue => "Expected ';' after value.",
            ErrorKind::ExpectedSemicolonAfterExpression => "Expected ';' after expression.",
            ErrorKind::ExpectedSemicolonAfterDeclaration => "Expected ';' after variable declaration.",
            ErrorKind::ExpectedVariableName => "Expected variable name.",
            ErrorKind::InvalidAssignmentTarget => "Invalid assignment target.",
            ErrorKind::ExpectedLeftParenAfterIf => "Expected '(' after 'if'.",
            ErrorKind::ExpectedLeftParenAfterWhile => "Expected '(' after 'while'.",
            ErrorKind::ExpectedRightParenAfterCondition => "Expected ')' after condition.",
            ErrorKind::ExpectedRightParenAfterArguments => "Expected ')' after arguments.",
            ErrorKind::ExpectedRightBrace => "Expected '}' after block.",
            ErrorKind::ExpectedLeftParenAfterFor => "Expected '(' after 'for'.",
            ErrorKind::ExpectedSemicolonAfterLoopCondition => "Expected ';' after loop condition.",
            ErrorKind::ExpectedRightParenAfterForClauses => "Expected ')' after for clauses.",
            ErrorKind::ExpectedSemicolonAfterReturn => "Expected ';' after return value.",
            ErrorKind::ExpectedFunctionName => "Expected function name.",
            ErrorKind::ExpectedLeftParenAfterFunctionName => "Expected '(' after function name.",
            ErrorKind::ExpectedParameterName => "Expected parameter name.",
            ErrorKind::ExpectedRightParenAfterParameters => "Expected ')' after parameters.",
            ErrorKind::ExpectedLeftBraceBeforeBody => "Expected '{' before function body.",
        };
        text.to_string()
    }
}

impl Error {
    /// The line of the offending token.
    pub fn line(&self) -> (r: usize)
        ensures
            r == self.token.line,
    {
        self.token.line
    }

    /// The error's text.
    pub fn message(&self) -> (r: String)
        ensures
            r@ == message_text(self.kind)@,
    {
        self.kind.message()
    }
}

/// Outcome of parsing one construct, as positions in the token sequence:
/// the node and the position just past it, or the position of the offending
/// token and the reason.
pub type Outcome<T> = Result<(T, int), (int, ErrorKind)>;

/// The executable counterpart of `Outcome`.
pub type Step<T> = Result<(T, usize), (usize, ErrorKind)>;

/// An executable outcome with its positions as integers.
pub open spec fn lift<T>(r: Step<T>) -> Outcome<T> {
    match r {
        Ok((v, q)) => Ok((v, q as int)),
        Err((at, k)) => Err((at as int, k)),
    }
}

/// A successful step consumes at least one token and stops before the end
/// marker; a failed one points at a token at or after where it started.
pub open spec fn advances<T>(r: Step<T>, p: int, len: int) -> bool {
    match r {
        Ok((_, q)) => p < q < len,
        Err((at, _)) => p <= at < len,
    }
}

/// A token sequence the parser accepts: it ends with the end-of-input token.
pub open spec fn well_formed(t: Seq<Token>) -> bool {
    &&& 0 < t.len()
    &&& t.last().kind == TokenKind::Eof
}

/// The kind of the token at `p`, or end-of-input past either end.
pub open spec fn kind_at(t: Seq<Token>, p: int) -> TokenKind {
    if 0 <= p < t.len() {
        t[p].kind
    } else {
        TokenKind::Eof
    }
}

/// The operators of each binary precedence level, loosest first:
/// `or`, `and`, equality, comparison, additive, multiplicative.
pub open spec fn is_level_op(k: TokenKind, lvl: int) -> bool {
    if lvl == 0 {
        k == TokenKind::Or
    } else if lvl == 1 {
        k == TokenKind::And
    } else if lvl == 2 {
        k == TokenKind::BangEqual || k == TokenKind::EqualEqual
    } else if lvl == 3 {
        k == TokenKind::Greater || k == TokenKind::GreaterEqual || k == TokenKind::Less
            || k == TokenKind::LessEqual
    } else if lvl == 4 {
        k == TokenKind::Minus || k == TokenKind::Plus
    } else {
        k == TokenKind::Slash || k == TokenKind::Star
    }
}

/// The node for `l op r` at a binary level: the two loosest levels short-circuit.
pub open spec fn combine(lvl: int, op: Token, l: Expr, r: Expr) -> Expr {
    if lvl < 2 {
        Expr::Logical(op, Box::new(l), Box::new(r))
    } else {
        Expr::Binary(op, Box::new(l), Box::new(r))
    }
}

/// expression → IDENTIFIER "=" expression | logic_or
pub open spec fn spec_expression(t: Seq<Token>, p: int) -> Outcome<Expr>
    decreases t.len() - p, 30int,
{
    if p < 0 || p >= t.len() {
        Err((p, ErrorKind::UnexpectedEof))
    } else {
        match spec_binary(t, p, 0) {
            Err(x) => Err(x),
            Ok((e, q)) => if p < q < t.len() && t[q].kind == TokenKind::Equal {
                match e {
                    Expr::Variable(name) => match spec_expression(t, q + 1) {
                        Ok((v, r)) => Ok((Expr::Assign(name, Box::new(v)), r)),
                        Err(x) => Err(x),
                    },
                    _ => Err((q, ErrorKind::InvalidAssignmentTarget)),
                }
            } else {
                Ok((e, q))
            },
        }
    }
}

/// level → operand ( OP operand )*, associating to the left.
pub open spec fn spec_binary(t: Seq<Token>, p: int, lvl: int) -> Outcome<Expr>
    decreases t.len() - p, 20 - 2 * lvl,
{
    if p < 0 || p >= t.len() || lvl < 0 || lvl > 5 {
        Err((p, ErrorKind::UnexpectedEof))
    } else {
        match spec_operand(t, p, lvl) {
            Err(x) => Err(x),
            Ok((e, q)) => if p < q <= t.len() {
                spec_binary_rest(t, q, lvl, e)
            } else {
                Ok((e, q))
            },
        }
    }
}

/// The loop of a binary level, with `left` parsed so far and `q` at the
/// next token.
pub open spec fn spec_binary_rest(t: Seq<Token>, q: int, lvl: int, left: Expr) -> Outcome<Expr>
    decreases t.len() - q, 0int,
{
    if 0 <= q < t.len() && 0 <= lvl <= 5 && is_level_op(t[q].kind, lvl) {
        match spec_operand(t, q + 1, lvl) {
            Err(x) => Err(x),
            Ok((r, q2)) => {
                let e = combine(lvl, t[q], left, r);
                if q < q2 <= t.len() {
                    spec_binary_rest(t, q2, lvl, e)
                } else {
                    Ok((e, q2))
                }
            },
        }
    } else {
        Ok((left, q))
    }
}

/// What a binary level is built from: the next tighter level, or a unary.
pub open spec fn spec_operand(t: Seq<Token>, p: int, lvl: int) -> Outcome<Expr>
    decreases t.len() - p, 19 - 2 * lvl,
{
    if p < 0 || p >= t.len() || lvl < 0 || lvl > 5 {
        Err((p, ErrorKind::UnexpectedEof))
    } else if lvl == 5 {
        spec_unary(t, p)
    } else {
        spec_binary(t, p, lvl + 1)
    }
}

/// unary → ( "!" | "-" ) unary | call
pub open spec fn spec_unary(t: Seq<Token>, p: int) -> Outcome<Expr>
    decreases t.len() - p, 4int,
{
    if p < 0 || p >= t.len() {
        Err((p, ErrorKind::UnexpectedEof))
    } else if t[p].kind == TokenKind::Bang || t[p].kind == TokenKind::Minus {
        match spec_unary(t, p + 1) {
            Ok((e, q)) => Ok((Expr::Unary(t[p], Box::new(e)), q)),
            Err(x) => Err(x),
        }
    } else {
        spec_call(t, p)
    }
}

/// call → primary ( "(" arguments? ")" )*
pub open spec fn spec_call(t: Seq<Token>, p: int) -> Outcome<Expr>
    decreases t.len() - p, 3int,
{
    if p < 0 || p >= t.len() {
        Err((p, ErrorKind::UnexpectedEof))
    } else {
        match spec_primary(t, p) {
            Err(x) => Err(x),
            Ok((e, q)) => if p < q <= t.len() {
                spec_call_rest(t, q, e)
            } else {
                Ok((e, q))
            },
        }
    }
}

/// The loop of `call`, with `callee` parsed so far and `q` at the next token.
pub open spec fn spec_call_rest(t: Seq<Token>, q: int, callee: Expr) -> Outcome<Expr>
    decreases t.len() - q, 0int,
{
    if 0 <= q < t.len() && t[q].kind == TokenKind::LeftParen {
        match spec_arguments(t, q + 1) {
            Err(x) => Err(x),
            Ok((args, r)) => {
                let e = Expr::Call(Box::new(callee), t[r - 1], args);
                if q < r <= t.len() {
                    spec_call_rest(t, r, e)
                } else {
                    Ok((e, r))
                }
            },
        }
    } else {
        Ok((callee, q))
    }
}

/// arguments? ")" with `p` just past the "(".
pub open spec fn spec_arguments(t: Seq<Token>, p: int) -> Outcome<List<Expr>>
    decreases t.len() - p, 32int,
{
    if 0 <= p < t.len() && t[p].kind == TokenKind::RightParen {
        Ok((List::Empty, p + 1))
    } else {
        spec_argument_items(t, p)
    }
}

/// expression ( "," expression )* ")"
pub open spec fn spec_argument_items(t: Seq<Token>, p: int) -> Outcome<List<Expr>>
    decreases t.len() - p, 31int,
{
    if p < 0 || p >= t.len() {
        Err((p, ErrorKind::UnexpectedEof))
    } else {
        match spec_expression(t, p) {
            Err(x) => Err(x),
            Ok((e, q)) => if kind_at(t, q) == TokenKind::Comma {
                if p < q < t.len() {
                    match spec_argument_items(t, q + 1) {
                        Err(x) => Err(x),
                        Ok((rest, r)) => Ok((List::Cons(Box::new(e), Box::new(rest)), r)),
                    }
                } else {
                    Err((q, ErrorKind::UnexpectedEof))
                }
            } else if kind_at(t, q) == TokenKind::RightParen {
                Ok((List::Cons(Box::new(e), Box::new(List::Empty)), q + 1))
            } else {
                Err((q, ErrorKind::ExpectedRightParenAfterArguments))
            },
        }
    }
}

/// primary → NUMBER | STRING | "true" | "false" | "nil" | "(" expression ")" | IDENTIFIER
pub open spec fn spec_primary(t: Seq<Token>, p: int) -> Outcome<Expr>
    decreases t.len() - p, 2int,
{
    if p < 0 || p >= t.len() {
        Err((p, ErrorKind::UnexpectedEof))
    } else {
        match t[p].kind {
            TokenKind::False => Ok((Expr::Literal(Lit::Bool(false)), p + 1)),
            TokenKind::True => Ok((Expr::Literal(Lit::Bool(true)), p + 1)),
            TokenKind::Nil => Ok((Expr::Literal(Lit::Nil), p + 1)),
            TokenKind::Number => Ok((Expr::Literal(Lit::Number(t[p].lexeme)), p + 1)),
            TokenKind::Str => Ok((Expr::Literal(Lit::Str(t[p].lexeme)), p + 1)),
            TokenKind::UnterminatedStr => Err((p, ErrorKind::UnterminatedString)),
            TokenKind::Identifier => Ok((Expr::Variable(t[p]), p + 1)),
            TokenKind::LeftParen => match spec_expression(t, p + 1) {
                Err(x) => Err(x),
                Ok((e, q)) => if kind_at(t, q) == TokenKind::RightParen {
                    Ok((Expr::Grouping(Box::new(e)), q + 1))
                } else {
                    Err((q, ErrorKind::ExpectedRightParen))
                },
            },
            TokenKind::Eof => Err((p, ErrorKind::UnexpectedEof)),
            _ => Err((p, ErrorKind::ExpectedExpression)),
        }
    }
}

fn is_level_op_exec(k: TokenKind, lvl: usize) -> (r: bool)
    ensures
        r == is_level_op(k, lvl as int),
{
    match k {
        TokenKind::Or => lvl == 0,
        TokenKind::And => lvl == 1,
        TokenKind::BangEqual | TokenKind::EqualEqual => lvl == 2,
        TokenKind::Greater | TokenKind::GreaterEqual | TokenKind::Less | TokenKind::LessEqual => lvl
            == 3,
        TokenKind::Minus | TokenKind::Plus => lvl == 4,
        TokenKind::Slash | TokenKind::Star => lvl >= 5,
        _ => false,
    }
}

fn combine_exec(lvl: usize, op: Token, l: Expr, r: Expr) -> (e: Expr)
    ensures
        e == combine(lvl as int, op, l, r),
{
    if lvl < 2 {
        Expr::Logical(op, Box::new(l), Box::new(r))
    } else {
        Expr::Binary(op, Box::new(l), Box::new(r))
    }
}

/// Parses an expression starting at `p`.
pub fn expression(t: &Vec<Token>, p: usize) -> (r: Step<Expr>)
    requires
        well_formed(t@),
        p < t.len(),
    ensures
        lift(r) == spec_expression(t@, p as int),
        advances(r, p as int, t.len() as int),
    decreases t.len() - p, 30int,
{
    let first = binary(t, p, 0);
    match first {
        Err(x) => Err(x),
        Ok((e, q)) => {
            if t[q].kind == TokenKind::Equal {
                match e {
                    Expr::Variable(name) => match expression(t, q + 1) {
                        Ok((v, r)) => Ok((Expr::Assign(name, Box::new(v)), r)),
                        Err(x) => Err(x),
                    },
                    _ => Err((q, ErrorKind::InvalidAssignmentTarget)),
                }
            } else {
                Ok((e, q))
            }
        },
    }
}

fn binary(t: &Vec<Token>, p: usize, lvl: usize) -> (r: Step<Expr>)
    requires
        well_formed(t@),
        p < t.len(),
        lvl <= 5,
    ensures
        lift(r) == spec_binary(t@, p as int, lvl as int),
        advances(r, p as int, t.len() as int),
    decreases t.len() - p, 20 - 2 * lvl,
{
    let first = operand(t, p, lvl);
    match first {
        Err(x) => Err(x),
        Ok((e0, q0)) => {
            let mut e = e0;
            let mut q = q0;
            loop
                invariant
                    well_formed(t@),
                    p < q < t.len(),
                    lvl <= 5,
                    spec_binary(t@, p as int, lvl as int) == spec_binary_rest(
                        t@,
                        q as int,
                        lvl as int,
                        e,
                    ),
                decreases t.len() - q,
            {
                if !is_level_op_exec(t[q].kind, lvl) {
                    return Ok((e, q));
                }
                let op = t[q].duplicate();
                match operand(t, q + 1, lvl) {
                    Err(x) => {
                        return Err(x);
                    },
                    Ok((r, q2)) => {
                        e = combine_exec(lvl, op, e, r);
                        q = q2;
                    },
                }
            }
        },
    }
}

fn operand(t: &Vec<Token>, p: usize, lvl: usize) -> (r: Step<Expr>)
    requires
        well_formed(t@),
        p < t.len(),
        lvl <= 5,
    ensures
        lift(r) == spec_operand(t@, p as int, lvl as int),
        advances(r, p as int, t.len() as int),
    decreases t.len() - p, 19 - 2 * lvl,
{
    if lvl == 5 {
        unary(t, p)
    } else {
        binary(t, p, lvl + 1)
    }
}

fn unary(t: &Vec<Token>, p: usize) -> (r: Step<Expr>)
    requires
        well_formed(t@),
        p < t.len(),
    ensures
        lift(r) == spec_unary(t@, p as int),
        advances(r, p as int, t.len() as int),
    decreases t.len() - p, 4int,
{
    match t[p].kind {
        TokenKind::Bang | TokenKind::Minus => {
            let op = t[p].duplicate();
            match unary(t, p + 1) {
                Ok((e, q)) => Ok((Expr::Unary(op, Box::new(e)), q)),
                Err(x) => Err(x),
            }
        },
        _ => call(t, p),
    }
}

fn call(t: &Vec<Token>, p: usize) -> (r: Step<Expr>)
    requires
        well_formed(t@),
        p < t.len(),
    ensures
        lift(r) == spec_call(t@, p as int),
        advances(r, p as int, t.len() as int),
    decreases t.len() - p, 3int,
{
    let (mut e, mut q) = match primary(t, p) {
        Err(x) => {
            return Err(x);
        },
        Ok(v) => v,
    };
    loop
        invariant
            well_formed(t@),
            p < q < t.len(),
            spec_call(t@, p as int) == spec_call_rest(t@, q as int, e),
        decreases t.len() - q,
    {
        if t[q].kind != TokenKind::LeftParen {
            return Ok((e, q));
        }
        match arguments(t, q + 1) {
            Err(x) => {
                return Err(x);
            },
            Ok((args, r)) => {
                let paren = t[r - 1].duplicate();
                e = Expr::Call(Box::new(e), paren, args);
                q = r;
            },
        }
    }
}

fn arguments(t: &Vec<Token>, p: usize) -> (r: Step<List<Expr>>)
    requires
        well_formed(t@),
        0 < p < t.len(),
    ensures
        lift(r) == spec_arguments(t@, p as int),
        advances(r, p as int, t.len() as int),
    decreases t.len() - p, 32int,
{
    if t[p].kind == TokenKind::RightParen {
        Ok((List::Empty, p + 1))
    } else {
        argument_items(t, p)
    }
}

fn argument_items(t: &Vec<Token>, p: usize) -> (r: Step<List<Expr>>)
    requires
        well_formed(t@),
        p < t.len(),
    ensures
        lift(r) == spec_argument_items(t@, p as int),
        advances(r, p as int, t.len() as int),
    decreases t.len() - p, 31int,
{
    let (e, q) = match expression(t, p) {
        Err(x) => {
            return Err(x);
        },
        Ok(v) => v,
    };
    if t[q].kind == TokenKind::Comma {
        match argument_items(t, q + 1) {
            Err(x) => Err(x),
            Ok((rest, r)) => Ok((List::Cons(Box::new(e), Box::new(rest)), r)),
        }
    } else if t[q].kind == TokenKind::RightParen {
        Ok((List::Cons(Box::new(e), Box::new(List::Empty)), q + 1))
    } else {
        Err((q, ErrorKind::ExpectedRightParenAfterArguments))
    }
}

fn primary(t: &Vec<Token>, p: usize) -> (r: Step<Expr>)
    requires
        well_formed(t@),
        p < t.len(),
    ensures
        lift(r) == spec_primary(t@, p as int),
        advances(r, p as int, t.len() as int),
    decreases t.len() - p, 2int,
{
    let token = &t[p];
    match token.kind {
        TokenKind::False => Ok((Expr::Literal(Lit::Bool(false)), p + 1)),
        TokenKind::True => Ok((Expr::Literal(Lit::Bool(true)), p + 1)),
        TokenKind::Nil => Ok((Expr::Literal(Lit::Nil), p + 1)),
        TokenKind::Number => Ok((Expr::Literal(Lit::Number(token.lexeme.clone())), p + 1)),
        TokenKind::Str => Ok((Expr::Literal(Lit::Str(token.lexeme.clone())), p + 1)),
        TokenKind::UnterminatedStr => Err((p, ErrorKind::UnterminatedString)),
        TokenKind::Identifier => Ok((Expr::Variable(token.duplicate()), p + 1)),
        TokenKind::LeftParen => match expression(t, p + 1) {
            Err(x) => Err(x),
            Ok((e, q)) => {
                if t[q].kind == TokenKind::RightParen {
                    Ok((Expr::Grouping(Box::new(e)), q + 1))
                } else {
                    Err((q, ErrorKind::ExpectedRightParen))
                }
            },
        },
        TokenKind::Eof => Err((p, ErrorKind::UnexpectedEof)),
        _ => Err((p, ErrorKind::ExpectedExpression)),
    }
}

/// printStmt → "print" expression ";" with `p` just past `print`.
pub open spec fn spec_print_statement(t: Seq<Token>, p: int) -> Outcome<Stmt> {
    match spec_expression(t, p) {
        Err(x) => Err(x),
        Ok((e, q)) => if kind_at(t, q) == TokenKind::Semicolon {
            Ok((Stmt::Print(e), q + 1))
        } else {
            Err((q, ErrorKind::ExpectedSemicolonAfterValue))
        },
    }
}

/// exprStmt → expression ";"
pub open spec fn spec_expression_statement(t: Seq<Token>, p: int) -> Outcome<Stmt> {
    match spec_expression(t, p) {
        Err(x) => Err(x),
        Ok((e, q)) => if kind_at(t, q) == TokenKind::Semicolon {
            Ok((Stmt::Expression(e), q + 1))
        } else {
            Err((q, ErrorKind::ExpectedSemicolonAfterExpression))
        },
    }
}

/// returnStmt → "return" expression? ";" with `p` at `return`.
pub open spec fn spec_return_statement(t: Seq<Token>, p: int) -> Outcome<Stmt> {
    if kind_at(t, p + 1) == TokenKind::Semicolon {
        Ok((Stmt::Return { keyword: t[p], value: None }, p + 2))
    } else {
        match spec_expression(t, p + 1) {
            Err(x) => Err(x),
            Ok((e, q)) => if kind_at(t, q) == TokenKind::Semicolon {
                Ok((Stmt::Return { keyword: t[p], value: Some(e) }, q + 1))
            } else {
                Err((q, ErrorKind::ExpectedSemicolonAfterReturn))
            },
        }
    }
}

/// varDecl → "var" IDENTIFIER ( "=" expression )? ";" with `p` just past `var`.
pub open spec fn spec_var_declaration(t: Seq<Token>, p: int) -> Outcome<Stmt> {
    if kind_at(t, p) != TokenKind::Identifier {
        Err((p, ErrorKind::ExpectedVariableName))
    } else if kind_at(t, p + 1) == TokenKind::Equal {
        match spec_expression(t, p + 2) {
            Err(x) => Err(x),
            Ok((e, q)) => if kind_at(t, q) == TokenKind::Semicolon {
                Ok((Stmt::VarDecl { name: t[p], init: Some(e) }, q + 1))
            } else {
                Err((q, ErrorKind::ExpectedSemicolonAfterDeclaration))
            },
        }
    } else if kind_at(t, p + 1) == TokenKind::Semicolon {
        Ok((Stmt::VarDecl { name: t[p], init: None }, p + 2))
    } else {
        Err((p + 1, ErrorKind::ExpectedSemicolonAfterDeclaration))
    }
}

/// The clauses of `for ( init cond ; incr )` with `p` at `for`: each one
/// that is present, and the position of the loop body.
pub open spec fn spec_for_clauses(t: Seq<Token>, p: int) -> Outcome<
    (Option<Stmt>, Option<Expr>, Option<Expr>),
> {
    if kind_at(t, p + 1) != TokenKind::LeftParen {
        Err((p + 1, ErrorKind::ExpectedLeftParenAfterFor))
    } else {
        let init: Outcome<Option<Stmt>> = if kind_at(t, p + 2) == TokenKind::Semicolon {
            Ok((None, p + 3))
        } else if kind_at(t, p + 2) == TokenKind::Var {
            match spec_var_declaration(t, p + 3) {
                Ok((s, q)) => Ok((Some(s), q)),
                Err(x) => Err(x),
            }
        } else {
            match spec_expression_statement(t, p + 2) {
                Ok((s, q)) => Ok((Some(s), q)),
                Err(x) => Err(x),
            }
        };
        match init {
            Err(x) => Err(x),
            Ok((init, q)) => {
                let cond: Outcome<Option<Expr>> = if kind_at(t, q) == TokenKind::Semicolon {
                    Ok((None, q + 1))
                } else {
                    match spec_expression(t, q) {
                        Err(x) => Err(x),
                        Ok((c, q2)) => if kind_at(t, q2) == TokenKind::Semicolon {
                            Ok((Some(c), q2 + 1))
                        } else {
                            Err((q2, ErrorKind::ExpectedSemicolonAfterLoopCondition))
                        },
                    }
                };
                match cond {
                    Err(x) => Err(x),
                    Ok((cond, r)) => if kind_at(t, r) == TokenKind::RightParen {
                        Ok(((init, cond, None), r + 1))
                    } else {
                        match spec_expression(t, r) {
                            Err(x) => Err(x),
                            Ok((n, r2)) => if kind_at(t, r2) == TokenKind::RightParen {
                                Ok(((init, cond, Some(n)), r2 + 1))
                            } else {
                                Err((r2, ErrorKind::ExpectedRightParenAfterForClauses))
                            },
                        }
                    },
                }
            },
        }
    }
}

/// A `for` loop as the `while` loop it stands for: the initializer runs
/// once in a block around the loop, a missing condition is `true`, and the
/// increment runs after the body, in a block with it.
pub open spec fn desugar_for(
    init: Option<Stmt>,
    cond: Option<Expr>,
    incr: Option<Expr>,
    body: Stmt,
) -> Stmt {
    let body = match incr {
        Some(n) => Stmt::Block(
            List::Cons(
                Box::new(body),
                Box::new(List::Cons(Box::new(Stmt::Expression(n)), Box::new(List::Empty))),
            ),
        ),
        None => body,
    };
    let c = match cond {
        Some(c) => c,
        None => Expr::Literal(Lit::Bool(true)),
    };
    let w = Stmt::While { cond: c, body: Box::new(body) };
    match init {
        Some(s) => Stmt::Block(
            List::Cons(Box::new(s), Box::new(List::Cons(Box::new(w), Box::new(List::Empty)))),
        ),
        None => w,
    }
}

/// The error for a missing `(` after `if` or `while`.
pub open spec fn cond_open_error(kind: TokenKind) -> ErrorKind {
    if kind == TokenKind::If {
        ErrorKind::ExpectedLeftParenAfterIf
    } else {
        ErrorKind::ExpectedLeftParenAfterWhile
    }
}

/// statement → exprStmt | printStmt | ifStmt | whileStmt | forStmt | block | returnStmt
pub open spec fn spec_statement(t: Seq<Token>, p: int) -> Outcome<Stmt>
    decreases t.len() - p, 1int,
{
    if p < 0 || p >= t.len() {
        Err((p, ErrorKind::UnexpectedEof))
    } else if t[p].kind == TokenKind::Print {
        spec_print_statement(t, p + 1)
    } else if t[p].kind == TokenKind::Return {
        spec_return_statement(t, p)
    } else if t[p].kind == TokenKind::LeftBrace {
        match spec_block_items(t, p + 1) {
            Err(x) => Err(x),
            Ok((items, q)) => Ok((Stmt::Block(items), q)),
        }
    } else if t[p].kind == TokenKind::For {
        match spec_for_clauses(t, p) {
            Err(x) => Err(x),
            Ok(((init, cond, incr), b)) => if p < b <= t.len() {
                match spec_statement(t, b) {
                    Err(x) => Err(x),
                    Ok((body, e)) => Ok((desugar_for(init, cond, incr, body), e)),
                }
            } else {
                Err((b, ErrorKind::UnexpectedEof))
            },
        }
    } else if t[p].kind == TokenKind::If || t[p].kind == TokenKind::While {
        if kind_at(t, p + 1) != TokenKind::LeftParen {
            Err((p + 1, cond_open_error(t[p].kind)))
        } else {
            match spec_expression(t, p + 2) {
                Err(x) => Err(x),
                Ok((c, q)) => if kind_at(t, q) != TokenKind::RightParen {
                    Err((q, ErrorKind::ExpectedRightParenAfterCondition))
                } else if !(p < q < t.len()) {
                    Err((q, ErrorKind::UnexpectedEof))
                } else {
                    match spec_statement(t, q + 1) {
                        Err(x) => Err(x),
                        Ok((body, r)) => if t[p].kind == TokenKind::While {
                            Ok((Stmt::While { cond: c, body: Box::new(body) }, r))
                        } else if p < r < t.len() && t[r].kind == TokenKind::Else {
                            match spec_statement(t, r + 1) {
                                Err(x) => Err(x),
                                Ok((other, r2)) => Ok(
                                    (
                                        Stmt::If {
                                            cond: c,
                                            then_branch: Box::new(body),
                                            else_branch: Some(Box::new(other)),
                                        },
                                        r2,
                                    ),
                                ),
                            }
                        } else {
                            Ok(
                                (
                                    Stmt::If {
                                        cond: c,
                                        then_branch: Box::new(body),
                                        else_branch: None,
                                    },
                                    r,
                                ),
                            )
                        },
                    }
                },
            }
        }
    } else {
        spec_expression_statement(t, p)
    }
}

/// declaration* "}" with `q` at the next declaration.
pub open spec fn spec_block_items(t: Seq<Token>, q: int) -> Outcome<List<Stmt>>
    decreases t.len() - q, 3int,
{
    if kind_at(t, q) == TokenKind::RightBrace {
        Ok((List::Empty, q + 1))
    } else if kind_at(t, q) == TokenKind::Eof {
        Err((q, ErrorKind::ExpectedRightBrace))
    } else {
        match spec_declaration(t, q) {
            Err(x) => Err(x),
            Ok((s, r)) => if q < r <= t.len() {
                match spec_block_items(t, r) {
                    Err(x) => Err(x),
                    Ok((rest, e)) => Ok((List::Cons(Box::new(s), Box::new(rest)), e)),
                }
            } else {
                Err((r, ErrorKind::UnexpectedEof))
            },
        }
    }
}

/// parameters? ")" with `p` just past the "(".
pub open spec fn spec_parameters(t: Seq<Token>, p: int) -> Outcome<List<Token>> {
    if kind_at(t, p) == TokenKind::RightParen {
        Ok((List::Empty, p + 1))
    } else {
        spec_parameter_items(t, p)
    }
}

/// IDENTIFIER ( "," IDENTIFIER )* ")"
pub open spec fn spec_parameter_items(t: Seq<Token>, p: int) -> Outcome<List<Token>>
    decreases t.len() - p,
{
    if kind_at(t, p) != TokenKind::Identifier {
        Err((p, ErrorKind::ExpectedParameterName))
    } else if kind_at(t, p + 1) == TokenKind::Comma {
        match spec_parameter_items(t, p + 2) {
            Err(x) => Err(x),
            Ok((rest, q)) => Ok((List::Cons(Box::new(t[p]), Box::new(rest)), q)),
        }
    } else if kind_at(t, p + 1) == TokenKind::RightParen {
        Ok((List::Cons(Box::new(t[p]), Box::new(List::Empty)), p + 2))
    } else {
        Err((p + 1, ErrorKind::ExpectedRightParenAfterParameters))
    }
}

/// funDecl → "fun" IDENTIFIER "(" parameters? ")" "{" declaration* "}" with
/// `p` just past `fun`.
pub open spec fn spec_function(t: Seq<Token>, p: int) -> Outcome<Stmt>
    decreases t.len() - p, 0int,
{
    if kind_at(t, p) != TokenKind::Identifier {
        Err((p, ErrorKind::ExpectedFunctionName))
    } else if kind_at(t, p + 1) != TokenKind::LeftParen {
        Err((p + 1, ErrorKind::ExpectedLeftParenAfterFunctionName))
    } else {
        match spec_parameters(t, p + 2) {
            Err(x) => Err(x),
            Ok((params, q)) => if kind_at(t, q) != TokenKind::LeftBrace {
                Err((q, ErrorKind::ExpectedLeftBraceBeforeBody))
            } else if p < q < t.len() {
                match spec_block_items(t, q + 1) {
                    Err(x) => Err(x),
                    Ok((body, r)) => Ok((Stmt::Function { name: t[p], params, body }, r)),
                }
            } else {
                Err((q, ErrorKind::UnexpectedEof))
            },
        }
    }
}

/// declaration → varDecl | funDecl | statement
pub open spec fn spec_declaration(t: Seq<Token>, p: int) -> Outcome<Stmt>
    decreases t.len() - p, 2int,
{
    if p < 0 || p >= t.len() {
        Err((p, ErrorKind::UnexpectedEof))
    } else if t[p].kind == TokenKind::Var {
        spec_var_declaration(t, p + 1)
    } else if t[p].kind == TokenKind::Fun {
        spec_function(t, p + 1)
    } else {
        spec_statement(t, p)
    }
}

/// Kinds of token that start a statement, where recovery resumes.
pub open spec fn starts_statement(k: TokenKind) -> bool {
    k == TokenKind::Class || k == TokenKind::Fun || k == TokenKind::Var || k == TokenKind::For
        || k == TokenKind::If || k == TokenKind::While || k == TokenKind::Print || k
        == TokenKind::Return
}

/// A place where parsing may resume: just past a `;`, or at a token that
/// starts a statement or ends the input.
pub open spec fn at_boundary(t: Seq<Token>, r: int) -> bool {
    kind_at(t, r - 1) == TokenKind::Semicolon || kind_at(t, r) == TokenKind::Eof
        || starts_statement(kind_at(t, r))
}

/// Recovery after an error at `p`: the offending token is dropped, then
/// tokens are dropped until just past a `;`, or until the next token starts a
/// statement or ends the input. The end-of-input token is never dropped.
pub open spec fn spec_synchronize(t: Seq<Token>, p: int) -> int {
    if kind_at(t, p) == TokenKind::Eof {
        p
    } else {
        spec_skip_to_boundary(t, p + 1)
    }
}

/// The scan of `spec_synchronize`, with the token before `q` just dropped.
pub open spec fn spec_skip_to_boundary(t: Seq<Token>, q: int) -> int
    decreases t.len() - q,
{
    if at_boundary(t, q) {
        q
    } else {
        spec_skip_to_boundary(t, q + 1)
    }
}

/// The error value for a failure at position `at`.
pub open spec fn error_at(t: Seq<Token>, at: int, kind: ErrorKind) -> Error {
    Error { token: t[at], kind }
}

/// program → declaration* EOF, from position `p`: the statements parsed, in
/// order, and one error for each top-level declaration that failed, in
/// order. A failed declaration contributes no statement; parsing resumes
/// where recovery stops.
pub open spec fn spec_program(t: Seq<Token>, p: int) -> (Seq<Stmt>, Seq<Error>)
    decreases t.len() - p,
{
    if p < 0 || p >= t.len() || t[p].kind == TokenKind::Eof {
        (seq![], seq![])
    } else {
        match spec_declaration(t, p) {
            Ok((s, q)) => if p < q <= t.len() {
                let rest = spec_program(t, q);
                (seq![s] + rest.0, rest.1)
            } else {
                (seq![s], seq![])
            },
            Err((at, k)) => {
                let r = spec_synchronize(t, at);
                if p < r <= t.len() {
                    let rest = spec_program(t, r);
                    (rest.0, seq![error_at(t, at, k)] + rest.1)
                } else {
                    (seq![], seq![error_at(t, at, k)])
                }
            },
        }
    }
}
/// Parsing is deterministic: equal token sequences give structurally
/// identical statement sequences and identical errors, so a program parsed
/// twice gives the same result both times.
pub proof fn lemma_parse_deterministic(a: Seq<Token>, b: Seq<Token>)
    requires
        well_formed(a),
        a == b,
    ensures
        spec_program(a, 0) == spec_program(b, 0),
{
}

fn print_statement(t: &Vec<Token>, p: usize) -> (r: Step<Stmt>)
    requires
        well_formed(t@),
        0 < p < t.len(),
    ensures
        lift(r) == spec_print_statement(t@, p as int),
        advances(r, p as int, t.len() as int),
{
    let (e, q) = match expression(t, p) {
        Err(x) => {
            return Err(x);
        },
        Ok(v) => v,
    };
    if t[q].kind == TokenKind::Semicolon {
        Ok((Stmt::Print(e), q + 1))
    } else {
        Err((q, ErrorKind::ExpectedSemicolonAfterValue))
    }
}

fn expression_statement(t: &Vec<Token>, p: usize) -> (r: Step<Stmt>)
    requires
        well_formed(t@),
        p < t.len(),
    ensures
        lift(r) == spec_expression_statement(t@, p as int),
        advances(r, p as int, t.len() as int),
{
    let (e, q) = match expression(t, p) {
        Err(x) => {
            return Err(x);
        },
        Ok(v) => v,
    };
    if t[q].kind == TokenKind::Semicolon {
        Ok((Stmt::Expression(e), q + 1))
    } else {
        Err((q, ErrorKind::ExpectedSemicolonAfterExpression))
    }
}

fn return_statement(t: &Vec<Token>, p: usize) -> (r: Step<Stmt>)
    requires
        well_formed(t@),
        p < t.len(),
        t@[p as int].kind == TokenKind::Return,
    ensures
        lift(r) == spec_return_statement(t@, p as int),
        advances(r, p as int, t.len() as int),
{
    let keyword = t[p].duplicate();
    if t[p + 1].kind == TokenKind::Semicolon {
        return Ok((Stmt::Return { keyword, value: None }, p + 2));
    }
    let (e, q) = match expression(t, p + 1) {
        Err(x) => {
            return Err(x);
        },
        Ok(v) => v,
    };
    if t[q].kind == TokenKind::Semicolon {
        Ok((Stmt::Return { keyword, value: Some(e) }, q + 1))
    } else {
        Err((q, ErrorKind::ExpectedSemicolonAfterReturn))
    }
}

fn var_declaration(t: &Vec<Token>, p: usize) -> (r: Step<Stmt>)
    requires
        well_formed(t@),
        0 < p < t.len(),
    ensures
        lift(r) == spec_var_declaration(t@, p as int),
        advances(r, p as int, t.len() as int),
{
    if t[p].kind != TokenKind::Identifier {
        return Err((p, ErrorKind::ExpectedVariableName));
    }
    let name = t[p].duplicate();
    if t[p + 1].kind == TokenKind::Equal {
        match expression(t, p + 2) {
            Err(x) => Err(x),
            Ok((e, q)) => {
                if t[q].kind == TokenKind::Semicolon {
                    Ok((Stmt::VarDecl { name, init: Some(e) }, q + 1))
                } else {
                    Err((q, ErrorKind::ExpectedSemicolonAfterDeclaration))
                }
            },
        }
    } else if t[p + 1].kind == TokenKind::Semicolon {
        Ok((Stmt::VarDecl { name, init: None }, p + 2))
    } else {
        Err((p + 1, ErrorKind::ExpectedSemicolonAfterDeclaration))
    }
}

fn for_clauses(t: &Vec<Token>, p: usize) -> (r: Step<(Option<Stmt>, Option<Expr>, Option<Expr>)>)
    requires
        well_formed(t@),
        p < t.len(),
        t@[p as int].kind == TokenKind::For,
    ensures
        lift(r) == spec_for_clauses(t@, p as int),
        advances(r, p as int, t.len() as int),
{
    if t[p + 1].kind != TokenKind::LeftParen {
        return Err((p + 1, ErrorKind::ExpectedLeftParenAfterFor));
    }
    let (init, q) = if t[p + 2].kind == TokenKind::Semicolon {
        (None, p + 3)
    } else if t[p + 2].kind == TokenKind::Var {
        match var_declaration(t, p + 3) {
            Ok((s, q)) => (Some(s), q),
            Err(x) => {
                return Err(x);
            },
        }
    } else {
        match expression_statement(t, p + 2) {
            Ok((s, q)) => (Some(s), q),
            Err(x) => {
                return Err(x);
            },
        }
    };
    let (cond, r) = if t[q].kind == TokenKind::Semicolon {
        (None, q + 1)
    } else {
        match expression(t, q) {
            Err(x) => {
                return Err(x);
            },
            Ok((c, q2)) => {
                if t[q2].kind == TokenKind::Semicolon {
                    (Some(c), q2 + 1)
                } else {
                    return Err((q2, ErrorKind::ExpectedSemicolonAfterLoopCondition));
                }
            },
        }
    };
    if t[r].kind == TokenKind::RightParen {
        return Ok(((init, cond, None), r + 1));
    }
    match expression(t, r) {
        Err(x) => Err(x),
        Ok((n, r2)) => {
            if t[r2].kind == TokenKind::RightParen {
                Ok(((init, cond, Some(n)), r2 + 1))
            } else {
                Err((r2, ErrorKind::ExpectedRightParenAfterForClauses))
            }
        },
    }
}

fn desugar_for_exec(init: Option<Stmt>, cond: Option<Expr>, incr: Option<Expr>, body: Stmt) -> (s:
    Stmt)
    ensures
        s == desugar_for(init, cond, incr, body),
{
    let body = match incr {
        Some(n) => Stmt::Block(
            List::Cons(
                Box::new(body),
                Box::new(List::Cons(Box::new(Stmt::Expression(n)), Box::new(List::Empty))),
            ),
        ),
        None => body,
    };
    let c = match cond {
        Some(c) => c,
        None => Expr::Literal(Lit::Bool(true)),
    };
    let w = Stmt::While { cond: c, body: Box::new(body) };
    match init {
        Some(s) => Stmt::Block(
            List::Cons(Box::new(s), Box::new(List::Cons(Box::new(w), Box::new(List::Empty)))),
        ),
        None => w,
    }
}

fn statement(t: &Vec<Token>, p: usize) -> (r: Step<Stmt>)
    requires
        well_formed(t@),
        p < t.len(),
    ensures
        lift(r) == spec_statement(t@, p as int),
        advances(r, p as int, t.len() as int),
    decreases t.len() - p, 1int,
{
    let kind = t[p].kind;
    match kind {
        TokenKind::Print => print_statement(t, p + 1),
        TokenKind::Return => return_statement(t, p),
        TokenKind::LeftBrace => match block_items(t, p + 1) {
            Err(x) => Err(x),
            Ok((items, q)) => Ok((Stmt::Block(items), q)),
        },
        TokenKind::For => {
            let ((init, cond, incr), b) = match for_clauses(t, p) {
                Err(x) => {
                    return Err(x);
                },
                Ok(v) => v,
            };
            match statement(t, b) {
                Err(x) => Err(x),
                Ok((body, e)) => Ok((desugar_for_exec(init, cond, incr, body), e)),
            }
        },
        TokenKind::If | TokenKind::While => {
            if t[p + 1].kind != TokenKind::LeftParen {
                let k = if kind == TokenKind::If {
                    ErrorKind::ExpectedLeftParenAfterIf
                } else {
                    ErrorKind::ExpectedLeftParenAfterWhile
                };
                return Err((p + 1, k));
            }
            let (c, q) = match expression(t, p + 2) {
                Err(x) => {
                    return Err(x);
                },
                Ok(v) => v,
            };
            if t[q].kind != TokenKind::RightParen {
                return Err((q, ErrorKind::ExpectedRightParenAfterCondition));
            }
            let (body, r) = match statement(t, q + 1) {
                Err(x) => {
                    return Err(x);
                },
                Ok(v) => v,
            };
            if kind == TokenKind::While {
                return Ok((Stmt::While { cond: c, body: Box::new(body) }, r));
            }
            if t[r].kind == TokenKind::Else {
                match statement(t, r + 1) {
                    Err(x) => Err(x),
                    Ok((other, r2)) => Ok(
                        (
                            Stmt::If {
                                cond: c,
                                then_branch: Box::new(body),
                                else_branch: Some(Box::new(other)),
                            },
                            r2,
                        ),
                    ),
                }
            } else {
                Ok((Stmt::If { cond: c, then_branch: Box::new(body), else_branch: None }, r))
            }
        },
        _ => expression_statement(t, p),
    }
}

fn block_items(t: &Vec<Token>, q: usize) -> (r: Step<List<Stmt>>)
    requires
        well_formed(t@),
        0 < q < t.len(),
    ensures
        lift(r) == spec_block_items(t@, q as int),
        advances(r, q as int, t.len() as int),
    decreases t.len() - q, 3int,
{
    if t[q].kind == TokenKind::RightBrace {
        return Ok((List::Empty, q + 1));
    }
    if t[q].kind == TokenKind::Eof {
        return Err((q, ErrorKind::ExpectedRightBrace));
    }
    match declaration(t, q) {
        Err(x) => Err(x),
        Ok((s, r)) => match block_items(t, r) {
            Err(x) => Err(x),
            Ok((rest, e)) => Ok((List::Cons(Box::new(s), Box::new(rest)), e)),
        },
    }
}

fn parameter_items(t: &Vec<Token>, p: usize) -> (r: Step<List<Token>>)
    requires
        well_formed(t@),
        p < t.len(),
    ensures
        lift(r) == spec_parameter_items(t@, p as int),
        advances(r, p as int, t.len() as int),
    decreases t.len() - p,
{
    if t[p].kind != TokenKind::Identifier {
        return Err((p, ErrorKind::ExpectedParameterName));
    }
    let name = t[p].duplicate();
    if t[p + 1].kind == TokenKind::Comma {
        match parameter_items(t, p + 2) {
            Err(x) => Err(x),
            Ok((rest, q)) => Ok((List::Cons(Box::new(name), Box::new(rest)), q)),
        }
    } else if t[p + 1].kind == TokenKind::RightParen {
        Ok((List::Cons(Box::new(name), Box::new(List::Empty)), p + 2))
    } else {
        Err((p + 1, ErrorKind::ExpectedRightParenAfterParameters))
    }
}

fn function(t: &Vec<Token>, p: usize) -> (r: Step<Stmt>)
    requires
        well_formed(t@),
        0 < p < t.len(),
    ensures
        lift(r) == spec_function(t@, p as int),
        advances(r, p as int, t.len() as int),
    decreases t.len() - p, 0int,
{
    if t[p].kind != TokenKind::Identifier {
        return Err((p, ErrorKind::ExpectedFunctionName));
    }
    if t[p + 1].kind != TokenKind::LeftParen {
        return Err((p + 1, ErrorKind::ExpectedLeftParenAfterFunctionName));
    }
    let name = t[p].duplicate();
    let (params, q) = if t[p + 2].kind == TokenKind::RightParen {
        (List::Empty, p + 3)
    } else {
        match parameter_items(t, p + 2) {
            Err(x) => {
                return Err(x);
            },
            Ok(v) => v,
        }
    };
    if t[q].kind != TokenKind::LeftBrace {
        return Err((q, ErrorKind::ExpectedLeftBraceBeforeBody));
    }
    match block_items(t, q + 1) {
        Err(x) => Err(x),
        Ok((body, r)) => Ok((Stmt::Function { name, params, body }, r)),
    }
}

fn declaration(t: &Vec<Token>, p: usize) -> (r: Step<Stmt>)
    requires
        well_formed(t@),
        p < t.len(),
    ensures
        lift(r) == spec_declaration(t@, p as int),
        advances(r, p as int, t.len() as int),
        match r {
            Err((at, _)) => t@[p as int].kind != TokenKind::Eof ==> {
                let resume = spec_synchronize(t@, at as int);
                &&& p < resume < t.len()
                &&& at_boundary(t@, resume)
            },
            Ok(_) => true,
        },
    decreases t.len() - p, 2int,
{
    let r = match t[p].kind {
        TokenKind::Var => var_declaration(t, p + 1),
        TokenKind::Fun => function(t, p + 1),
        _ => statement(t, p),
    };
    proof {
        if let Err((at, _)) = r {
            lemma_synchronize(t@, at as int);
        }
    }
    r
}

fn synchronize(t: &Vec<Token>, p: usize) -> (r: usize)
    requires
        well_formed(t@),
        p < t.len(),
    ensures
        r == spec_synchronize(t@, p as int),
        p <= r < t.len(),
        t@[p as int].kind != TokenKind::Eof ==> p < r,
{
    if t[p].kind == TokenKind::Eof {
        return p;
    }
    let mut q = p + 1;
    loop
        invariant
            well_formed(t@),
            p < q < t.len(),
            spec_synchronize(t@, p as int) == spec_skip_to_boundary(t@, q as int),
        decreases t.len() - q,
    {
        if t[q - 1].kind == TokenKind::Semicolon {
            return q;
        }
        match t[q].kind {
            TokenKind::Eof | TokenKind::Class | TokenKind::Fun | TokenKind::Var | TokenKind::For
            | TokenKind::If | TokenKind::While | TokenKind::Print | TokenKind::Return => {
                return q;
            },
            _ => {},
        }
        q = q + 1;
    }
}

/// Parses a whole token sequence into the program's statements and the
/// parse errors met on the way. Each top-level declaration that does not
/// match the grammar yields exactly one error and no statement; parsing
/// resumes after recovery, so the declarations after it are still parsed.
pub fn parse(tokens: &Vec<Token>) -> (r: (Vec<Stmt>, Vec<Error>))
    requires
        well_formed(tokens@),
    ensures
        r.0@ == spec_program(tokens@, 0).0,
        r.1@ == spec_program(tokens@, 0).1,
{
    let t = tokens;
    let mut stmts: Vec<Stmt> = Vec::new();
    let mut errors: Vec<Error> = Vec::new();
    let mut p: usize = 0;
    while t[p].kind != TokenKind::Eof
        invariant
            well_formed(t@),
            p < t.len(),
            spec_program(t@, 0).0 == stmts@ + spec_program(t@, p as int).0,
            spec_program(t@, 0).1 == errors@ + spec_program(t@, p as int).1,
        decreases t.len() - p,
    {
        match declaration(t, p) {
            Ok((s, q)) => {
                proof {
                    let rest = spec_program(t@, q as int);
                    assert(stmts@.push(s) + rest.0 =~= stmts@ + (seq![s] + rest.0));
                }
                stmts.push(s);
                p = q;
            },
            Err((at, k)) => {
                let r = synchronize(t, at);
                let token = t[at].duplicate();
                proof {
                    let rest = spec_program(t@, r as int);
                    let e = error_at(t@, at as int, k);
                    assert(errors@.push(e) + rest.1 =~= errors@ + (seq![e] + rest.1));
                }
                errors.push(Error { token, kind: k });
                p = r;
            },
        }
    }
    proof {
        assert(stmts@ + seq![] =~= stmts@);
        assert(errors@ + seq![] =~= errors@);
    }
    (stmts, errors)
}

} // verus!
