//! Facts about the grammar functions of `parser`: every construct that
//! parses consumes at least one token and never the end-of-input token, and
//! every error points at or after where its construct started. From these
//! follows how a program's statements and errors are assembled.

use crate::ast::{Expr, Stmt};
use crate::parser::{
    at_boundary,
    starts_statement, ErrorKind,
    combine, is_level_op, kind_at, spec_argument_items, spec_arguments, spec_binary,
    spec_binary_rest, spec_call, spec_call_rest, spec_expression, spec_operand, spec_primary,
    spec_unary, well_formed, Outcome, spec_print_statement, spec_expression_statement,
    spec_return_statement, spec_var_declaration, spec_for_clauses, spec_statement,
    spec_block_items, spec_parameters, spec_parameter_items, spec_function, spec_declaration,
    spec_synchronize, spec_skip_to_boundary, spec_program, error_at, Error,
};
use crate::token::{Token, TokenKind};
use vstd::prelude::*;

verus! {

/// `r` consumed at least one token from `p` and stopped before the end
/// marker, or failed at a token at or after `p`.
pub open spec fn moves<T>(r: Outcome<T>, p: int, len: int) -> bool {
    match r {
        Ok((_, q)) => p < q < len,
        Err((at, _)) => p <= at < len,
    }
}

proof fn lemma_end_is_last(t: Seq<Token>, p: int)
    requires
        well_formed(t),
        0 <= p < t.len(),
        t[p].kind != TokenKind::Eof,
    ensures
        p + 1 < t.len(),
{
}

proof fn lemma_expression(t: Seq<Token>, p: int)
    requires
        well_formed(t),
        0 <= p < t.len(),
    ensures
        moves(spec_expression(t, p), p, t.len() as int),
    decreases t.len() - p, 30int,
{
    lemma_binary(t, p, 0);
    match spec_binary(t, p, 0) {
        Ok((e, q)) => {
            if t[q].kind == TokenKind::Equal {
                lemma_end_is_last(t, q);
                if e is Variable {
                    lemma_expression(t, q + 1);
                }
            }
        },
        Err(_) => {},
    }
}

proof fn lemma_binary(t: Seq<Token>, p: int, lvl: int)
    requires
        well_formed(t),
        0 <= p < t.len(),
        0 <= lvl <= 5,
    ensures
        moves(spec_binary(t, p, lvl), p, t.len() as int),
    decreases t.len() - p, 20 - 2 * lvl,
{
    lemma_operand(t, p, lvl);
    match spec_operand(t, p, lvl) {
        Ok((e, q)) => {
            lemma_binary_rest(t, q, lvl, e);
        },
        Err(_) => {},
    }
}

proof fn lemma_binary_rest(t: Seq<Token>, q: int, lvl: int, left: Expr)
    requires
        well_formed(t),
        0 <= q < t.len(),
        0 <= lvl <= 5,
    ensures
        match spec_binary_rest(t, q, lvl, left) {
            Ok((_, r)) => q <= r < t.len(),
            Err((at, _)) => q <= at < t.len(),
        },
    decreases t.len() - q, 0int,
{
    if is_level_op(t[q].kind, lvl) {
        lemma_end_is_last(t, q);
        lemma_operand(t, q + 1, lvl);
        match spec_operand(t, q + 1, lvl) {
            Ok((r, q2)) => {
                lemma_binary_rest(t, q2, lvl, combine(lvl, t[q], left, r));
            },
            Err(_) => {},
        }
    }
}

proof fn lemma_operand(t: Seq<Token>, p: int, lvl: int)
    requires
        well_formed(t),
        0 <= p < t.len(),
        0 <= lvl <= 5,
    ensures
        moves(spec_operand(t, p, lvl), p, t.len() as int),
    decreases t.len() - p, 19 - 2 * lvl,
{
    if lvl == 5 {
        lemma_unary(t, p);
    } else {
        lemma_binary(t, p, lvl + 1);
    }
}

proof fn lemma_unary(t: Seq<Token>, p: int)
    requires
        well_formed(t),
        0 <= p < t.len(),
    ensures
        moves(spec_unary(t, p), p, t.len() as int),
    decreases t.len() - p, 4int,
{
    if t[p].kind == TokenKind::Bang || t[p].kind == TokenKind::Minus {
        lemma_end_is_last(t, p);
        lemma_unary(t, p + 1);
    } else {
        lemma_call(t, p);
    }
}

proof fn lemma_call(t: Seq<Token>, p: int)
    requires
        well_formed(t),
        0 <= p < t.len(),
    ensures
        moves(spec_call(t, p), p, t.len() as int),
    decreases t.len() - p, 3int,
{
    lemma_primary(t, p);
    match spec_primary(t, p) {
        Ok((e, q)) => {
            lemma_call_rest(t, q, e);
        },
        Err(_) => {},
    }
}

proof fn lemma_call_rest(t: Seq<Token>, q: int, callee: Expr)
    requires
        well_formed(t),
        0 <= q < t.len(),
    ensures
        match spec_call_rest(t, q, callee) {
            Ok((_, r)) => q <= r < t.len(),
            Err((at, _)) => q <= at < t.len(),
        },
    decreases t.len() - q, 0int,
{
    if t[q].kind == TokenKind::LeftParen {
        lemma_end_is_last(t, q);
        lemma_arguments(t, q + 1);
        match spec_arguments(t, q + 1) {
            Ok((args, r)) => {
                lemma_call_rest(t, r, Expr::Call(Box::new(callee), t[r - 1], args));
            },
            Err(_) => {},
        }
    }
}

proof fn lemma_arguments(t: Seq<Token>, p: int)
    requires
        well_formed(t),
        0 <= p < t.len(),
    ensures
        moves(spec_arguments(t, p), p, t.len() as int),
    decreases t.len() - p, 32int,
{
    if t[p].kind == TokenKind::RightParen {
        lemma_end_is_last(t, p);
    } else {
        lemma_argument_items(t, p);
    }
}

proof fn lemma_argument_items(t: Seq<Token>, p: int)
    requires
        well_formed(t),
        0 <= p < t.len(),
    ensures
        moves(spec_argument_items(t, p), p, t.len() as int),
    decreases t.len() - p, 31int,
{
    lemma_expression(t, p);
    match spec_expression(t, p) {
        Ok((e, q)) => {
            if t[q].kind == TokenKind::Comma {
                lemma_end_is_last(t, q);
                lemma_argument_items(t, q + 1);
            } else if t[q].kind == TokenKind::RightParen {
                lemma_end_is_last(t, q);
            }
        },
        Err(_) => {},
    }
}

proof fn lemma_primary(t: Seq<Token>, p: int)
    requires
        well_formed(t),
        0 <= p < t.len(),
    ensures
        moves(spec_primary(t, p), p, t.len() as int),
    decreases t.len() - p, 2int,
{
    if t[p].kind != TokenKind::Eof {
        lemma_end_is_last(t, p);
    }
    if t[p].kind == TokenKind::LeftParen {
        lemma_expression(t, p + 1);
        match spec_expression(t, p + 1) {
            Ok((e, q)) => {
                if t[q].kind == TokenKind::RightParen {
                    lemma_end_is_last(t, q);
                }
            },
            Err(_) => {},
        }
    }
}

proof fn lemma_terminated_expression(t: Seq<Token>, p: int, k: TokenKind)
    requires
        well_formed(t),
        0 <= p < t.len(),
        k != TokenKind::Eof,
    ensures
        moves(spec_expression(t, p), p, t.len() as int),
        match spec_expression(t, p) {
            Ok((_, q)) => kind_at(t, q) == k ==> q + 1 < t.len(),
            Err(_) => true,
        },
{
    lemma_expression(t, p);
    match spec_expression(t, p) {
        Ok((_, q)) => {
            if kind_at(t, q) == k {
                lemma_end_is_last(t, q);
            }
        },
        Err(_) => {},
    }
}

proof fn lemma_simple_statements(t: Seq<Token>, p: int)
    requires
        well_formed(t),
        0 <= p < t.len(),
    ensures
        moves(spec_expression_statement(t, p), p, t.len() as int),
        0 < p ==> moves(spec_print_statement(t, p), p, t.len() as int),
        0 < p ==> moves(spec_var_declaration(t, p), p, t.len() as int),
        t[p].kind == TokenKind::Return ==> moves(spec_return_statement(t, p), p, t.len() as int),
{
    lemma_terminated_expression(t, p, TokenKind::Semicolon);
    if t[p].kind != TokenKind::Eof {
        lemma_end_is_last(t, p);
        lemma_terminated_expression(t, p + 1, TokenKind::Semicolon);
        if t[p + 1].kind != TokenKind::Eof {
            lemma_end_is_last(t, p + 1);
            lemma_terminated_expression(t, p + 2, TokenKind::Semicolon);
        }
    }
}

proof fn lemma_for_clauses(t: Seq<Token>, p: int)
    requires
        well_formed(t),
        0 <= p < t.len(),
        t[p].kind == TokenKind::For,
    ensures
        moves(spec_for_clauses(t, p), p, t.len() as int),
{
    lemma_end_is_last(t, p);
    if t[p + 1].kind == TokenKind::LeftParen {
        lemma_end_is_last(t, p + 1);
        if t[p + 2].kind == TokenKind::Semicolon {
            lemma_end_is_last(t, p + 2);
        } else if t[p + 2].kind == TokenKind::Var {
            lemma_end_is_last(t, p + 2);
            lemma_simple_statements(t, p + 3);
        } else {
            lemma_simple_statements(t, p + 2);
        }
        let init: Outcome<Option<Stmt>> = if kind_at(t, p + 2) == TokenKind::Semicolon {
            Ok((None, p + 3))
        } else if kind_at(t, p + 2) == TokenKind::Var {
            match spec_var_declaration(t, p + 3) {
                Ok((s, q)) => Ok((Some(s), q)),
                Err(x) => Err(x),
            }
        } else {
            match spec_expression_statement(t, p + 2) {
                Ok((s, q)) => Ok((Some(s), q)),
                Err(x) => Err(x),
            }
        };
        match init {
            Ok((_, q)) => {
                if t[q].kind == TokenKind::Semicolon {
                    lemma_end_is_last(t, q);
                } else {
                    lemma_terminated_expression(t, q, TokenKind::Semicolon);
                }
                let cond: Outcome<Option<Expr>> = if kind_at(t, q) == TokenKind::Semicolon {
                    Ok((None, q + 1))
                } else {
                    match spec_expression(t, q) {
                        Err(x) => Err(x),
                        Ok((c, q2)) => if kind_at(t, q2) == TokenKind::Semicolon {
                            Ok((Some(c), q2 + 1))
                        } else {
                            Err((q2, ErrorKind::ExpectedSemicolonAfterLoopCondition))
                        },
                    }
                };
                match cond {
                    Ok((_, r)) => {
                        if t[r].kind == TokenKind::RightParen {
                            lemma_end_is_last(t, r);
                        } else {
                            lemma_terminated_expression(t, r, TokenKind::RightParen);
                        }
                    },
                    Err(_) => {},
                }
            },
            Err(_) => {},
        }
    }
}

proof fn lemma_statement(t: Seq<Token>, p: int)
    requires
        well_formed(t),
        0 <= p < t.len(),
    ensures
        moves(spec_statement(t, p), p, t.len() as int),
    decreases t.len() - p, 1int,
{
    lemma_simple_statements(t, p);
    let k = t[p].kind;
    if k != TokenKind::Eof {
        lemma_end_is_last(t, p);
        lemma_simple_statements(t, p + 1);
    }
    if k == TokenKind::LeftBrace {
        lemma_block_items(t, p + 1);
    } else if k == TokenKind::For {
        lemma_for_clauses(t, p);
        match spec_for_clauses(t, p) {
            Ok((_, b)) => {
                lemma_statement(t, b);
            },
            Err(_) => {},
        }
    } else if k == TokenKind::If || k == TokenKind::While {
        if t[p + 1].kind == TokenKind::LeftParen {
            lemma_end_is_last(t, p + 1);
            lemma_terminated_expression(t, p + 2, TokenKind::RightParen);
            match spec_expression(t, p + 2) {
                Ok((c, q)) => {
                    if t[q].kind == TokenKind::RightParen {
                        lemma_statement(t, q + 1);
                        match spec_statement(t, q + 1) {
                            Ok((body, r)) => {
                                if t[r].kind == TokenKind::Else {
                                    lemma_end_is_last(t, r);
                                    lemma_statement(t, r + 1);
                                }
                            },
                            Err(_) => {},
                        }
                    }
                },
                Err(_) => {},
            }
        }
    }
}

proof fn lemma_block_items(t: Seq<Token>, q: int)
    requires
        well_formed(t),
        0 <= q < t.len(),
    ensures
        moves(spec_block_items(t, q), q, t.len() as int),
    decreases t.len() - q, 3int,
{
    if t[q].kind == TokenKind::RightBrace {
        lemma_end_is_last(t, q);
    } else if t[q].kind != TokenKind::Eof {
        lemma_declaration(t, q);
        match spec_declaration(t, q) {
            Ok((s, r)) => {
                lemma_block_items(t, r);
            },
            Err(_) => {},
        }
    }
}

proof fn lemma_parameter_items(t: Seq<Token>, p: int)
    requires
        well_formed(t),
        0 <= p < t.len(),
    ensures
        moves(spec_parameter_items(t, p), p, t.len() as int),
    decreases t.len() - p,
{
    if t[p].kind == TokenKind::Identifier {
        lemma_end_is_last(t, p);
        if t[p + 1].kind == TokenKind::Comma {
            lemma_end_is_last(t, p + 1);
            lemma_parameter_items(t, p + 2);
        } else if t[p + 1].kind == TokenKind::RightParen {
            lemma_end_is_last(t, p + 1);
        }
    }
}

proof fn lemma_function(t: Seq<Token>, p: int)
    requires
        well_formed(t),
        0 <= p < t.len(),
    ensures
        moves(spec_function(t, p), p, t.len() as int),
    decreases t.len() - p, 0int,
{
    if t[p].kind == TokenKind::Identifier {
        lemma_end_is_last(t, p);
        if t[p + 1].kind == TokenKind::LeftParen {
            lemma_end_is_last(t, p + 1);
            if t[p + 2].kind == TokenKind::RightParen {
                lemma_end_is_last(t, p + 2);
            } else {
                lemma_parameter_items(t, p + 2);
            }
            match spec_parameters(t, p + 2) {
                Ok((params, q)) => {
                    if t[q].kind == TokenKind::LeftBrace {
                        lemma_end_is_last(t, q);
                        lemma_block_items(t, q + 1);
                    }
                },
                Err(_) => {},
            }
        }
    }
}

proof fn lemma_declaration(t: Seq<Token>, p: int)
    requires
        well_formed(t),
        0 <= p < t.len(),
    ensures
        moves(spec_declaration(t, p), p, t.len() as int),
    decreases t.len() - p, 2int,
{
    if t[p].kind == TokenKind::Var {
        lemma_end_is_last(t, p);
        lemma_simple_statements(t, p + 1);
    } else if t[p].kind == TokenKind::Fun {
        lemma_end_is_last(t, p);
        lemma_function(t, p + 1);
    } else {
        lemma_statement(t, p);
    }
}

proof fn lemma_skip_to_boundary(t: Seq<Token>, q: int)
    requires
        well_formed(t),
        0 < q < t.len(),
    ensures
        q <= spec_skip_to_boundary(t, q) < t.len(),
        at_boundary(t, spec_skip_to_boundary(t, q)),
    decreases t.len() - q,
{
    if !at_boundary(t, q) {
        lemma_end_is_last(t, q);
        lemma_skip_to_boundary(t, q + 1);
    }
}

/// Recovery from an error at `at` stops at a boundary where parsing may
/// resume, never before `at`, and past `at` unless `at` ends the input.
pub proof fn lemma_synchronize(t: Seq<Token>, at: int)
    requires
        well_formed(t),
        0 <= at < t.len(),
    ensures
        at <= spec_synchronize(t, at) < t.len(),
        t[at].kind != TokenKind::Eof ==> at < spec_synchronize(t, at),
        at_boundary(t, spec_synchronize(t, at)),
{
    if t[at].kind != TokenKind::Eof {
        lemma_end_is_last(t, at);
        lemma_skip_to_boundary(t, at + 1);
    }
}

/// Recovery confines a malformed declaration to one error: parsing a
/// program from a declaration that does not parse reports exactly that
/// declaration's error, adds no statement for it, and then goes on exactly
/// as parsing from where recovery stops; a declaration that parses adds
/// its statement and no error. So a program with two malformed declarations
/// around a valid one yields two errors and the valid one's statement.
pub proof fn lemma_recovery_isolates_errors(t: Seq<Token>, p: int)
    requires
        well_formed(t),
        0 <= p < t.len(),
        t[p].kind != TokenKind::Eof,
    ensures
        match spec_declaration(t, p) {
            Ok((s, q)) => {
                &&& p < q < t.len()
                &&& spec_program(t, p).0 == seq![s] + spec_program(t, q).0
                &&& spec_program(t, p).1 == spec_program(t, q).1
            },
            Err((at, k)) => {
                let r = spec_synchronize(t, at);
                &&& p < r < t.len()
                &&& spec_program(t, p).0 == spec_program(t, r).0
                &&& spec_program(t, p).1 == seq![error_at(t, at, k)] + spec_program(t, r).1
            },
        },
{
    lemma_declaration(t, p);
    match spec_declaration(t, p) {
        Ok(_) => {},
        Err((at, k)) => {
            lemma_synchronize(t, at);
        },
    }
}

/// Two malformed declarations around a valid one: when the declaration at
/// `p` fails, recovery from its error resumes at `q`, the declaration at `q`
/// parses and ends at `r`, the declaration at `r` fails, and recovery from
/// that error reaches the end of the input, then the program from `p` is
/// exactly the valid declaration's statement, with exactly the two errors,
/// in order, and none for the valid declaration.
pub proof fn lemma_two_malformed_around_valid(t: Seq<Token>, p: int, q: int, r: int)
    requires
        well_formed(t),
        0 <= p < t.len(),
        t[p].kind != TokenKind::Eof,
        spec_declaration(t, p) is Err,
        spec_synchronize(t, spec_declaration(t, p)->Err_0.0) == q,
        0 <= q < t.len(),
        t[q].kind != TokenKind::Eof,
        spec_declaration(t, q) matches Ok((_, e)) && e == r,
        0 <= r < t.len(),
        t[r].kind != TokenKind::Eof,
        spec_declaration(t, r) is Err,
        kind_at(t, spec_synchronize(t, spec_declaration(t, r)->Err_0.0)) == TokenKind::Eof,
    ensures
        ({
            let (at1, k1) = spec_declaration(t, p)->Err_0;
            let (at2, k2) = spec_declaration(t, r)->Err_0;
            let v = spec_declaration(t, q)->Ok_0.0;
            &&& spec_program(t, p).0 == seq![v]
            &&& spec_program(t, p).1 == seq![error_at(t, at1, k1), error_at(t, at2, k2)]
        }),
{
    lemma_recovery_isolates_errors(t, p);
    lemma_recovery_isolates_errors(t, q);
    lemma_recovery_isolates_errors(t, r);
    let (at1, k1) = spec_declaration(t, p)->Err_0;
    let (at2, k2) = spec_declaration(t, r)->Err_0;
    let v = spec_declaration(t, q)->Ok_0.0;
    let end = spec_synchronize(t, at2);
    assert(spec_program(t, end).0 == Seq::<Stmt>::empty());
    assert(spec_program(t, end).1 == Seq::<Error>::empty());
    assert(spec_program(t, p).0 =~= seq![v]);
    assert(spec_program(t, p).1 =~= seq![error_at(t, at1, k1), error_at(t, at2, k2)]);
}

/// An `if` statement takes the statement after its condition as its then
/// branch; an `else` right after that branch gives the else branch, and
/// without one there is none. The then branch is parsed first, so an
/// `else` is taken by the nearest `if` that can still take it.
pub proof fn lemma_if_statement(t: Seq<Token>, p: int)
    requires
        well_formed(t),
        0 <= p < t.len(),
        t[p].kind == TokenKind::If,
        kind_at(t, p + 1) == TokenKind::LeftParen,
        spec_expression(t, p + 2) matches Ok((_, q)) && kind_at(t, q) == TokenKind::RightParen,
        spec_statement(t, spec_expression(t, p + 2)->Ok_0.1 + 1) is Ok,
    ensures
        ({
            let (c, q) = spec_expression(t, p + 2)->Ok_0;
            let (s1, r) = spec_statement(t, q + 1)->Ok_0;
            if kind_at(t, r) == TokenKind::Else {
                match spec_statement(t, r + 1) {
                    Ok((s2, r2)) => spec_statement(t, p) == Ok::<(Stmt, int), (int, ErrorKind)>(
                        (
                            Stmt::If {
                                cond: c,
                                then_branch: Box::new(s1),
                                else_branch: Some(Box::new(s2)),
                            },
                            r2,
                        ),
                    ),
                    Err(x) => spec_statement(t, p) == Err::<(Stmt, int), (int, ErrorKind)>(x),
                }
            } else {
                spec_statement(t, p) == Ok::<(Stmt, int), (int, ErrorKind)>(
                    (Stmt::If { cond: c, then_branch: Box::new(s1), else_branch: None }, r),
                )
            }
        }),
{
    lemma_end_is_last(t, p);
    lemma_end_is_last(t, p + 1);
    lemma_expression(t, p + 2);
    let (c, q) = spec_expression(t, p + 2)->Ok_0;
    lemma_end_is_last(t, q);
    lemma_statement(t, q + 1);
}

} // verus!
