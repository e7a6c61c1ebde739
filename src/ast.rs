use crate::token::Token;
use vstd::prelude::*;

verus! {

/// A literal value as written in the source.
#[derive(Debug)]
pub enum Lit {
    Nil,
    Bool(bool),
    /// A number, kept as the digits of its literal.
    Number(String),
    Str(String),
}

/// An expression node; each node owns its children.
#[derive(Debug)]
pub enum Expr {
    Literal(Lit),
    Grouping(Box<Expr>),
    Unary(Token, Box<Expr>),
    Binary(Token, Box<Expr>, Box<Expr>),
    /// A short-circuit `and` / `or`.
    Logical(Token, Box<Expr>, Box<Expr>),
    Variable(Token),
    Assign(Token, Box<Expr>),
    /// A call: the callee, the closing parenthesis, the arguments.
    Call(Box<Expr>, Token, List<Expr>),
}

/// A sequence of owned nodes: empty, or a first node and the rest.
#[derive(Debug)]
pub enum List<T> {
    Empty,
    Cons(Box<T>, Box<List<T>>),
}

/// A statement node.
#[derive(Debug)]
pub enum Stmt {
    Expression(Expr),
    Print(Expr),
    VarDecl { name: Token, init: Option<Expr> },
    If { cond: Expr, then_branch: Box<Stmt>, else_branch: Option<Box<Stmt>> },
    While { cond: Expr, body: Box<Stmt> },
    Block(List<Stmt>),
    Function { name: Token, params: List<Token>, body: List<Stmt> },
    Return { keyword: Token, value: Option<Expr> },
}

impl<T> List<T> {
    /// The nodes in order.
    pub open spec fn items(self) -> Seq<T>
        decreases self,
    {
        match self {
            List::Empty => seq![],
            List::Cons(first, rest) => seq![*first] + rest.items(),
        }
    }

    /// The number of nodes.
    pub fn len(&self) -> (r: usize)
        requires
            self.items().len() <= usize::MAX,
        ensures
            r == self.items().len(),
        decreases self,
    {
        match self {
            List::Empty => 0,
            List::Cons(_, rest) => 1 + rest.len(),
        }
    }
}

impl Lit {
    /// A deep copy, equal to this literal.
    pub fn duplicate(&self) -> (r: Lit)
        ensures
            r == *self,
    {
        match self {
            Lit::Nil => Lit::Nil,
            Lit::Bool(b) => Lit::Bool(*b),
            Lit::Number(n) => Lit::Number(n.clone()),
            Lit::Str(s) => Lit::Str(s.clone()),
        }
    }
}

impl Expr {
    /// A deep copy, equal to this expression.
    pub fn duplicate(&self) -> (r: Expr)
        ensures
            r == *self,
        decreases self,
    {
        match self {
            Expr::Literal(l) => Expr::Literal(l.duplicate()),
            Expr::Grouping(e) => Expr::Grouping(Box::new(e.duplicate())),
            Expr::Unary(op, e) => Expr::Unary(op.duplicate(), Box::new(e.duplicate())),
            Expr::Binary(op, l, r) => Expr::Binary(
                op.duplicate(),
                Box::new(l.duplicate()),
                Box::new(r.duplicate()),
            ),
            Expr::Logical(op, l, r) => Expr::Logical(
                op.duplicate(),
                Box::new(l.duplicate()),
                Box::new(r.duplicate()),
            ),
            Expr::Variable(t) => Expr::Variable(t.duplicate()),
            Expr::Assign(t, e) => Expr::Assign(t.duplicate(), Box::new(e.duplicate())),
            Expr::Call(callee, paren, args) => Expr::Call(
                Box::new(callee.duplicate()),
                paren.duplicate(),
                duplicate_exprs(args),
            ),
        }
    }
}

/// A deep copy of a list of expressions.
pub fn duplicate_exprs(l: &List<Expr>) -> (r: List<Expr>)
    ensures
        r == *l,
    decreases l,
{
    match l {
        List::Empty => List::Empty,
        List::Cons(first, rest) => List::Cons(
            Box::new(first.duplicate()),
            Box::new(duplicate_exprs(rest)),
        ),
    }
}

/// A deep copy of a list of tokens.
pub fn duplicate_tokens(l: &List<Token>) -> (r: List<Token>)
    ensures
        r == *l,
    decreases l,
{
    match l {
        List::Empty => List::Empty,
        List::Cons(first, rest) => List::Cons(
            Box::new(first.duplicate()),
            Box::new(duplicate_tokens(rest)),
        ),
    }
}

fn duplicate_expr_option(e: &Option<Expr>) -> (r: Option<Expr>)
    ensures
        r == *e,
{
    match e {
        Some(e) => Some(e.duplicate()),
        None => None,
    }
}

impl Stmt {
    /// A deep copy, equal to this statement.
    pub fn duplicate(&self) -> (r: Stmt)
        ensures
            r == *self,
        decreases self,
    {
        match self {
            Stmt::Expression(e) => Stmt::Expression(e.duplicate()),
            Stmt::Print(e) => Stmt::Print(e.duplicate()),
            Stmt::VarDecl { name, init } => Stmt::VarDecl {
                name: name.duplicate(),
                init: duplicate_expr_option(init),
            },
            Stmt::If { cond, then_branch, else_branch } => Stmt::If {
                cond: cond.duplicate(),
                then_branch: Box::new(then_branch.duplicate()),
                else_branch: match else_branch {
                    Some(s) => Some(Box::new(s.duplicate())),
                    None => None,
                },
            },
            Stmt::While { cond, body } => Stmt::While {
                cond: cond.duplicate(),
                body: Box::new(body.duplicate()),
            },
            Stmt::Block(items) => Stmt::Block(duplicate_stmts(items)),
            Stmt::Function { name, params, body } => Stmt::Function {
                name: name.duplicate(),
                params: duplicate_tokens(params),
                body: duplicate_stmts(body),
            },
            Stmt::Return { keyword, value } => Stmt::Return {
                keyword: keyword.duplicate(),
                value: duplicate_expr_option(value),
            },
        }
    }
}

/// A deep copy of a list of statements.
pub fn duplicate_stmts(l: &List<Stmt>) -> (r: List<Stmt>)
    ensures
        r == *l,
    decreases l,
{
    match l {
        List::Empty => List::Empty,
        List::Cons(first, rest) => List::Cons(
            Box::new(first.duplicate()),
            Box::new(duplicate_stmts(rest)),
        ),
    }
}

} // verus!
