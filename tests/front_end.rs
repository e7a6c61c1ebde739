use unlox::lexer::lex;
use unlox::{parse, Error, ErrorKind, Expr, List, Lit, Stmt, Token, TokenKind};

fn tokens(src: &str) -> Vec<Token> {
    lex(src)
}

fn program(src: &str) -> (Vec<Stmt>, Vec<Error>) {
    parse(&lex(src))
}

fn parse_ok(src: &str) -> Vec<Stmt> {
    let (stmts, errors) = program(src);
    assert!(errors.is_empty(), "unexpected errors: {:?}", errors);
    stmts
}

fn kinds(src: &str) -> Vec<TokenKind> {
    tokens(src).iter().map(|t| t.kind).collect()
}

fn items<T>(list: &List<T>) -> Vec<&T> {
    let mut out = Vec::new();
    let mut cur = list;
    while let List::Cons(first, rest) = cur {
        out.push(&**first);
        cur = &**rest;
    }
    out
}

fn number(e: &Expr) -> &str {
    match e {
        Expr::Literal(Lit::Number(n)) => n.as_str(),
        other => panic!("not a number literal: {:?}", other),
    }
}

fn binary(e: &Expr) -> (TokenKind, &Expr, &Expr) {
    match e {
        Expr::Binary(op, l, r) => (op.kind, &**l, &**r),
        other => panic!("not a binary expression: {:?}", other),
    }
}

fn printed(s: &Stmt) -> &Expr {
    match s {
        Stmt::Print(e) => e,
        other => panic!("not a print statement: {:?}", other),
    }
}

#[test]
fn empty_source_gives_only_end_of_input() {
    let ts = tokens("");
    assert_eq!(ts.len(), 1);
    assert_eq!(ts[0].kind, TokenKind::Eof);
    assert_eq!(ts[0].line, 1);
    let (stmts, errors) = program("");
    assert!(stmts.is_empty());
    assert!(errors.is_empty());
}

#[test]
fn lexer_prefers_two_character_operators() {
    assert_eq!(
        kinds("! != = == < <= > >="),
        vec![
            TokenKind::Bang,
            TokenKind::BangEqual,
            TokenKind::Equal,
            TokenKind::EqualEqual,
            TokenKind::Less,
            TokenKind::LessEqual,
            TokenKind::Greater,
            TokenKind::GreaterEqual,
            TokenKind::Eof,
        ]
    );
}

#[test]
fn lexer_tells_keywords_from_identifiers() {
    assert_eq!(
        kinds("and class else false for fun if nil or print return super this true var while"),
        vec![
            TokenKind::And,
            TokenKind::Class,
            TokenKind::Else,
            TokenKind::False,
            TokenKind::For,
            TokenKind::Fun,
            TokenKind::If,
            TokenKind::Nil,
            TokenKind::Or,
            TokenKind::Print,
            TokenKind::Return,
            TokenKind::Super,
            TokenKind::This,
            TokenKind::True,
            TokenKind::Var,
            TokenKind::While,
            TokenKind::Eof,
        ]
    );
    let ts = tokens("andy _x1 printer");
    assert_eq!(ts[0].kind, TokenKind::Identifier);
    assert_eq!(ts[0].lexeme, "andy");
    assert_eq!(ts[1].lexeme, "_x1");
    assert_eq!(ts[2].kind, TokenKind::Identifier);
}

#[test]
fn lexer_reads_integer_and_decimal_numbers() {
    let ts = tokens("12.5 7 3.");
    assert_eq!(ts[0].kind, TokenKind::Number);
    assert_eq!(ts[0].lexeme, "12.5");
    assert_eq!(ts[1].lexeme, "7");
    assert_eq!(ts[2].kind, TokenKind::Number);
    assert_eq!(ts[2].lexeme, "3");
    assert_eq!(ts[3].kind, TokenKind::Dot);
    assert_eq!(ts[4].kind, TokenKind::Eof);
}

#[test]
fn lexer_skips_comments_and_counts_lines() {
    let ts = tokens("a // note\n\"x\ny\" b\n\nc");
    assert_eq!(ts[0].line, 1);
    assert_eq!(ts[1].kind, TokenKind::Str);
    assert_eq!(ts[1].lexeme, "x\ny");
    assert_eq!(ts[1].line, 2);
    assert_eq!(ts[2].lexeme, "b");
    assert_eq!(ts[2].line, 3);
    assert_eq!(ts[3].lexeme, "c");
    assert_eq!(ts[3].line, 5);
    assert_eq!(ts[4].kind, TokenKind::Eof);
    assert_eq!(ts[4].line, 5);
}

#[test]
fn unterminated_string_is_flagged_not_dropped() {
    let ts = tokens("print \"abc");
    assert_eq!(ts[1].kind, TokenKind::UnterminatedStr);
    assert_eq!(ts[1].lexeme, "abc");
    assert_eq!(ts.len(), 3);
    let (stmts, errors) = program("print \"abc");
    assert!(stmts.is_empty());
    assert_eq!(errors.len(), 1);
    assert_eq!(errors[0].kind, ErrorKind::UnterminatedString);
    assert_eq!(errors[0].message(), "Unterminated string.");
}

#[test]
fn multiplication_binds_tighter_than_addition() {
    let stmts = parse_ok("print 2 + 2 * 2;");
    assert_eq!(stmts.len(), 1);
    let (op, l, r) = binary(printed(&stmts[0]));
    assert_eq!(op, TokenKind::Plus);
    assert_eq!(number(l), "2");
    let (op2, l2, r2) = binary(r);
    assert_eq!(op2, TokenKind::Star);
    assert_eq!(number(l2), "2");
    assert_eq!(number(r2), "2");
}

#[test]
fn grouping_overrides_precedence() {
    let stmts = parse_ok("print (2 + 2) * 2;");
    let (op, l, r) = binary(printed(&stmts[0]));
    assert_eq!(op, TokenKind::Star);
    assert_eq!(number(r), "2");
    match l {
        Expr::Grouping(inner) => assert_eq!(binary(inner).0, TokenKind::Plus),
        other => panic!("expected a grouping: {:?}", other),
    }
}

#[test]
fn binary_operators_associate_left() {
    let stmts = parse_ok("1 - 2 - 3;");
    let e = match &stmts[0] {
        Stmt::Expression(e) => e,
        other => panic!("{:?}", other),
    };
    let (op, l, r) = binary(e);
    assert_eq!(op, TokenKind::Minus);
    assert_eq!(number(r), "3");
    let (_, ll, lr) = binary(l);
    assert_eq!(number(ll), "1");
    assert_eq!(number(lr), "2");
}

#[test]
fn or_parses_as_short_circuit() {
    let stmts = parse_ok("print \"hi\" or 2;\nprint nil or \"yes\";");
    assert_eq!(stmts.len(), 2);
    match printed(&stmts[0]) {
        Expr::Logical(op, l, r) => {
            assert_eq!(op.kind, TokenKind::Or);
            assert!(matches!(&**l, Expr::Literal(Lit::Str(s)) if s == "hi"));
            assert_eq!(number(r), "2");
        }
        other => panic!("{:?}", other),
    }
    match printed(&stmts[1]) {
        Expr::Logical(_, l, _) => assert!(matches!(&**l, Expr::Literal(Lit::Nil))),
        other => panic!("{:?}", other),
    }
}

#[test]
fn and_binds_tighter_than_or() {
    let stmts = parse_ok("a or b and c;");
    match &stmts[0] {
        Stmt::Expression(Expr::Logical(op, _, r)) => {
            assert_eq!(op.kind, TokenKind::Or);
            assert!(matches!(&**r, Expr::Logical(t, _, _) if t.kind == TokenKind::And));
        }
        other => panic!("{:?}", other),
    }
}

#[test]
fn if_else_in_block_and_single_statement_forms() {
    let code = r#"
        if (true) {
            print true;
        } else {
            print false;
        }

        if (true) print true; else print false;

        if (false) print 1;
    "#;
    let stmts = parse_ok(code);
    assert_eq!(stmts.len(), 3);
    match &stmts[0] {
        Stmt::If { cond, then_branch, else_branch } => {
            assert!(matches!(cond, Expr::Literal(Lit::Bool(true))));
            assert!(matches!(&**then_branch, Stmt::Block(_)));
            assert!(matches!(else_branch.as_deref(), Some(Stmt::Block(_))));
        }
        other => panic!("{:?}", other),
    }
    match &stmts[1] {
        Stmt::If { then_branch, else_branch, .. } => {
            assert!(matches!(&**then_branch, Stmt::Print(_)));
            assert!(matches!(else_branch.as_deref(), Some(Stmt::Print(_))));
        }
        other => panic!("{:?}", other),
    }
    assert!(matches!(&stmts[2], Stmt::If { else_branch: None, .. }));
}

#[test]
fn while_loop_with_block_body() {
    let code = r#"
        var n = 3;
        while (n > 0) {
            print n;
            n = n - 1;
        }
    "#;
    let stmts = parse_ok(code);
    assert_eq!(stmts.len(), 2);
    assert!(matches!(&stmts[0], Stmt::VarDecl { init: Some(_), .. }));
    match &stmts[1] {
        Stmt::While { cond, body } => {
            assert_eq!(binary(cond).0, TokenKind::Greater);
            match &**body {
                Stmt::Block(list) => {
                    let body = items(list);
                    assert_eq!(body.len(), 2);
                    assert_eq!(list.len(), 2);
                    assert!(matches!(body[1], Stmt::Expression(Expr::Assign(name, _)) if name.lexeme == "n"));
                }
                other => panic!("{:?}", other),
            }
        }
        other => panic!("{:?}", other),
    }
}

#[test]
fn for_loop_becomes_while_loop() {
    let code = r#"
        var a = 0;
        var temp;

        for (var b = 1; a < 100; b = temp + b) {
            print a;
            temp = a;
            a = b;
        }
    "#;
    let stmts = parse_ok(code);
    assert_eq!(stmts.len(), 3);
    assert!(matches!(&stmts[1], Stmt::VarDecl { init: None, .. }));
    let outer = match &stmts[2] {
        Stmt::Block(list) => items(list),
        other => panic!("{:?}", other),
    };
    assert_eq!(outer.len(), 2);
    assert!(matches!(outer[0], Stmt::VarDecl { name, .. } if name.lexeme == "b"));
    match outer[1] {
        Stmt::While { cond, body } => {
            assert_eq!(binary(cond).0, TokenKind::Less);
            let inner = match &**body {
                Stmt::Block(list) => items(list),
                other => panic!("{:?}", other),
            };
            assert_eq!(inner.len(), 2);
            assert!(matches!(inner[0], Stmt::Block(_)));
            assert!(matches!(inner[1], Stmt::Expression(Expr::Assign(name, _)) if name.lexeme == "b"));
        }
        other => panic!("{:?}", other),
    }
}

#[test]
fn for_loop_without_clauses_loops_on_true() {
    let stmts = parse_ok("for (;;) print 1;");
    match &stmts[0] {
        Stmt::While { cond, body } => {
            assert!(matches!(cond, Expr::Literal(Lit::Bool(true))));
            assert!(matches!(&**body, Stmt::Print(_)));
        }
        other => panic!("{:?}", other),
    }
}

#[test]
fn function_declaration_and_call() {
    let code = r#"
        fun sayHi(first, last) {
            print "Hi, " + first + " " + last + "!";
        }

        sayHi("Dear", "Reader");
    "#;
    let stmts = parse_ok(code);
    assert_eq!(stmts.len(), 2);
    match &stmts[0] {
        Stmt::Function { name, params, body } => {
            assert_eq!(name.lexeme, "sayHi");
            let ps: Vec<&str> = items(params).iter().map(|t| t.lexeme.as_str()).collect();
            assert_eq!(ps, vec!["first", "last"]);
            assert_eq!(body.len(), 1);
        }
        other => panic!("{:?}", other),
    }
    match &stmts[1] {
        Stmt::Expression(Expr::Call(callee, paren, args)) => {
            assert!(matches!(&**callee, Expr::Variable(t) if t.lexeme == "sayHi"));
            assert_eq!(paren.kind, TokenKind::RightParen);
            assert_eq!(args.len(), 2);
        }
        other => panic!("{:?}", other),
    }
}

#[test]
fn recursive_function_with_return() {
    let code = r#"
        fun fibonacci(n) {
            if (n <= 1) return n;
            return fibonacci(n - 2) + fibonacci(n - 1);
        }

        print fibonacci(12);
    "#;
    let stmts = parse_ok(code);
    assert_eq!(stmts.len(), 2);
    match &stmts[0] {
        Stmt::Function { params, body, .. } => {
            assert_eq!(params.len(), 1);
            let body = items(body);
            assert!(matches!(body[0], Stmt::If { then_branch, .. } if matches!(&**then_branch, Stmt::Return { value: Some(_), .. })));
            assert!(matches!(body[1], Stmt::Return { value: Some(Expr::Binary(..)), .. }));
        }
        other => panic!("{:?}", other),
    }
    assert!(matches!(printed(&stmts[1]), Expr::Call(..)));
}

#[test]
fn nested_function_keeps_source_lines() {
    let code = r#"
        var a = 1;

        fun main() {
            var b = 2;

            fun nested() {
                print a;
                print b;
            }

            nested();
        }
        main();
    "#;
    let stmts = parse_ok(code);
    assert_eq!(stmts.len(), 3);
    let main_body = match &stmts[1] {
        Stmt::Function { body, .. } => items(body),
        other => panic!("{:?}", other),
    };
    let nested_body = match main_body[1] {
        Stmt::Function { body, .. } => items(body),
        other => panic!("{:?}", other),
    };
    match printed(nested_body[1]) {
        Expr::Variable(token) => {
            assert_eq!(token.lexeme, "b");
            assert_eq!(token.kind, TokenKind::Identifier);
            assert_eq!(token.line, 9);
        }
        other => panic!("{:?}", other),
    }
}

#[test]
fn two_malformed_statements_give_two_errors() {
    let (stmts, errors) = program("print 1 +;\nprint 2;\nvar = 3;");
    assert_eq!(stmts.len(), 1);
    assert_eq!(number(printed(&stmts[0])), "2");
    assert_eq!(errors.len(), 2);
    assert_eq!(errors[0].kind, ErrorKind::ExpectedExpression);
    assert_eq!(errors[0].line(), 1);
    assert_eq!(errors[1].kind, ErrorKind::ExpectedVariableName);
    assert_eq!(errors[1].token.line, 3);
    assert_eq!(errors[1].message(), "Expected variable name.");
}

#[test]
fn recovery_resumes_at_statement_keyword() {
    let (stmts, errors) = program("1 + ) 2 print 3;");
    assert_eq!(errors.len(), 1);
    assert_eq!(errors[0].token.kind, TokenKind::RightParen);
    assert_eq!(stmts.len(), 1);
    assert!(matches!(&stmts[0], Stmt::Print(_)));
}

#[test]
fn parsing_twice_gives_the_same_program() {
    let code = "var x = 1; fun f(a) { return a * x; } print f(2) == 2 or !false;";
    let first = program(code);
    let second = program(code);
    assert_eq!(format!("{:?}", first), format!("{:?}", second));
    assert!(first.1.is_empty());
}

#[test]
fn assignment_to_non_variable_is_rejected() {
    let (stmts, errors) = program("1 = 2;");
    assert!(stmts.is_empty());
    assert_eq!(errors[0].kind, ErrorKind::InvalidAssignmentTarget);
    assert_eq!(errors[0].token.kind, TokenKind::Equal);
}

#[test]
fn each_error_kind_has_an_input() {
    let cases: Vec<(&str, ErrorKind)> = vec![
        ("print ;", ErrorKind::ExpectedExpression),
        ("print", ErrorKind::UnexpectedEof),
        ("print \"a", ErrorKind::UnterminatedString),
        ("print (1;", ErrorKind::ExpectedRightParen),
        ("print 1", ErrorKind::ExpectedSemicolonAfterValue),
        ("1 2", ErrorKind::ExpectedSemicolonAfterExpression),
        ("var a = 1", ErrorKind::ExpectedSemicolonAfterDeclaration),
        ("var a 1;", ErrorKind::ExpectedSemicolonAfterDeclaration),
        ("var 1;", ErrorKind::ExpectedVariableName),
        ("a + b = 1;", ErrorKind::InvalidAssignmentTarget),
        ("if true print 1;", ErrorKind::ExpectedLeftParenAfterIf),
        ("while true print 1;", ErrorKind::ExpectedLeftParenAfterWhile),
        ("if (true print 1;", ErrorKind::ExpectedRightParenAfterCondition),
        ("f(1, 2;", ErrorKind::ExpectedRightParenAfterArguments),
        ("{ print 1;", ErrorKind::ExpectedRightBrace),
        ("for var i = 0;", ErrorKind::ExpectedLeftParenAfterFor),
        ("for (;true print 1;", ErrorKind::ExpectedSemicolonAfterLoopCondition),
        ("for (;;i = i + 1 print 1;", ErrorKind::ExpectedRightParenAfterForClauses),
        ("fun f() { return 1 }", ErrorKind::ExpectedSemicolonAfterReturn),
        ("fun (a) {}", ErrorKind::ExpectedFunctionName),
        ("fun f a) {}", ErrorKind::ExpectedLeftParenAfterFunctionName),
        ("fun f(a, 1) {}", ErrorKind::ExpectedParameterName),
        ("fun f(a b) {}", ErrorKind::ExpectedRightParenAfterParameters),
        ("fun f(a) print a;", ErrorKind::ExpectedLeftBraceBeforeBody),
    ];
    for (src, kind) in cases {
        let (_, errors) = program(src);
        assert!(!errors.is_empty(), "no error for {:?}", src);
        assert_eq!(errors[0].kind, kind, "for {:?}", src);
        assert!(!errors[0].message().is_empty());
    }
}

#[test]
fn error_points_at_offending_token() {
    let (_, errors) = program("var x = 1\nprint x;");
    assert_eq!(errors.len(), 1);
    assert_eq!(errors[0].kind, ErrorKind::ExpectedSemicolonAfterDeclaration);
    assert_eq!(errors[0].token.kind, TokenKind::Print);
    assert_eq!(errors[0].token.line, 2);
    assert_eq!(errors[0].message(), "Expected ';' after variable declaration.");
}

#[test]
fn duplicate_copies_whole_program() {
    let stmts = parse_ok("fun f(a, b) { if (a) return b; else { print -a; } } for (var i = 0; i < 2; i = i + 1) f(i, nil);");
    let copies: Vec<Stmt> = stmts.iter().map(|s| s.duplicate()).collect();
    assert_eq!(format!("{:?}", stmts), format!("{:?}", copies));
    match &stmts[0] {
        Stmt::Function { body, .. } => {
            let copy = unlox::ast::duplicate_stmts(body);
            assert_eq!(format!("{:?}", body), format!("{:?}", copy));
        }
        other => panic!("{:?}", other),
    }
}

#[test]
fn missing_right_paren_message() {
    let (_, errors) = program("print (1;");
    assert_eq!(errors.len(), 1);
    assert_eq!(errors[0].kind, ErrorKind::ExpectedRightParen);
    assert_eq!(errors[0].token.kind, TokenKind::Semicolon);
    assert_eq!(errors[0].message(), r#"Expected ")" after expression."#);
}

#[test]
fn dangling_else_binds_to_nearest_if() {
    let stmts = parse_ok("if (a) if (b) print 1; else print 2;");
    assert_eq!(stmts.len(), 1);
    match &stmts[0] {
        Stmt::If { then_branch, else_branch: None, .. } => match &**then_branch {
            Stmt::If { else_branch: Some(other), .. } => assert!(matches!(&**other, Stmt::Print(_))),
            other => panic!("{:?}", other),
        },
        other => panic!("{:?}", other),
    }
}
