use bline::lexer::Lexer;
use bline::parser::Parser;
use bline::types::{ArrayAccess, Expression, LiteralTypes, Statement, TokenTypes, VarDeclarationKind, VariableTypes};
use bline::ErrorKind;

fn op(t: TokenTypes) -> String {
    t.text()
}

fn show_type(t: &VariableTypes) -> String {
    match t {
        VariableTypes::Int => "Int".to_string(),
        VariableTypes::Flo => "Flo".to_string(),
        VariableTypes::Str => "Str".to_string(),
        VariableTypes::Nul => "Nul".to_string(),
        VariableTypes::Boo => "Boo".to_string(),
        VariableTypes::Arr(inner) => format!("Arr<{}>", show_type(inner)),
    }
}

fn show_list(items: &Option<Box<Vec<Expression>>>) -> String {
    match items {
        None => "None".to_string(),
        Some(v) => v.iter().map(show).collect::<Vec<_>>().join(", "),
    }
}

fn show_access(a: &ArrayAccess) -> String {
    match a {
        ArrayAccess::Access { name, index } => format!("Access({}, {})", name, show(index)),
        ArrayAccess::NestedAccess { access, index } => format!("Nested({}, {})", show_access(access), show(index)),
    }
}

fn show(e: &Expression) -> String {
    match e {
        Expression::Identifier(n) => format!("Id({})", n),
        Expression::Binary { operator, left, right } => format!("Binary({}, {}, {})", op(*operator), show(left), show(right)),
        Expression::Logical { operator, left, right } => format!("Logical({}, {}, {})", op(*operator), show(left), show(right)),
        Expression::Unary { operator, operand } => format!("Unary({}, {})", op(*operator), show(operand)),
        Expression::Literal { literal_type, value } => {
            let kind = match literal_type {
                LiteralTypes::Numeric => "Numeric",
                LiteralTypes::String => "String",
                LiteralTypes::Boolean => "Boolean",
                LiteralTypes::Null => "Null",
            };
            format!("Literal({}, {})", kind, value)
        },
        Expression::ArrayLiteral { elements } => format!("Array[{}]", show_list(elements)),
        Expression::ArrayAccess(a) => show_access(a),
        Expression::Call { name, arguments } => format!("Call({}, [{}])", name, show_list(arguments)),
    }
}

fn show_block(b: &Option<Box<Vec<Statement>>>) -> String {
    match b {
        None => "None".to_string(),
        Some(v) => format!("[{}]", v.iter().map(show_stmt).collect::<Vec<_>>().join("; ")),
    }
}

fn show_stmt(s: &Statement) -> String {
    match s {
        Statement::Program { body, .. } => format!("Program[{}]", body.iter().map(show_stmt).collect::<Vec<_>>().join("; ")),
        Statement::VariableDeclaration { name, kind, var_type, value, .. } => format!(
            "Var({:?}, {}, {}, {})",
            kind,
            name.clone().unwrap_or_default(),
            var_type.as_ref().map(show_type).unwrap_or_default(),
            value.as_ref().map(show).unwrap_or_else(|| "None".to_string())
        ),
        Statement::FunctionDeclaration { name, var_type, params, body, .. } => format!(
            "Func({}, {}, {}, {})",
            name,
            show_type(var_type),
            match params {
                None => "None".to_string(),
                Some(ps) => ps.iter().map(|p| format!("{}: {}", p.name, show_type(&p.var_type))).collect::<Vec<_>>().join(", "),
            },
            show_block(body)
        ),
        Statement::If { condition, block, alternate, .. } => format!(
            "If({}, {}, {})",
            show(condition),
            show_block(block),
            alternate.as_ref().map(|a| show_stmt(a)).unwrap_or_else(|| "None".to_string())
        ),
        Statement::ElseIf { condition, block, alternate, .. } => format!(
            "ElseIf({}, {}, {})",
            show(condition),
            show_block(block),
            alternate.as_ref().map(|a| show_stmt(a)).unwrap_or_else(|| "None".to_string())
        ),
        Statement::Else { block, .. } => format!("Else({})", show_block(block)),
        Statement::While { test, block, .. } => format!("While({}, {})", show(test), show_block(block)),
        Statement::For { variable, test, variable_update, block, .. } => format!(
            "For({}, {}, {}, {})",
            variable.as_ref().map(|v| show_stmt(v)).unwrap_or_else(|| "None".to_string()),
            test.as_ref().map(show).unwrap_or_else(|| "None".to_string()),
            variable_update.as_ref().map(|v| show_stmt(v)).unwrap_or_else(|| "None".to_string()),
            show_block(block)
        ),
        Statement::Break { .. } => "Break".to_string(),
        Statement::Continue { .. } => "Continue".to_string(),
        Statement::Return { expression, .. } => format!("Return({})", expression.as_ref().map(show).unwrap_or_else(|| "None".to_string())),
        Statement::VariableAlteration { name, operator, value } => format!("Set({}, {}, {})", name, op(*operator), show(value)),
        Statement::FunctionCall(e) => format!("CallStmt({})", show(e)),
    }
}

fn parse(src: &str) -> Statement {
    let mut lexer = Lexer::new(src);
    assert!(lexer.scan_source_code().is_ok());
    let mut parser = Parser::new(lexer.token_list);
    let r = parser.parse_tokens();
    if let Err(e) = &r {
        panic!("unexpected error: {}", e.message);
    }
    parser.abstract_syntax_tree
}

fn parse_error(src: &str) -> (ErrorKind, u32, u32, String) {
    let mut lexer = Lexer::new(src);
    assert!(lexer.scan_source_code().is_ok());
    let mut parser = Parser::new(lexer.token_list);
    let e = parser.parse_tokens().unwrap_err();
    let start = e.start.expect("syntax errors carry a position");
    (e.kind, start.line, start.column, e.message)
}

fn body_of(src: &str) -> String {
    match parse(src) {
        Statement::Program { body, .. } => body.iter().map(show_stmt).collect::<Vec<_>>().join("; "),
        _ => panic!("not a program"),
    }
}

#[test]
fn scenario_function_with_return() {
    assert_eq!(body_of("func f(): Int { ret 1; };"), "Func(f, Int, None, [Return(Literal(Numeric, 1))])");
}

#[test]
fn precedence_of_multiplication_over_addition() {
    assert_eq!(
        body_of("func f(): Int { ret 1 + 2 * 3; };"),
        "Func(f, Int, None, [Return(Binary(+, Literal(Numeric, 1), Binary(*, Literal(Numeric, 2), Literal(Numeric, 3))))])"
    );
}

#[test]
fn precedence_levels_and_left_association() {
    assert_eq!(
        body_of("func f(): Boo { ret a - b - c < d | e & f == g; };"),
        "Func(f, Boo, None, [Return(Logical(|, Logical(<, Binary(-, Binary(-, Id(a), Id(b)), Id(c)), Id(d)), Logical(&, Id(e), Logical(==, Id(f), Id(g)))))])"
    );
}

#[test]
fn unary_and_parentheses() {
    assert_eq!(
        body_of("func f(): Int { ret -(1 + +2) * x == !y; };"),
        "Func(f, Int, None, [Return(Logical(==, Binary(*, Unary(-, Binary(+, Literal(Numeric, 1), Literal(Numeric, 2))), Id(x)), Unary(!, Id(y))))])"
    );
}

#[test]
fn calls_arrays_and_nested_access() {
    assert_eq!(
        body_of("func f(): Int { g(1, [2, 3], a[0][i]); ret h(); };"),
        "Func(f, Int, None, [CallStmt(Call(g, [Literal(Numeric, 1), Array[Literal(Numeric, 2), Literal(Numeric, 3)], Nested(Access(a, Literal(Numeric, 0)), Id(i))])); Return(Call(h, [None]))])"
    );
}

#[test]
fn declarations_and_mutations() {
    assert_eq!(
        body_of("func f(): Int { let a: Arr<Arr<Int>> = []; mut b: Str; b += \"x\"; };"),
        "Func(f, Int, None, [Var(Immutable, a, Arr<Arr<Int>>, Array[None]); Var(Mutable, b, Str, None); Set(b, +=, Literal(String, x))])"
    );
}

#[test]
fn parameters_and_empty_body() {
    assert_eq!(body_of("func f(a: Int, b: Arr<Flo>): Nul { };"), "Func(f, Nul, a: Int, b: Arr<Flo>, None)");
}

#[test]
fn if_elseif_else_chain() {
    assert_eq!(
        body_of("func f(): Int { if a { ret 1; } elseif b { } else { ret 2; }; };"),
        "Func(f, Int, None, [If(Id(a), [Return(Literal(Numeric, 1))], ElseIf(Id(b), None, Else([Return(Literal(Numeric, 2))])))])"
    );
}

#[test]
fn loops_with_controls() {
    assert_eq!(
        body_of("func f(): Int { while x { brk; }; for mut i: Int = 0; i < 3; i += 1; { cnt; }; for ;; { }; };"),
        "Func(f, Int, None, [While(Id(x), [Break]); For(Var(Mutable, i, Int, Literal(Numeric, 0)), Logical(<, Id(i), Literal(Numeric, 3)), Set(i, +=, Literal(Numeric, 1)), [Continue]); For(None, None, None, None)])"
    );
}

#[test]
fn comments_are_skipped() {
    assert_eq!(body_of("// top\nfunc f(): Int {\n// inside\n};"), "Func(f, Int, None, None)");
}

#[test]
fn missing_expression_after_assign_points_at_next_token() {
    let (kind, line, column, message) = parse_error("func f(): Int { mut x : Int = ; };");
    assert_eq!(kind, ErrorKind::Syntax);
    assert_eq!((line, column), (1, 31));
    assert_eq!(message, "Expected 'Expression', found ';'");
}

#[test]
fn right_operand_of_multiplication_is_unary() {
    assert_eq!(
        body_of("func f(): Int { ret 2 * -3 / !x; };"),
        "Func(f, Int, None, [Return(Binary(/, Binary(*, Literal(Numeric, 2), Unary(-, Literal(Numeric, 3))), Unary(!, Id(x))))])"
    );
}

#[test]
fn empty_lists_are_absent() {
    match parse("func f(): Int { g(); ret []; };") {
        Statement::Program { body, .. } => match &body[0] {
            Statement::FunctionDeclaration { body: Some(b), .. } => {
                match &b[0] {
                    Statement::FunctionCall(Expression::Call { arguments, .. }) => assert!(arguments.is_none()),
                    _ => panic!("expected a call"),
                }
                match &b[1] {
                    Statement::Return { expression: Some(Expression::ArrayLiteral { elements }), .. } => assert!(elements.is_none()),
                    _ => panic!("expected an array literal"),
                }
            },
            _ => panic!("expected a function"),
        },
        _ => panic!("expected a program"),
    }
}

#[test]
fn new_parser_holds_an_empty_program() {
    let mut lexer = Lexer::new("");
    assert!(lexer.scan_source_code().is_ok());
    let parser = Parser::new(lexer.token_list);
    match parser.abstract_syntax_tree {
        Statement::Program { start, body } => {
            assert_eq!((start.line, start.column), (1, 0));
            assert!(body.is_empty());
        },
        _ => panic!("expected a program"),
    }
}

#[test]
fn variable_outside_function() {
    let (_, line, column, message) = parse_error("let x: Int = 1;");
    assert_eq!((line, column), (1, 1));
    assert_eq!(message, "Variables cannot be defined outside of a function, remove this 'let'");
}

#[test]
fn expression_outside_function() {
    let (_, _, _, message) = parse_error("1 + 2;");
    assert_eq!(message, "Expressions cannot be standalone statements, remove this 'NumericLiteral'");
}

#[test]
fn loop_control_outside_loop() {
    let (_, line, column, message) = parse_error("func f(): Int { brk; };");
    assert_eq!((line, column), (1, 17));
    assert_eq!(message, "Loop controls cannot be used outside of loops");
}

#[test]
fn nested_function_rejected() {
    let (_, _, _, message) = parse_error("func f(): Int { func g(): Int { }; };");
    assert_eq!(message, "Functions cannot be defined inside functions");
}

#[test]
fn standalone_else_rejected() {
    let (_, _, _, message) = parse_error("func f(): Int { else { }; };");
    assert_eq!(message, "Standalone else statement");
}

#[test]
fn immutable_for_variable_rejected() {
    let (_, line, column, message) = parse_error("func f(): Int { for let i: Int = 0;; { }; };");
    assert_eq!((line, column), (1, 17));
    assert_eq!(message, "Immutable variables cannot be used inside a loop variable, change 'let' to 'mut'");
}

#[test]
fn let_without_initializer_rejected() {
    let (_, _, column, message) = parse_error("func f(): Int { let x: Int; };");
    assert_eq!(column, 27);
    assert_eq!(message, "Expected '=', found ';'");
}

#[test]
fn doubled_comma_rejected() {
    let (_, _, column, message) = parse_error("func f(): Int { g(1,,2); };");
    assert_eq!(column, 21);
    assert_eq!(message, "Unexpected token ','");
}

#[test]
fn missing_semicolon_after_function() {
    let (_, _, _, message) = parse_error("func f(): Int { }");
    assert_eq!(message, "Expected ';', found 'EndOfFile'");
}

#[test]
fn unclosed_block() {
    let (_, _, _, message) = parse_error("func f(): Int { ret 1;");
    assert_eq!(message, "Unclosed block");
}

#[test]
fn trailing_comma_in_parameters_rejected() {
    let (_, _, _, message) = parse_error("func f(a: Int,): Int { };");
    assert_eq!(message, "Expected 'Identifier', found ')'");
}

#[test]
fn only_calls_stand_alone() {
    let (_, _, _, message) = parse_error("func f(): Int { 1; };");
    assert_eq!(message, "Only function calls can be standalone statements, remove this 'NumericLiteral'");
}

#[test]
fn declaration_kinds_and_positions() {
    match parse("func f(): Int {\n  mut y: Boo = true;\n};") {
        Statement::Program { body, .. } => match &body[0] {
            Statement::FunctionDeclaration { start, body: Some(b), .. } => {
                assert_eq!((start.line, start.column), (1, 1));
                match &b[0] {
                    Statement::VariableDeclaration { start, kind, .. } => {
                        assert_eq!((start.line, start.column), (2, 3));
                        assert_eq!(*kind, VarDeclarationKind::Mutable);
                    },
                    _ => panic!("expected a declaration"),
                }
            },
            _ => panic!("expected a function"),
        },
        _ => panic!("expected a program"),
    }
}
