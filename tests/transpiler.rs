use bline::lexer::Lexer;
use bline::parser::Parser;
use bline::transpiler::{eval_expr, Transpiler, Variable};
use bline::types::{Expression, LiteralTypes, TokenTypes, VariableTypes};
use bline::{error, ErrorKind};

fn num(v: &str) -> Expression {
    Expression::Literal { literal_type: LiteralTypes::Numeric, value: v.to_string() }
}

fn string(v: &str) -> Expression {
    Expression::Literal { literal_type: LiteralTypes::String, value: v.to_string() }
}

fn ident(v: &str) -> Expression {
    Expression::Identifier(v.to_string())
}

fn binary(operator: TokenTypes, left: Expression, right: Expression) -> Expression {
    Expression::Binary { operator, left: Box::new(left), right: Box::new(right) }
}

fn logical(operator: TokenTypes, left: Expression, right: Expression) -> Expression {
    Expression::Logical { operator, left: Box::new(left), right: Box::new(right) }
}

fn lower_ok(e: &Expression, vars: &Vec<Variable>) -> (String, VariableTypes) {
    match eval_expr(e, vars) {
        Ok(x) => (x.value, x.literal_type),
        Err(e) => panic!("unexpected error: {}", e.message),
    }
}

fn lower_err(e: &Expression, vars: &Vec<Variable>) -> String {
    let err = eval_expr(e, vars).unwrap_err();
    assert_eq!(err.kind, ErrorKind::Type);
    assert!(err.start.is_none());
    err.message
}

fn is(t: &VariableTypes, expected: VariableTypes) -> bool {
    t.same(&expected)
}

#[test]
fn scenario_string_plus_number() {
    let (v, t) = lower_ok(&binary(TokenTypes::BinaryPlus, string("a"), num("1")), &vec![]);
    assert_eq!(v, "(concat(\"a\", \"1\"))");
    assert!(is(&t, VariableTypes::Str));
}

#[test]
fn scenario_string_ordering_suggests_equality() {
    let m = lower_err(&logical(TokenTypes::LogicalSmallerThan, string("a"), string("b")), &vec![]);
    assert_eq!(m, "Cannot compare strings with '<', did you mean '=='?");
}

#[test]
fn promotion_of_numeric_operands() {
    let (v, t) = lower_ok(&binary(TokenTypes::BinaryPlus, num("1"), num("2")), &vec![]);
    assert_eq!(v, "(1 + 2)");
    assert!(is(&t, VariableTypes::Int));
    let (v, t) = lower_ok(&binary(TokenTypes::BinaryMultiply, num("2.5"), num("2")), &vec![]);
    assert_eq!(v, "(2.5 * 2)");
    assert!(is(&t, VariableTypes::Flo));
    let (_, t) = lower_ok(&binary(TokenTypes::BinaryRest, num("7"), num("0.5")), &vec![]);
    assert!(is(&t, VariableTypes::Flo));
    let (v, t) = lower_ok(&logical(TokenTypes::LogicalGreaterOrEqualsThan, num("1.5"), num("2")), &vec![]);
    assert_eq!(v, "(1.5 >= 2)");
    assert!(is(&t, VariableTypes::Flo));
}

#[test]
fn lowering_twice_gives_the_same_result() {
    let vars = vec![Variable { name: "x".to_string(), var_type: VariableTypes::Flo }];
    let e = logical(TokenTypes::LogicalEquals, binary(TokenTypes::BinaryMinus, ident("x"), num("1")), num("3"));
    let first = lower_ok(&e, &vars);
    let second = lower_ok(&e, &vars);
    assert_eq!(first.0, second.0);
    assert!(first.1.same(&second.1));
    assert_eq!(first.0, "((x - 1) == 3)");
    assert!(is(&first.1, VariableTypes::Boo));
}

#[test]
fn declared_variable_takes_its_first_type() {
    let vars = vec![
        Variable { name: "s".to_string(), var_type: VariableTypes::Str },
        Variable { name: "s".to_string(), var_type: VariableTypes::Int },
    ];
    let (v, t) = lower_ok(&binary(TokenTypes::BinaryPlus, num("4"), ident("s")), &vars);
    assert_eq!(v, "(concat(\"4\", s))");
    assert!(is(&t, VariableTypes::Str));
}

#[test]
fn undeclared_variable() {
    assert_eq!(lower_err(&ident("y"), &vec![]), "Variable 'y' being used before assigned");
}

#[test]
fn right_operand_is_lowered_first() {
    let m = lower_err(&binary(TokenTypes::BinaryPlus, ident("a"), ident("b")), &vec![]);
    assert_eq!(m, "Variable 'b' being used before assigned");
}

#[test]
fn literal_kinds() {
    let (v, t) = lower_ok(&Expression::Literal { literal_type: LiteralTypes::Boolean, value: "true".to_string() }, &vec![]);
    assert_eq!(v, "true");
    assert!(is(&t, VariableTypes::Boo));
    let (_, t) = lower_ok(&Expression::Literal { literal_type: LiteralTypes::Null, value: "null".to_string() }, &vec![]);
    assert!(is(&t, VariableTypes::Nul));
    let (v, t) = lower_ok(&string("hi"), &vec![]);
    assert_eq!(v, "\"hi\"");
    assert!(is(&t, VariableTypes::Str));
}

#[test]
fn equality_rules() {
    let (v, _) = lower_ok(&logical(TokenTypes::LogicalEquals, string("a"), string("b")), &vec![]);
    assert_eq!(v, "(compare(\"a\", \"b\") == 0)");
    let (v, _) = lower_ok(&logical(TokenTypes::LogicalDifferent, string("a"), string("b")), &vec![]);
    assert_eq!(v, "(compare(\"a\", \"b\") != 0)");
    let null = || Expression::Literal { literal_type: LiteralTypes::Null, value: "null".to_string() };
    let (v, _) = lower_ok(&logical(TokenTypes::LogicalEquals, null(), null()), &vec![]);
    assert_eq!(v, "true");
    let (v, _) = lower_ok(&logical(TokenTypes::LogicalDifferent, null(), null()), &vec![]);
    assert_eq!(v, "false");
    let (v, t) = lower_ok(&logical(TokenTypes::LogicalEquals, string("a"), num("1")), &vec![]);
    assert_eq!(v, "false");
    assert!(is(&t, VariableTypes::Boo));
    let (v, _) = lower_ok(&logical(TokenTypes::LogicalDifferent, num("1"), string("a")), &vec![]);
    assert_eq!(v, "true");
}

#[test]
fn ordering_errors() {
    assert_eq!(
        lower_err(&logical(TokenTypes::LogicalSmallerThan, string("a"), num("1")), &vec![]),
        "Cannot compare '\"a\"' with '1', did you mean 'getLen(\"a\") < 1'?"
    );
    assert_eq!(
        lower_err(&logical(TokenTypes::LogicalGreaterThan, num("1"), string("a")), &vec![]),
        "Cannot compare '1' with '\"a\"', did you mean '1 > getLen(\"a\")'?"
    );
    let t = Expression::Literal { literal_type: LiteralTypes::Boolean, value: "true".to_string() };
    assert_eq!(lower_err(&logical(TokenTypes::LogicalSmallerThan, t, num("1")), &vec![]), "Cannot compare 'true' with '1'");
}

#[test]
fn arithmetic_errors_name_the_operator() {
    let t = || Expression::Literal { literal_type: LiteralTypes::Boolean, value: "true".to_string() };
    assert_eq!(lower_err(&binary(TokenTypes::BinaryMinus, num("1"), t()), &vec![]), "Cannot subtract '1' with 'true'");
    assert_eq!(lower_err(&binary(TokenTypes::BinaryMultiply, t(), num("1")), &vec![]), "Cannot multiply 'true' with '1'");
    assert_eq!(lower_err(&binary(TokenTypes::BinaryDivision, string("s"), num("1")), &vec![]), "Cannot divide '\"s\"' with '1'");
    assert_eq!(lower_err(&binary(TokenTypes::BinaryRest, num("1"), string("s")), &vec![]), "Cannot take modulo of '1' with '\"s\"'");
    assert_eq!(lower_err(&binary(TokenTypes::BinaryPlus, t(), num("1")), &vec![]), "Cannot add 'true' with '1'");
    assert_eq!(lower_err(&binary(TokenTypes::BinaryPlus, string("s"), t()), &vec![]), "Cannot concatenate '\"s\"' with 'true'");
}

#[test]
fn unary_rules() {
    let neg = Expression::Unary { operator: TokenTypes::BinaryMinus, operand: Box::new(num("2.5")) };
    let (v, t) = lower_ok(&neg, &vec![]);
    assert_eq!(v, "-2.5");
    assert!(is(&t, VariableTypes::Flo));
    let not = Expression::Unary { operator: TokenTypes::LogicalNot, operand: Box::new(num("1")) };
    assert_eq!(lower_err(&not, &vec![]), "Cannot use '!' on non boolean values");
    let neg_str = Expression::Unary { operator: TokenTypes::BinaryMinus, operand: Box::new(string("a")) };
    assert_eq!(lower_err(&neg_str, &vec![]), "Cannot use '-' on non-numeric value");
}

#[test]
fn array_literals_are_not_lowered() {
    let e = Expression::ArrayLiteral { elements: None };
    assert_eq!(lower_err(&e, &vec![]), "Array literals cannot be lowered");
}

#[test]
fn program_emits_functions_and_calls() {
    let mut lexer = Lexer::new("func main(): Int { print(1 + 2, \"a\"); };\nfunc g(): Str { };");
    assert!(lexer.scan_source_code().is_ok());
    let mut parser = Parser::new(lexer.token_list);
    assert!(parser.parse_tokens().is_ok());
    let mut transpiler = Transpiler::new(parser.abstract_syntax_tree);
    assert!(transpiler.transpile_abstract_syntax_tree().is_ok());
    assert_eq!(transpiler.c_src_code, "#include \"stdlib.h\"\nint main(){print((1 + 2),\"a\");}void g(){}");
}

#[test]
fn program_with_type_error() {
    let mut lexer = Lexer::new("func main(): Int { print(x); };");
    assert!(lexer.scan_source_code().is_ok());
    let mut parser = Parser::new(lexer.token_list);
    assert!(parser.parse_tokens().is_ok());
    let mut transpiler = Transpiler::new(parser.abstract_syntax_tree);
    let e = transpiler.transpile_abstract_syntax_tree().unwrap_err();
    assert_eq!(e.message, "Variable 'x' being used before assigned");
    assert_eq!(transpiler.c_src_code, "#include \"stdlib.h\"\n");
}

#[test]
fn diagnostic_text() {
    assert_eq!(error(3, 140, "boom"), "\n| Error at: Ln 3, Col 140, boom");
    assert_eq!(error(0, 4294967295, ""), "\n| Error at: Ln 0, Col 4294967295, ");
}

#[test]
fn report_of_errors() {
    let mut lexer = Lexer::new("@");
    let e = lexer.scan_source_code().unwrap_err();
    assert_eq!(e.report(), "\n| Error at: Ln 1, Col 1, Unknown Token '@'");
    let t = eval_expr(&ident("q"), &vec![]).unwrap_err();
    assert_eq!(t.report(), "\n| Error: Variable 'q' being used before assigned");
}
