use bline::lexer::Lexer;
use bline::types::{Token, TokenTypes};
use bline::ErrorKind;

fn lex(src: &str) -> Vec<Token> {
    let mut lexer = Lexer::new(src);
    assert!(lexer.scan_source_code().is_ok());
    lexer.token_list
}

fn kinds(tokens: &[Token]) -> Vec<TokenTypes> {
    tokens.iter().map(|t| t.token_type).collect()
}

fn texts(tokens: &[Token]) -> Vec<String> {
    tokens.iter().map(|t| t.token_value.clone()).collect()
}

fn lex_error(src: &str) -> (ErrorKind, u32, u32, String) {
    let mut lexer = Lexer::new(src);
    let e = lexer.scan_source_code().unwrap_err();
    let start = e.start.expect("lexical errors carry a position");
    (e.kind, start.line, start.column, e.message)
}

#[test]
fn scenario_let_declaration_tokens() {
    let tokens = lex("let x: Int = 5 + 3;");
    assert_eq!(
        kinds(&tokens),
        vec![
            TokenTypes::ConstantVariable,
            TokenTypes::Identifier,
            TokenTypes::Colon,
            TokenTypes::Int,
            TokenTypes::Assign,
            TokenTypes::NumberLiteral,
            TokenTypes::BinaryPlus,
            TokenTypes::NumberLiteral,
            TokenTypes::Semicolon,
            TokenTypes::EOF,
        ]
    );
    assert_eq!(texts(&tokens), vec!["let", "x", ":", "Int", "=", "5", "+", "3", ";", ""]);
    let columns: Vec<u32> = tokens.iter().map(|t| t.column_number).collect();
    assert_eq!(columns, vec![1, 5, 6, 8, 12, 14, 16, 18, 19, 19]);
    assert!(tokens.iter().all(|t| t.line_number == 1));
}

#[test]
fn round_trip_of_token_texts() {
    let src = "func main(): Int {\n  mut total: Flo = 1_000.5 * (2 - x);\n  ret total >= 3;\n};";
    let tokens = lex(src);
    let joined: String = tokens.iter().map(|t| t.token_value.as_str()).collect();
    let stripped: String = src.chars().filter(|c| !c.is_ascii_whitespace()).collect();
    assert_eq!(joined, stripped);
}

#[test]
fn empty_source_is_one_end_of_file_token() {
    let tokens = lex("");
    assert_eq!(kinds(&tokens), vec![TokenTypes::EOF]);
    assert_eq!((tokens[0].line_number, tokens[0].column_number), (1, 0));
}

#[test]
fn exactly_one_end_of_file_token_at_the_end() {
    let tokens = lex("a=b\n// note\n  c");
    assert_eq!(tokens.iter().filter(|t| t.token_type == TokenTypes::EOF).count(), 1);
    assert_eq!(tokens.last().unwrap().token_type, TokenTypes::EOF);
}

#[test]
fn keywords_and_identifiers() {
    let tokens = lex("func let mut if elseif else while for ret brk cnt true false null Int Flo Str Boo Nul Arr name _x9");
    assert_eq!(
        kinds(&tokens),
        vec![
            TokenTypes::Function,
            TokenTypes::ConstantVariable,
            TokenTypes::MutableVariable,
            TokenTypes::If,
            TokenTypes::ElseIf,
            TokenTypes::Else,
            TokenTypes::While,
            TokenTypes::For,
            TokenTypes::Return,
            TokenTypes::Break,
            TokenTypes::Continue,
            TokenTypes::True,
            TokenTypes::False,
            TokenTypes::Null,
            TokenTypes::Int,
            TokenTypes::Flo,
            TokenTypes::Str,
            TokenTypes::Boo,
            TokenTypes::Nul,
            TokenTypes::Arr,
            TokenTypes::Identifier,
            TokenTypes::Identifier,
            TokenTypes::EOF,
        ]
    );
}

#[test]
fn two_character_operators() {
    let tokens = lex("== += -= /= *= %= <= >= != = < > ! & |");
    assert_eq!(
        kinds(&tokens),
        vec![
            TokenTypes::LogicalEquals,
            TokenTypes::AssignPlus,
            TokenTypes::AssignMinus,
            TokenTypes::AssignDivision,
            TokenTypes::AssignMultiply,
            TokenTypes::AssignRest,
            TokenTypes::LogicalSmallerOrEqualsThan,
            TokenTypes::LogicalGreaterOrEqualsThan,
            TokenTypes::LogicalDifferent,
            TokenTypes::Assign,
            TokenTypes::LogicalSmallerThan,
            TokenTypes::LogicalGreaterThan,
            TokenTypes::LogicalNot,
            TokenTypes::LogicalAnd,
            TokenTypes::LogicalOr,
            TokenTypes::EOF,
        ]
    );
    assert_eq!(tokens[0].token_value, "==");
    assert_eq!(tokens[8].token_value, "!=");
}

#[test]
fn comment_discards_rest_of_line() {
    let tokens = lex("a // b c\nd");
    assert_eq!(
        kinds(&tokens),
        vec![TokenTypes::Identifier, TokenTypes::Comment, TokenTypes::Identifier, TokenTypes::EOF]
    );
    assert_eq!(tokens[1].token_value, "//");
    assert_eq!((tokens[2].line_number, tokens[2].column_number), (2, 1));
}

#[test]
fn string_literal_value_excludes_quotes_and_resolves_escapes() {
    let tokens = lex("\"a\\tb\\\"c\" 'x\\n'");
    assert_eq!(tokens[0].token_type, TokenTypes::StringLiteral);
    assert_eq!(tokens[0].token_value, "a\tb\"c");
    assert_eq!(tokens[1].token_value, "x\n");
    assert_eq!(tokens[1].column_number, 11);
}

#[test]
fn number_literal_with_separator_and_dot() {
    let tokens = lex("1_000.25 .5");
    assert_eq!(texts(&tokens), vec!["1_000.25", ".5", ""]);
    assert_eq!(tokens[1].column_number, 10);
}

#[test]
fn whitespace_stops_a_number() {
    let tokens = lex("12 34");
    assert_eq!(texts(&tokens), vec!["12", "34", ""]);
}

#[test]
fn scenario_unterminated_string_at_end_of_file() {
    let (kind, line, column, message) = lex_error("'abc");
    assert_eq!(kind, ErrorKind::Lexical);
    assert_eq!((line, column), (1, 1));
    assert_eq!(message, "String literal ''' not terminated before the end of file");
    assert!(message.contains("not terminated before the end of file"));
}

#[test]
fn unterminated_string_reported_at_opening_quote() {
    let (_, line, column, message) = lex_error("x = \"ab\ncd\"");
    assert_eq!((line, column), (1, 5));
    assert_eq!(message, "String literal '\"' must be terminated within the same line");
}

#[test]
fn unknown_escape_sequence() {
    let (_, line, column, message) = lex_error("  'a\\qb'");
    assert_eq!((line, column), (1, 3));
    assert_eq!(message, "String literal ''' holds an unknown escape sequence");
}

#[test]
fn double_dot_in_number() {
    let (kind, line, column, message) = lex_error("1.2.3");
    assert_eq!(kind, ErrorKind::Lexical);
    assert_eq!((line, column), (1, 4));
    assert_eq!(message, "Cannot have multiple '.' in a number literal");
}

#[test]
fn doubled_underscore_in_number() {
    let (_, line, column, message) = lex_error("1__2");
    assert_eq!((line, column), (1, 3));
    assert_eq!(message, "Cannot have multiple adjacent '_'");
}

#[test]
fn underscore_before_non_digit() {
    let (_, line, column, message) = lex_error("x = 12_;");
    assert_eq!((line, column), (1, 7));
    assert_eq!(message, "'_' can only appear between digits");
}

#[test]
fn dot_before_non_digit() {
    let (_, line, column, message) = lex_error("5.;");
    assert_eq!((line, column), (1, 2));
    assert_eq!(message, "'.' can only appear between or on the start of numeric literals");
}

#[test]
fn unknown_character() {
    let (_, line, column, message) = lex_error("a\n  @");
    assert_eq!((line, column), (2, 3));
    assert_eq!(message, "Unknown Token '@'");
}

#[test]
fn relexing_joined_texts_gives_the_same_tokens() {
    let src = "func f(a: Int): Flo { // note\n ret a*2.5>=1_0 != !b; };";
    let essence = |tokens: &[Token]| -> Vec<(TokenTypes, String)> {
        tokens
            .iter()
            .filter(|t| t.token_type != TokenTypes::Comment && t.token_type != TokenTypes::EOF)
            .map(|t| (t.token_type, t.token_value.clone()))
            .collect()
    };
    let first = essence(&lex(src));
    let joined = first.iter().map(|(_, v)| v.as_str()).collect::<Vec<_>>().join(" ");
    let second = essence(&lex(&joined));
    assert_eq!(first, second);
    assert_eq!(joined, "func f ( a : Int ) : Flo { ret a * 2.5 >= 1_0 != ! b ; } ;");
}
