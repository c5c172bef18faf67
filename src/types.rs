//! Tokens and the abstract syntax tree shared by every stage.
use vstd::prelude::*;
use vstd::string::StringExecFns;

verus! {

/// The closed set of token kinds the lexer can produce.
#[derive(Debug, Clone, Copy, PartialEq, Eq, Structural)]
pub enum TokenTypes {
    Assign,
    AssignPlus,
    AssignMinus,
    AssignMultiply,
    AssignDivision,
    AssignRest,
    BinaryPlus,
    BinaryMinus,
    BinaryDivision,
    BinaryMultiply,
    BinaryRest,
    LogicalNot,
    LogicalAnd,
    LogicalOr,
    LogicalEquals,
    LogicalDifferent,
    LogicalSmallerThan,
    LogicalGreaterThan,
    LogicalSmallerOrEqualsThan,
    LogicalGreaterOrEqualsThan,
    Dot,
    LeftParenthesis,
    RightParenthesis,
    LeftSquareBracket,
    RightSquareBracket,
    LeftCurlyBrace,
    RightCurlyBrace,
    DoubleQuotes,
    SingleQuotes,
    Semicolon,
    Colon,
    Comma,
    Int,
    Flo,
    Str,
    Arr,
    Boo,
    Nul,
    Comment,
    Function,
    ConstantVariable,
    MutableVariable,
    If,
    ElseIf,
    Else,
    While,
    For,
    Return,
    Break,
    Continue,
    Identifier,
    NumberLiteral,
    StringLiteral,
    True,
    False,
    Null,
    UNKNOWN,
    EOF,
}

/// How a token kind is written in diagnostics.
pub open spec fn token_text(t: TokenTypes) -> Seq<char> {
    match t {
        TokenTypes::Assign => "="@,
        TokenTypes::AssignPlus => "+="@,
        TokenTypes::AssignMinus => "-="@,
        TokenTypes::AssignMultiply => "*="@,
        TokenTypes::AssignDivision => "/="@,
        TokenTypes::AssignRest => "%="@,
        TokenTypes::BinaryPlus => "+"@,
        TokenTypes::BinaryMinus => "-"@,
        TokenTypes::BinaryDivision => "/"@,
        TokenTypes::BinaryMultiply => "*"@,
        TokenTypes::BinaryRest => "%"@,
        TokenTypes::LogicalNot => "!"@,
        TokenTypes::LogicalAnd => "&"@,
        TokenTypes::LogicalOr => "|"@,
        TokenTypes::LogicalEquals => "=="@,
        TokenTypes::LogicalDifferent => "!="@,
        TokenTypes::LogicalSmallerThan => "<"@,
        TokenTypes::LogicalGreaterThan => ">"@,
        TokenTypes::LogicalSmallerOrEqualsThan => "<="@,
        TokenTypes::LogicalGreaterOrEqualsThan => ">="@,
        TokenTypes::Dot => "."@,
        TokenTypes::LeftParenthesis => "("@,
        TokenTypes::RightParenthesis => ")"@,
        TokenTypes::LeftSquareBracket => "["@,
        TokenTypes::RightSquareBracket => "]"@,
        TokenTypes::LeftCurlyBrace => "{"@,
        TokenTypes::RightCurlyBrace => "}"@,
        TokenTypes::DoubleQuotes => "\""@,
        TokenTypes::SingleQuotes => "'"@,
        TokenTypes::Semicolon => ";"@,
        TokenTypes::Colon => ":"@,
        TokenTypes::Comma => ","@,
        TokenTypes::Int => "i32"@,
        TokenTypes::Flo => "f64"@,
        TokenTypes::Str => "str"@,
        TokenTypes::Arr => "vec"@,
        TokenTypes::Boo => "bool"@,
        TokenTypes::Nul => "Nul"@,
        TokenTypes::Comment => "Comment"@,
        TokenTypes::Function => "func"@,
        TokenTypes::ConstantVariable => "let"@,
        TokenTypes::MutableVariable => "mut"@,
        TokenTypes::If => "if"@,
        TokenTypes::ElseIf => "elseif"@,
        TokenTypes::Else => "else"@,
        TokenTypes::While => "while"@,
        TokenTypes::For => "for"@,
        TokenTypes::Return => "ret"@,
        TokenTypes::Break => "brk"@,
        TokenTypes::Continue => "cnt"@,
        TokenTypes::Identifier => "Identifier"@,
        TokenTypes::NumberLiteral => "NumericLiteral"@,
        TokenTypes::StringLiteral => "StringLiteral"@,
        TokenTypes::True => "true"@,
        TokenTypes::False => "false"@,
        TokenTypes::Null => "null"@,
        TokenTypes::UNKNOWN => "Unknown Token"@,
        TokenTypes::EOF => "EndOfFile"@,
    }
}

impl TokenTypes {
    /// How this token kind is written in diagnostics.
    pub fn text(&self) -> (r: String)
        ensures
            r@ == token_text(*self),
    {
        match self {
            TokenTypes::Assign => String::from_str("="),
            TokenTypes::AssignPlus => String::from_str("+="),
            TokenTypes::AssignMinus => String::from_str("-="),
            TokenTypes::AssignMultiply => String::from_str("*="),
            TokenTypes::AssignDivision => String::from_str("/="),
            TokenTypes::AssignRest => String::from_str("%="),
            TokenTypes::BinaryPlus => String::from_str("+"),
            TokenTypes::BinaryMinus => String::from_str("-"),
            TokenTypes::BinaryDivision => String::from_str("/"),
            TokenTypes::BinaryMultiply => String::from_str("*"),
            TokenTypes::BinaryRest => String::from_str("%"),
            TokenTypes::LogicalNot => String::from_str("!"),
            TokenTypes::LogicalAnd => String::from_str("&"),
            TokenTypes::LogicalOr => String::from_str("|"),
            TokenTypes::LogicalEquals => String::from_str("=="),
            TokenTypes::LogicalDifferent => String::from_str("!="),
            TokenTypes::LogicalSmallerThan => String::from_str("<"),
            TokenTypes::LogicalGreaterThan => String::from_str(">"),
            TokenTypes::LogicalSmallerOrEqualsThan => String::from_str("<="),
            TokenTypes::LogicalGreaterOrEqualsThan => String::from_str(">="),
            TokenTypes::Dot => String::from_str("."),
            TokenTypes::LeftParenthesis => String::from_str("("),
            TokenTypes::RightParenthesis => String::from_str(")"),
            TokenTypes::LeftSquareBracket => String::from_str("["),
            TokenTypes::RightSquareBracket => String::from_str("]"),
            TokenTypes::LeftCurlyBrace => String::from_str("{"),
            TokenTypes::RightCurlyBrace => String::from_str("}"),
            TokenTypes::DoubleQuotes => String::from_str("\""),
            TokenTypes::SingleQuotes => String::from_str("'"),
            TokenTypes::Semicolon => String::from_str(";"),
            TokenTypes::Colon => String::from_str(":"),
            TokenTypes::Comma => String::from_str(","),
            TokenTypes::Int => String::from_str("i32"),
            TokenTypes::Flo => String::from_str("f64"),
            TokenTypes::Str => String::from_str("str"),
            TokenTypes::Arr => String::from_str("vec"),
            TokenTypes::Boo => String::from_str("bool"),
            TokenTypes::Nul => String::from_str("Nul"),
            TokenTypes::Comment => String::from_str("Comment"),
            TokenTypes::Function => String::from_str("func"),
            TokenTypes::ConstantVariable => String::from_str("let"),
            TokenTypes::MutableVariable => String::from_str("mut"),
            TokenTypes::If => String::from_str("if"),
            TokenTypes::ElseIf => String::from_str("elseif"),
            TokenTypes::Else => String::from_str("else"),
            TokenTypes::While => String::from_str("while"),
            TokenTypes::For => String::from_str("for"),
            TokenTypes::Return => String::from_str("ret"),
            TokenTypes::Break => String::from_str("brk"),
            TokenTypes::Continue => String::from_str("cnt"),
            TokenTypes::Identifier => String::from_str("Identifier"),
            TokenTypes::NumberLiteral => String::from_str("NumericLiteral"),
            TokenTypes::StringLiteral => String::from_str("StringLiteral"),
            TokenTypes::True => String::from_str("true"),
            TokenTypes::False => String::from_str("false"),
            TokenTypes::Null => String::from_str("null"),
            TokenTypes::UNKNOWN => String::from_str("Unknown Token"),
            TokenTypes::EOF => String::from_str("EndOfFile"),
        }
    }
}

/// A classified lexical unit with the 1-based line and column of its first
/// character; a string literal's value leaves out its quotes.
#[derive(Debug, Clone)]
pub struct Token {
    pub token_value: String,
    pub token_type: TokenTypes,
    pub column_number: u32,
    pub line_number: u32,
}

impl Token {
    /// The position of the token's first character.
    pub fn start(&self) -> (r: Start)
        ensures
            r == self.start_spec(),
    {
        Start { line: self.line_number, column: self.column_number }
    }

    pub open spec fn start_spec(&self) -> Start {
        Start { line: self.line_number, column: self.column_number }
    }
}

/// `mut` declares a `Mutable` variable, `let` an `Immutable` one.
#[derive(Debug, Clone, Copy, PartialEq, Eq, Structural)]
pub enum VarDeclarationKind {
    Mutable,
    Immutable,
}

/// A 1-based source position.
#[derive(Debug, Clone, Copy, PartialEq, Eq, Structural)]
pub struct Start {
    pub line: u32,
    pub column: u32,
}

/// An expression node; each node owns its children.
#[derive(Debug)]
pub enum Expression {
    Identifier(String),
    Binary { operator: TokenTypes, left: Box<Expression>, right: Box<Expression> },
    Logical { operator: TokenTypes, left: Box<Expression>, right: Box<Expression> },
    Unary { operator: TokenTypes, operand: Box<Expression> },
    Literal { literal_type: LiteralTypes, value: String },
    ArrayLiteral { elements: Option<Box<Vec<Expression>>> },
    ArrayAccess(ArrayAccess),
    Call { name: String, arguments: Option<Box<Vec<Expression>>> },
}

/// Indexing into an array; `a[0][1]` is a `NestedAccess` around the `Access` of `a[0]`.
#[derive(Debug)]
pub enum ArrayAccess {
    Access { name: String, index: Box<Expression> },
    NestedAccess { access: Box<ArrayAccess>, index: Box<Expression> },
}

/// The kind of a literal's token.
#[derive(Debug, Clone, Copy, PartialEq, Eq, Structural)]
pub enum LiteralTypes {
    Numeric,
    String,
    Boolean,
    Null,
}

/// The type lattice of the language.
#[derive(Debug)]
pub enum VariableTypes {
    Int,
    Flo,
    Str,
    Nul,
    Boo,
    Arr(Box<VariableTypes>),
}

impl VariableTypes {
    /// Structural equality of two types.
    pub fn same(&self, o: &VariableTypes) -> (r: bool)
        ensures
            r == (*self == *o),
        decreases self,
    {
        match (self, o) {
            (VariableTypes::Int, VariableTypes::Int) => true,
            (VariableTypes::Flo, VariableTypes::Flo) => true,
            (VariableTypes::Str, VariableTypes::Str) => true,
            (VariableTypes::Nul, VariableTypes::Nul) => true,
            (VariableTypes::Boo, VariableTypes::Boo) => true,
            (VariableTypes::Arr(a), VariableTypes::Arr(b)) => (**a).same(&**b),
            _ => false,
        }
    }
}

impl VariableTypes {
    /// A copy equal to `self`.
    pub fn duplicate(&self) -> (r: VariableTypes)
        ensures
            r == *self,
        decreases self,
    {
        match self {
            VariableTypes::Int => VariableTypes::Int,
            VariableTypes::Flo => VariableTypes::Flo,
            VariableTypes::Str => VariableTypes::Str,
            VariableTypes::Nul => VariableTypes::Nul,
            VariableTypes::Boo => VariableTypes::Boo,
            VariableTypes::Arr(a) => VariableTypes::Arr(Box::new((**a).duplicate())),
        }
    }
}

impl PartialEq for VariableTypes {
    fn eq(&self, o: &VariableTypes) -> (r: bool) {
        self.same(o)
    }
}

impl vstd::std_specs::cmp::PartialEqSpecImpl for VariableTypes {
    open spec fn obeys_eq_spec() -> bool {
        true
    }

    open spec fn eq_spec(&self, o: &VariableTypes) -> bool {
        *self == *o
    }
}

/// A function parameter and its declared type.
#[derive(Debug)]
pub struct FuncParam {
    pub name: String,
    pub var_type: VariableTypes,
}

/// A statement node. A block is `None` when it holds no statement; an `If`
/// chain continues through `alternate` with an `ElseIf` or ends in an `Else`.
#[allow(inconsistent_fields)]
#[derive(Debug)]
pub enum Statement {
    Program { start: Start, body: Box<Vec<Statement>> },
    VariableDeclaration {
        start: Start,
        name: Option<String>,
        kind: VarDeclarationKind,
        var_type: Option<VariableTypes>,
        value: Option<Expression>,
    },
    FunctionDeclaration {
        start: Start,
        name: String,
        var_type: VariableTypes,
        params: Option<Vec<FuncParam>>,
        body: Option<Box<Vec<Statement>>>,
    },
    If {
        start: Start,
        condition: Expression,
        block: Option<Box<Vec<Statement>>>,
        alternate: Option<Box<Statement>>,
    },
    ElseIf {
        start: Start,
        condition: Expression,
        block: Option<Box<Vec<Statement>>>,
        alternate: Option<Box<Statement>>,
    },
    Else { start: Start, block: Option<Box<Vec<Statement>>> },
    While { start: Start, test: Expression, block: Option<Box<Vec<Statement>>> },
    For {
        start: Start,
        variable: Option<Box<Statement>>,
        test: Option<Expression>,
        variable_update: Option<Box<Statement>>,
        block: Option<Box<Vec<Statement>>>,
    },
    Break { start: Start },
    Continue { start: Start },
    Return { start: Start, expression: Option<Expression> },
    VariableAlteration { name: String, operator: TokenTypes, value: Expression },
    FunctionCall(Expression),
}

} // verus!
