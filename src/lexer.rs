//! The lexer: source text to positioned tokens ending in one end-of-file token.
use vstd::prelude::*;
use vstd::string::{StrSliceExecFns, StringExecFns};

use crate::text::{char_string, chars_of, join3, string_of};
use crate::types::{Token, TokenTypes};
use crate::{is_error, CompileError, ErrorKind};

verus! {

/// The longest source, in characters, whose positions fit the token fields.
pub const MAX_SOURCE_LEN: usize = 0x7fff_ffff;

pub open spec fn is_new_line(c: char) -> bool {
    c == '\n' || c == '\r'
}

/// ASCII whitespace: space, tab, line feed, form feed, carriage return.
pub open spec fn is_space(c: char) -> bool {
    c == ' ' || c == '\t' || c == '\n' || c == '\x0C' || c == '\r'
}

pub open spec fn is_alpha(c: char) -> bool {
    ('a' <= c && c <= 'z') || ('A' <= c && c <= 'Z')
}

pub open spec fn is_digit(c: char) -> bool {
    '0' <= c && c <= '9'
}

pub open spec fn starts_identifier(c: char) -> bool {
    is_alpha(c) || c == '_'
}

pub open spec fn continues_identifier(c: char) -> bool {
    is_alpha(c) || c == '_' || is_digit(c)
}

pub open spec fn starts_number(c: char) -> bool {
    is_digit(c) || c == '.'
}

pub open spec fn in_number(c: char) -> bool {
    is_digit(c) || c == '_' || c == '.'
}

pub open spec fn is_quote(c: char) -> bool {
    c == '\'' || c == '"'
}

/// Line and column after reading the first `n` characters: a line break moves
/// to column 0 of the next line, any other character one column right.
pub open spec fn pos_after(src: Seq<char>, n: int) -> (int, int)
    decreases n,
{
    if n <= 0 {
        (1, 0)
    } else {
        let p = pos_after(src, n - 1);
        if is_new_line(src[n - 1]) {
            (p.0 + 1, 0)
        } else {
            (p.0, p.1 + 1)
        }
    }
}

/// The position of the character at `i`; past the end, that of the last one.
pub open spec fn char_pos(src: Seq<char>, i: int) -> (int, int) {
    if i < src.len() {
        pos_after(src, i + 1)
    } else {
        pos_after(src, src.len() as int)
    }
}

/// What a keyword or identifier text lexes to.
pub open spec fn keyword_type(s: Seq<char>) -> TokenTypes {
    if s == "true"@ { TokenTypes::True }
    else if s == "false"@ { TokenTypes::False }
    else if s == "null"@ { TokenTypes::Null }
    else if s == "Boo"@ { TokenTypes::Boo }
    else if s == "Int"@ { TokenTypes::Int }
    else if s == "Flo"@ { TokenTypes::Flo }
    else if s == "Str"@ { TokenTypes::Str }
    else if s == "Nul"@ { TokenTypes::Nul }
    else if s == "Arr"@ { TokenTypes::Arr }
    else if s == "let"@ { TokenTypes::ConstantVariable }
    else if s == "mut"@ { TokenTypes::MutableVariable }
    else if s == "func"@ { TokenTypes::Function }
    else if s == "while"@ { TokenTypes::While }
    else if s == "if"@ { TokenTypes::If }
    else if s == "elseif"@ { TokenTypes::ElseIf }
    else if s == "else"@ { TokenTypes::Else }
    else if s == "brk"@ { TokenTypes::Break }
    else if s == "cnt"@ { TokenTypes::Continue }
    else if s == "ret"@ { TokenTypes::Return }
    else if s == "for"@ { TokenTypes::For }
    else { TokenTypes::Identifier }
}

/// The operator or punctuation starting with `c`, followed by `next`, and
/// how many characters it takes; `None` for a character that starts none.
pub open spec fn operator_spec(c: char, next: Option<char>) -> Option<(TokenTypes, int)> {
    let eq = next == Some('=');
    match c {
        '=' => if eq { Some((TokenTypes::LogicalEquals, 2)) } else { Some((TokenTypes::Assign, 1)) },
        '+' => if eq { Some((TokenTypes::AssignPlus, 2)) } else { Some((TokenTypes::BinaryPlus, 1)) },
        '-' => if eq { Some((TokenTypes::AssignMinus, 2)) } else { Some((TokenTypes::BinaryMinus, 1)) },
        '/' => if eq {
            Some((TokenTypes::AssignDivision, 2))
        } else if next == Some('/') {
            Some((TokenTypes::Comment, 2))
        } else {
            Some((TokenTypes::BinaryDivision, 1))
        },
        '*' => if eq { Some((TokenTypes::AssignMultiply, 2)) } else { Some((TokenTypes::BinaryMultiply, 1)) },
        '%' => if eq { Some((TokenTypes::AssignRest, 2)) } else { Some((TokenTypes::BinaryRest, 1)) },
        '<' => if eq {
            Some((TokenTypes::LogicalSmallerOrEqualsThan, 2))
        } else {
            Some((TokenTypes::LogicalSmallerThan, 1))
        },
        '>' => if eq {
            Some((TokenTypes::LogicalGreaterOrEqualsThan, 2))
        } else {
            Some((TokenTypes::LogicalGreaterThan, 1))
        },
        '!' => if eq { Some((TokenTypes::LogicalDifferent, 2)) } else { Some((TokenTypes::LogicalNot, 1)) },
        '&' => Some((TokenTypes::LogicalAnd, 1)),
        '|' => Some((TokenTypes::LogicalOr, 1)),
        '"' => Some((TokenTypes::DoubleQuotes, 1)),
        '\'' => Some((TokenTypes::SingleQuotes, 1)),
        '(' => Some((TokenTypes::LeftParenthesis, 1)),
        ')' => Some((TokenTypes::RightParenthesis, 1)),
        '[' => Some((TokenTypes::LeftSquareBracket, 1)),
        ']' => Some((TokenTypes::RightSquareBracket, 1)),
        '{' => Some((TokenTypes::LeftCurlyBrace, 1)),
        '}' => Some((TokenTypes::RightCurlyBrace, 1)),
        '.' => Some((TokenTypes::Dot, 1)),
        ':' => Some((TokenTypes::Colon, 1)),
        ';' => Some((TokenTypes::Semicolon, 1)),
        ',' => Some((TokenTypes::Comma, 1)),
        _ => None,
    }
}

pub open spec fn escaped(c: char) -> Option<char> {
    match c {
        'n' => Some('\n'),
        'r' => Some('\r'),
        't' => Some('\t'),
        '\\' => Some('\\'),
        '\'' => Some('\''),
        '"' => Some('"'),
        _ => None,
    }
}

/// The index just past the identifier characters from `i` on.
pub open spec fn identifier_end(src: Seq<char>, i: int) -> int
    decreases src.len() - i,
{
    if i < 0 || i >= src.len() || !continues_identifier(src[i]) {
        i
    } else {
        identifier_end(src, i + 1)
    }
}

/// The index of the first line break from `i` on, or the end.
pub open spec fn line_end(src: Seq<char>, i: int) -> int
    decreases src.len() - i,
{
    if i < 0 || i >= src.len() || is_new_line(src[i]) {
        i
    } else {
        line_end(src, i + 1)
    }
}

/// Scanning a number literal at `i`, after the characters `acc` with the last
/// one at `prev`: its text and where it ends, or the index and message of the
/// error. Whitespace after a `_` or `.` is passed over.
pub open spec fn number_scan(src: Seq<char>, i: int, prev: Option<int>, has_dot: bool, acc: Seq<char>) -> Result<(Seq<char>, int), (int, Seq<char>)>
    decreases src.len() - i,
{
    if i < 0 || i >= src.len() {
        Ok((acc, i))
    } else {
        let c = src[i];
        let dot = has_dot || c == '.';
        if has_dot && c == '.' {
            Err((i, "Cannot have multiple '.' in a number literal"@))
        } else if prev is Some && src[prev->0] == '_' && c == '_' {
            Err((i, "Cannot have multiple adjacent '_'"@))
        } else if prev is Some && !is_digit(src[prev->0]) && !is_digit(c) && is_space(c) {
            number_scan(src, i + 1, prev, dot, acc)
        } else if prev is Some && !is_digit(src[prev->0]) && !is_digit(c) && src[prev->0] == '_' {
            Err((prev->0, "'_' can only appear between digits"@))
        } else if prev is Some && !is_digit(src[prev->0]) && !is_digit(c) {
            Err((prev->0, "'.' can only appear between or on the start of numeric literals"@))
        } else if in_number(c) {
            number_scan(src, i + 1, Some(i), dot, acc.push(c))
        } else {
            Ok((acc, i))
        }
    }
}

/// Scanning the body of a string literal opened by `quote`, from `i` on: its
/// value and the index past the closing quote, or the message of the error.
pub open spec fn string_scan(src: Seq<char>, i: int, quote: char, acc: Seq<char>) -> Result<(Seq<char>, int), Seq<char>>
    decreases src.len() - i,
{
    if i < 0 || i >= src.len() {
        Err("String literal '"@ + seq![quote] + "' not terminated before the end of file"@)
    } else if is_new_line(src[i]) {
        Err("String literal '"@ + seq![quote] + "' must be terminated within the same line"@)
    } else if src[i] == '\\' {
        if i + 1 < src.len() && escaped(src[i + 1]) is Some {
            string_scan(src, i + 2, quote, acc.push(escaped(src[i + 1])->0))
        } else {
            Err("String literal '"@ + seq![quote] + "' holds an unknown escape sequence"@)
        }
    } else if src[i] == quote {
        Ok((acc, i + 1))
    } else {
        string_scan(src, i + 1, quote, acc.push(src[i]))
    }
}

pub proof fn lemma_identifier_end(src: Seq<char>, i: int)
    requires
        0 <= i <= src.len(),
    ensures
        i <= identifier_end(src, i) <= src.len(),
    decreases src.len() - i,
{
    if i < src.len() && continues_identifier(src[i]) {
        lemma_identifier_end(src, i + 1);
    }
}

pub proof fn lemma_line_end(src: Seq<char>, i: int)
    requires
        0 <= i <= src.len(),
    ensures
        i <= line_end(src, i) <= src.len(),
    decreases src.len() - i,
{
    if i < src.len() && !is_new_line(src[i]) {
        lemma_line_end(src, i + 1);
    }
}

pub proof fn lemma_number_scan_end(src: Seq<char>, i: int, prev: Option<int>, has_dot: bool, acc: Seq<char>)
    requires
        0 <= i <= src.len(),
    ensures
        number_scan(src, i, prev, has_dot, acc) matches Ok((_, e)) ==> i <= e <= src.len(),
    decreases src.len() - i,
{
    if i < src.len() {
        let c = src[i];
        lemma_number_scan_end(src, i + 1, prev, has_dot || c == '.', acc);
        lemma_number_scan_end(src, i + 1, Some(i), has_dot || c == '.', acc.push(c));
    }
}

pub proof fn lemma_string_scan_end(src: Seq<char>, i: int, quote: char, acc: Seq<char>)
    requires
        0 <= i,
    ensures
        string_scan(src, i, quote, acc) matches Ok((_, e)) ==> i < e <= src.len(),
    decreases src.len() - i,
{
    if 0 <= i < src.len() && !is_new_line(src[i]) {
        if src[i] == '\\' {
            if i + 1 < src.len() && escaped(src[i + 1]) is Some {
                lemma_string_scan_end(src, i + 2, quote, acc.push(escaped(src[i + 1])->0));
            }
        } else if src[i] != quote {
            lemma_string_scan_end(src, i + 1, quote, acc.push(src[i]));
        }
    }
}

pub proof fn lemma_operator_width(c: char, next: Option<char>)
    ensures
        operator_spec(c, next) matches Some((_, w)) ==> (w == 1 || (w == 2 && next is Some)),
{
}

/// A token as plain values: kind, text, line, column.
pub open spec fn token_view(t: Token) -> (TokenTypes, Seq<char>, int, int) {
    (t.token_type, t.token_value@, t.line_number as int, t.column_number as int)
}

pub open spec fn token_views(ts: Seq<Token>) -> Seq<(TokenTypes, Seq<char>, int, int)> {
    ts.map_values(|t: Token| token_view(t))
}

/// A token of kind `k` and text `s` at the character `i`.
pub open spec fn token_at(src: Seq<char>, i: int, k: TokenTypes, s: Seq<char>) -> (TokenTypes, Seq<char>, int, int) {
    (k, s, char_pos(src, i).0, char_pos(src, i).1)
}

/// `prefix` put in front of the tokens of `r`; an error stays as it is.
pub open spec fn prepend(
    prefix: Seq<(TokenTypes, Seq<char>, int, int)>,
    r: Result<Seq<(TokenTypes, Seq<char>, int, int)>, (int, int, Seq<char>)>,
) -> Result<Seq<(TokenTypes, Seq<char>, int, int)>, (int, int, Seq<char>)> {
    match r {
        Ok(s) => Ok(prefix + s),
        Err(e) => Err(e),
    }
}

/// An error at the character `i`: its line, column and message.
pub open spec fn error_at(src: Seq<char>, i: int, m: Seq<char>) -> (int, int, Seq<char>) {
    (char_pos(src, i).0, char_pos(src, i).1, m)
}

/// The token that starts at the non-space character `i` and the index where
/// scanning goes on (past the rest of the line, for a comment), or the
/// lexical error as line, column and message.
pub open spec fn lex_step(src: Seq<char>, i: int) -> Result<((TokenTypes, Seq<char>, int, int), int), (int, int, Seq<char>)> {
    let c = src[i];
    if starts_identifier(c) {
        let e = identifier_end(src, i + 1);
        let s = src.subrange(i, e);
        Ok((token_at(src, i, keyword_type(s), s), e))
    } else if starts_number(c) {
        match number_scan(src, i, None, false, seq![]) {
            Ok((s, e)) => Ok((token_at(src, i, TokenTypes::NumberLiteral, s), e)),
            Err((j, m)) => Err(error_at(src, j, m)),
        }
    } else if is_quote(c) {
        match string_scan(src, i + 1, c, seq![]) {
            Ok((s, e)) => Ok((token_at(src, i, TokenTypes::StringLiteral, s), e)),
            Err(m) => Err(error_at(src, i, m)),
        }
    } else {
        let next = if i + 1 < src.len() { Some(src[i + 1]) } else { None };
        match operator_spec(c, next) {
            None => Err(error_at(src, i, "Unknown Token '"@ + seq![c] + "'"@)),
            Some((k, w)) => {
                let tok = token_at(src, i, k, src.subrange(i, i + w));
                if k is Comment {
                    Ok((tok, line_end(src, i + w)))
                } else {
                    Ok((tok, i + w))
                }
            },
        }
    }
}

pub proof fn lemma_lex_step_end(src: Seq<char>, i: int)
    requires
        0 <= i < src.len(),
    ensures
        lex_step(src, i) matches Ok((_, e)) ==> i < e <= src.len(),
{
    let c = src[i];
    lemma_identifier_end(src, i + 1);
    lemma_number_scan_end(src, i + 1, Some(i), c == '.', seq![c]);
    lemma_string_scan_end(src, i + 1, c, seq![]);
    let next = if i + 1 < src.len() { Some(src[i + 1]) } else { None };
    lemma_operator_width(c, next);
    if let Some((_, w)) = operator_spec(c, next) {
        lemma_line_end(src, i + w);
    }
}

/// The tokens of `src` from the character `i` on, ending in the end-of-file
/// token, or the first lexical error as line, column and message.
pub open spec fn lex_from(src: Seq<char>, i: int) -> Result<Seq<(TokenTypes, Seq<char>, int, int)>, (int, int, Seq<char>)>
    decreases src.len() - i,
{
    if i < 0 || i >= src.len() {
        Ok(seq![token_at(src, src.len() as int, TokenTypes::EOF, seq![])])
    } else if is_space(src[i]) {
        lex_from(src, i + 1)
    } else {
        proof {
            lemma_lex_step_end(src, i);
        }
        match lex_step(src, i) {
            Ok((tok, e)) => prepend(seq![tok], lex_from(src, e)),
            Err(x) => Err(x),
        }
    }
}

} // verus!

verus! {

pub proof fn lemma_pos_after_bounds(src: Seq<char>, n: int)
    requires
        0 <= n,
    ensures
        1 <= pos_after(src, n).0 <= n + 1,
        0 <= pos_after(src, n).1 <= n,
    decreases n,
{
    if n > 0 {
        lemma_pos_after_bounds(src, n - 1);
    }
}

/// The position of the character at `i` as a `Start`.
pub open spec fn start_of(src: Seq<char>, i: int) -> crate::types::Start {
    crate::types::Start { line: char_pos(src, i).0 as u32, column: char_pos(src, i).1 as u32 }
}

pub open spec fn as_index(p: Option<usize>) -> Option<int> {
    match p {
        Some(x) => Some(x as int),
        None => None,
    }
}

/// A lexical error at the character `i`.
pub open spec fn is_lexical_error(e: CompileError, src: Seq<char>, i: int, m: Seq<char>) -> bool {
    is_error(e, ErrorKind::Lexical, Some(start_of(src, i)), m)
}

/// Turns source text into tokens.
#[derive(Debug)]
pub struct Lexer {
    source: Vec<char>,
    pos: usize,
    current_line: u32,
    current_column: u32,
    is_end_of_file: bool,
    pub token_list: Vec<Token>,
}

impl Lexer {
    /// The characters being scanned.
    pub closed spec fn source_spec(&self) -> Seq<char> {
        self.source@
    }

    /// The tokens produced so far.
    pub closed spec fn tokens(&self) -> Seq<Token> {
        self.token_list@
    }

    pub closed spec fn pos_spec(&self) -> int {
        self.pos as int
    }

    pub closed spec fn wf(&self) -> bool {
        &&& self.source@.len() < MAX_SOURCE_LEN
        &&& self.pos <= self.source@.len()
        &&& self.is_end_of_file == (self.pos == self.source@.len())
        &&& self.current_line as int == char_pos(self.source@, self.pos as int).0
        &&& self.current_column as int == char_pos(self.source@, self.pos as int).1
    }

    /// A lexer over `source`, whose length must fit the position fields.
    pub fn new(source: &str) -> (r: Lexer)
        requires
            source@.len() < MAX_SOURCE_LEN,
        ensures
            r.wf(),
            r.source_spec() == source@,
            r.pos_spec() == 0,
            r.tokens().len() == 0,
    {
        let chars = chars_of(source);
        let mut lexer = Lexer {
            source: chars,
            pos: 0,
            current_line: 1,
            current_column: 0,
            is_end_of_file: true,
            token_list: Vec::new(),
        };
        lexer.rewind();
        lexer
    }

    /// Puts the cursor on the first character.
    fn rewind(&mut self)
        requires
            old(self).source@.len() < MAX_SOURCE_LEN,
        ensures
            final(self).wf(),
            final(self).pos == 0,
            final(self).source == old(self).source,
            final(self).token_list == old(self).token_list,
    {
        proof {
            reveal_with_fuel(pos_after, 2);
        }
        self.pos = 0;
        self.current_line = 1;
        self.current_column = 0;
        self.is_end_of_file = self.source.len() == 0;
        if self.source.len() > 0 {
            if is_line_break(self.source[0]) {
                self.move_to_next_line();
            } else {
                self.current_column = 1;
            }
        }
    }

    fn here(&self) -> (r: crate::types::Start)
        requires
            self.wf(),
        ensures
            r == start_of(self.source@, self.pos as int),
            r.line as int == char_pos(self.source@, self.pos as int).0,
            r.column as int == char_pos(self.source@, self.pos as int).1,
    {
        crate::types::Start { line: self.current_line, column: self.current_column }
    }

    fn move_to_next_line(&mut self)
        requires
            old(self).current_line < 0xffff_ffff,
        ensures
            final(self).current_line == old(self).current_line + 1,
            final(self).current_column == 0,
            final(self).source == old(self).source,
            final(self).pos == old(self).pos,
            final(self).is_end_of_file == old(self).is_end_of_file,
            final(self).token_list == old(self).token_list,
    {
        self.current_line = self.current_line + 1;
        self.current_column = 0;
    }

    /// Steps to the next character, keeping line and column current.
    fn move_to_next_char(&mut self)
        requires
            old(self).wf(),
            old(self).pos < old(self).source@.len(),
        ensures
            final(self).wf(),
            final(self).pos == old(self).pos + 1,
            final(self).source == old(self).source,
            final(self).token_list == old(self).token_list,
    {
        proof {
            lemma_pos_after_bounds(self.source@, self.pos + 1);
        }
        self.pos = self.pos + 1;
        if self.pos < self.source.len() {
            if is_line_break(self.source[self.pos]) {
                self.move_to_next_line();
            } else {
                self.current_column = self.current_column + 1;
            }
        } else {
            self.is_end_of_file = true;
        }
    }

    /// Scans an identifier or keyword starting at the cursor.
    fn determine_alphabetic_token(&mut self) -> (t: Token)
        requires
            old(self).wf(),
            old(self).pos < old(self).source@.len(),
            starts_identifier(old(self).source@[old(self).pos as int]),
        ensures
            final(self).wf(),
            final(self).source == old(self).source,
            final(self).token_list == old(self).token_list,
            final(self).pos == identifier_end(old(self).source@, old(self).pos + 1),
            token_view(t) == token_at(
                old(self).source@,
                old(self).pos as int,
                keyword_type(old(self).source@.subrange(old(self).pos as int, final(self).pos as int)),
                old(self).source@.subrange(old(self).pos as int, final(self).pos as int),
            ),
    {
        let start = self.here();
        let first = self.pos;
        let mut text: Vec<char> = Vec::new();
        text.push(self.source[self.pos]);
        self.move_to_next_char();
        while self.pos < self.source.len() && is_valid_following_identifier(self.source[self.pos])
            invariant
                self.wf(),
                self.source == old(self).source,
                self.token_list == old(self).token_list,
                first < self.pos,
                text@ == self.source@.subrange(first as int, self.pos as int),
                identifier_end(self.source@, first + 1) == identifier_end(self.source@, self.pos as int),
            decreases self.source@.len() - self.pos,
        {
            text.push(self.source[self.pos]);
            self.move_to_next_char();
            assert(text@ =~= self.source@.subrange(first as int, self.pos as int));
        }
        let token_type = determine_alphabetic_token_type(&text);
        Token { token_value: string_of(&text), token_type, column_number: start.column, line_number: start.line }
    }

    /// Scans a number literal starting at the cursor: digits, `_` between
    /// digits and at most one `.`.
    fn determine_number_literal(&mut self) -> (r: Result<Token, CompileError>)
        requires
            old(self).wf(),
            old(self).pos < old(self).source@.len(),
        ensures
            final(self).wf(),
            final(self).source == old(self).source,
            final(self).token_list == old(self).token_list,
            match number_scan(old(self).source@, old(self).pos as int, None, false, seq![]) {
                Ok((s, e)) => r is Ok && final(self).pos == e
                    && token_view(r->Ok_0) == token_at(old(self).source@, old(self).pos as int, TokenTypes::NumberLiteral, s),
                Err((j, m)) => r is Err && is_lexical_error(r->Err_0, old(self).source@, j, m),
            },
    {
        let start = self.here();
        let ghost first = self.pos as int;
        let mut text: Vec<char> = Vec::new();
        let mut has_dot = false;
        let mut prev: Option<usize> = None;
        let mut prev_start = start;
        loop
            invariant
                self.wf(),
                self.source == old(self).source,
                self.token_list == old(self).token_list,
                start == start_of(self.source@, first),
                start.line as int == char_pos(self.source@, first).0,
                start.column as int == char_pos(self.source@, first).1,
                first == old(self).pos,
                number_scan(self.source@, first, None, false, seq![])
                    == number_scan(self.source@, self.pos as int, as_index(prev), has_dot, text@),
                prev is Some ==> prev->0 < self.pos && prev_start == start_of(self.source@, prev->0 as int),
            decreases self.source@.len() - self.pos,
        {
            if self.pos >= self.source.len() {
                let value = string_of(&text);
                return Ok(Token { token_value: value, token_type: TokenTypes::NumberLiteral, column_number: start.column, line_number: start.line });
            }
            let c = self.source[self.pos];
            if has_dot && c == '.' {
                return Err(lexical_error(self.here(), String::from_str("Cannot have multiple '.' in a number literal")));
            }
            let dot = has_dot || c == '.';
            if let Some(p) = prev {
                let pc = self.source[p];
                if pc == '_' && c == '_' {
                    return Err(lexical_error(self.here(), String::from_str("Cannot have multiple adjacent '_'")));
                } else if !is_number_digit(pc) && !is_number_digit(c) {
                    if is_whitespace(c) {
                        has_dot = dot;
                        self.move_to_next_char();
                        continue;
                    }
                    if pc == '_' {
                        return Err(lexical_error(prev_start, String::from_str("'_' can only appear between digits")));
                    }
                    return Err(lexical_error(prev_start, String::from_str("'.' can only appear between or on the start of numeric literals")));
                }
            }
            if is_valid_number_literal(c) {
                text.push(c);
                prev = Some(self.pos);
                prev_start = self.here();
                has_dot = dot;
                self.move_to_next_char();
            } else {
                let value = string_of(&text);
                return Ok(Token { token_value: value, token_type: TokenTypes::NumberLiteral, column_number: start.column, line_number: start.line });
            }
        }
    }

    /// Scans a string literal whose opening quote is at the cursor; the value
    /// leaves out the quotes and resolves escape sequences.
    fn determine_string_literal(&mut self) -> (r: Result<Token, CompileError>)
        requires
            old(self).wf(),
            old(self).pos < old(self).source@.len(),
        ensures
            final(self).wf(),
            final(self).source == old(self).source,
            final(self).token_list == old(self).token_list,
            match string_scan(old(self).source@, old(self).pos + 1, old(self).source@[old(self).pos as int], seq![]) {
                Ok((s, e)) => r is Ok && final(self).pos == e
                    && token_view(r->Ok_0) == token_at(old(self).source@, old(self).pos as int, TokenTypes::StringLiteral, s),
                Err(m) => r is Err && is_lexical_error(r->Err_0, old(self).source@, old(self).pos as int, m),
            },
    {
        let start = self.here();
        let ghost first = self.pos as int;
        let quote = self.source[self.pos];
        let mut text: Vec<char> = Vec::new();
        self.move_to_next_char();
        loop
            invariant
                self.wf(),
                self.source == old(self).source,
                self.token_list == old(self).token_list,
                start == start_of(self.source@, first),
                start.line as int == char_pos(self.source@, first).0,
                start.column as int == char_pos(self.source@, first).1,
                first == old(self).pos,
                quote == self.source@[first],
                string_scan(self.source@, first + 1, quote, seq![])
                    == string_scan(self.source@, self.pos as int, quote, text@),
            decreases self.source@.len() - self.pos,
        {
            if self.pos >= self.source.len() {
                let quoted = join3("String literal '", char_string(quote).as_str(), "' not terminated before the end of file");
                return Err(lexical_error(start, quoted));
            }
            let c = self.source[self.pos];
            if is_line_break(c) {
                let quoted = join3("String literal '", char_string(quote).as_str(), "' must be terminated within the same line");
                return Err(lexical_error(start, quoted));
            }
            if c == '\\' {
                let escape = if self.pos + 1 < self.source.len() { get_escaped_char(self.source[self.pos + 1]) } else { None };
                match escape {
                    Some(e) => {
                        text.push(e);
                        self.move_to_next_char();
                        self.move_to_next_char();
                    },
                    None => {
                        let quoted = join3("String literal '", char_string(quote).as_str(), "' holds an unknown escape sequence");
                        return Err(lexical_error(start, quoted));
                    },
                }
            } else if c == quote {
                self.move_to_next_char();
                let value = string_of(&text);
                return Ok(Token { token_value: value, token_type: TokenTypes::StringLiteral, column_number: start.column, line_number: start.line });
            } else {
                text.push(c);
                self.move_to_next_char();
            }
        }
    }

    /// Scans an operator or punctuation token at the cursor, taking a second
    /// character where the two form one token.
    fn determine_token(&mut self) -> (r: Result<Token, CompileError>)
        requires
            old(self).wf(),
            old(self).pos < old(self).source@.len(),
        ensures
            final(self).wf(),
            final(self).source == old(self).source,
            final(self).token_list == old(self).token_list,
            ({
                let src = old(self).source@;
                let i = old(self).pos as int;
                let next = if i + 1 < src.len() { Some(src[i + 1]) } else { None };
                match operator_spec(src[i], next) {
                    Some((k, w)) => r is Ok && final(self).pos == i + w
                        && token_view(r->Ok_0) == token_at(src, i, k, src.subrange(i, i + w)),
                    None => r is Err && is_lexical_error(r->Err_0, src, i, "Unknown Token '"@ + seq![src[i]] + "'"@),
                }
            }),
    {
        let start = self.here();
        let first_char = self.source[self.pos];
        let next = if self.pos + 1 < self.source.len() { Some(self.source[self.pos + 1]) } else { None };
        match determine_operator(first_char, next) {
            None => {
                let unknown = join3("Unknown Token '", char_string(first_char).as_str(), "'");
                Err(lexical_error(start, unknown))
            },
            Some((token_type, width)) => {
                let mut text: Vec<char> = Vec::new();
                text.push(first_char);
                self.move_to_next_char();
                if width == 2 {
                    text.push(self.source[self.pos]);
                    self.move_to_next_char();
                }
                assert(text@ =~= self.source@.subrange(old(self).pos as int, old(self).pos + width));
                Ok(Token { token_value: string_of(&text), token_type, column_number: start.column, line_number: start.line })
            },
        }
    }

    /// Scans the token at the cursor, which is not whitespace; after a
    /// comment marker the rest of the line is passed over.
    fn next_token(&mut self) -> (r: Result<Token, CompileError>)
        requires
            old(self).wf(),
            old(self).pos < old(self).source@.len(),
            !is_space(old(self).source@[old(self).pos as int]),
        ensures
            final(self).wf(),
            final(self).source == old(self).source,
            final(self).token_list == old(self).token_list,
            match lex_step(old(self).source@, old(self).pos as int) {
                Ok((tv, e)) => r is Ok && token_view(r->Ok_0) == tv && final(self).pos == e,
                Err((l, c, m)) => r is Err && r->Err_0.kind == ErrorKind::Lexical
                    && r->Err_0.start == Some(crate::types::Start { line: l as u32, column: c as u32 })
                    && r->Err_0.message@ == m,
            },
    {
        let c = self.source[self.pos];
        if is_valid_initial_identifier(c) {
            Ok(self.determine_alphabetic_token())
        } else if is_valid_number_literal_initializer(c) {
            self.determine_number_literal()
        } else if is_valid_string_literal(c) {
            self.determine_string_literal()
        } else {
            let r = self.determine_token();
            if let Ok(t) = &r {
                if t.token_type == TokenTypes::Comment {
                    self.ignore_current_line();
                }
            }
            r
        }
    }

    /// Scans the whole source from its start. On success `token_list` holds
    /// the tokens, ending in one end-of-file token at the last position; else
    /// the first lexical error is returned.
    pub fn scan_source_code(&mut self) -> (r: Result<(), CompileError>)
        requires
            old(self).wf(),
        ensures
            final(self).wf(),
            final(self).source_spec() == old(self).source_spec(),
            r is Ok ==> crate::parser::tokens_ok(final(self).tokens()),
            match lex_from(old(self).source_spec(), 0) {
                Ok(ts) => r is Ok && token_views(final(self).tokens()) == ts,
                Err((l, c, m)) => r is Err && r->Err_0.kind == ErrorKind::Lexical
                    && r->Err_0.start == Some(crate::types::Start { line: l as u32, column: c as u32 })
                    && r->Err_0.message@ == m,
            },
    {
        self.rewind();
        self.token_list = Vec::new();
        let ghost src = self.source@;
        assert(token_views(self.token_list@) =~= seq![]);
        assert(prepend(seq![], lex_from(src, 0)) == lex_from(src, 0)) by {
            match lex_from(src, 0) {
                Ok(ts) => assert(seq![] + ts =~= ts),
                Err(_) => {},
            }
        }
        while self.pos < self.source.len()
            invariant
                self.wf(),
                self.source@ == src,
                src == old(self).source@,
                lex_from(src, 0) == prepend(token_views(self.token_list@), lex_from(src, self.pos as int)),
            decreases self.source@.len() - self.pos,
        {
            let ghost before = token_views(self.token_list@);
            if is_whitespace(self.source[self.pos]) {
                self.move_to_next_char();
            } else {
                proof {
                    lemma_lex_step_end(src, self.pos as int);
                }
                match self.next_token() {
                    Ok(token) => {
                        let ghost tv = token_view(token);
                        self.token_list.push(token);
                        proof {
                            assert(token_views(self.token_list@) =~= before + seq![tv]);
                            lemma_prepend_assoc(before, seq![tv], lex_from(src, self.pos as int));
                        }
                    },
                    Err(e) => return Err(e),
                }
            }
        }
        let ghost before = token_views(self.token_list@);
        let here = self.here();
        self.token_list.push(Token { token_value: String::new(), token_type: TokenTypes::EOF, column_number: here.column, line_number: here.line });
        proof {
            assert(token_views(self.token_list@) =~= before + seq![token_at(src, src.len() as int, TokenTypes::EOF, seq![])]);
            lemma_lex_ends_in_eof(src, 0);
            let ts = token_views(self.token_list@);
            assert forall|k: int| 0 <= k < self.token_list@.len() - 1 implies (#[trigger] self.token_list@[k]).token_type != TokenTypes::EOF by {
                assert(ts[k].0 == self.token_list@[k].token_type);
            }
            assert(ts[ts.len() - 1].0 == self.token_list@.last().token_type);
        }
        Ok(())
    }

    /// Passes over the rest of the current line, leaving the line break.
    fn ignore_current_line(&mut self)
        requires
            old(self).wf(),
        ensures
            final(self).wf(),
            final(self).pos == line_end(old(self).source@, old(self).pos as int),
            final(self).source == old(self).source,
            final(self).token_list == old(self).token_list,
    {
        while self.pos < self.source.len() && !is_line_break(self.source[self.pos])
            invariant
                self.wf(),
                self.source == old(self).source,
                self.token_list == old(self).token_list,
                line_end(self.source@, old(self).pos as int) == line_end(self.source@, self.pos as int),
            decreases self.source@.len() - self.pos,
        {
            self.move_to_next_char();
        }
    }
}

pub proof fn lemma_prepend_assoc(
    a: Seq<(TokenTypes, Seq<char>, int, int)>,
    b: Seq<(TokenTypes, Seq<char>, int, int)>,
    r: Result<Seq<(TokenTypes, Seq<char>, int, int)>, (int, int, Seq<char>)>,
)
    ensures
        prepend(a, prepend(b, r)) == prepend(a + b, r),
{
    match r {
        Ok(s) => assert(a + (b + s) =~= (a + b) + s),
        Err(_) => {},
    }
}

fn lexical_error(at: crate::types::Start, message: String) -> (e: CompileError)
    ensures
        is_error(e, ErrorKind::Lexical, Some(at), message@),
{
    CompileError { kind: ErrorKind::Lexical, start: Some(at), message }
}

/// The operator or punctuation token that `first` starts when followed by
/// `next`, with its width in characters.
pub fn determine_operator(first: char, next: Option<char>) -> (r: Option<(TokenTypes, usize)>)
    ensures
        match operator_spec(first, next) {
            Some((k, w)) => r == Some((k, w as usize)),
            None => r is None,
        },
{
    let eq = next == Some('=');
    match first {
        '=' => if eq { Some((TokenTypes::LogicalEquals, 2)) } else { Some((TokenTypes::Assign, 1)) },
        '+' => if eq { Some((TokenTypes::AssignPlus, 2)) } else { Some((TokenTypes::BinaryPlus, 1)) },
        '-' => if eq { Some((TokenTypes::AssignMinus, 2)) } else { Some((TokenTypes::BinaryMinus, 1)) },
        '/' => if eq {
            Some((TokenTypes::AssignDivision, 2))
        } else if next == Some('/') {
            Some((TokenTypes::Comment, 2))
        } else {
            Some((TokenTypes::BinaryDivision, 1))
        },
        '*' => if eq { Some((TokenTypes::AssignMultiply, 2)) } else { Some((TokenTypes::BinaryMultiply, 1)) },
        '%' => if eq { Some((TokenTypes::AssignRest, 2)) } else { Some((TokenTypes::BinaryRest, 1)) },
        '<' => if eq {
            Some((TokenTypes::LogicalSmallerOrEqualsThan, 2))
        } else {
            Some((TokenTypes::LogicalSmallerThan, 1))
        },
        '>' => if eq {
            Some((TokenTypes::LogicalGreaterOrEqualsThan, 2))
        } else {
            Some((TokenTypes::LogicalGreaterThan, 1))
        },
        '!' => if eq { Some((TokenTypes::LogicalDifferent, 2)) } else { Some((TokenTypes::LogicalNot, 1)) },
        '&' => Some((TokenTypes::LogicalAnd, 1)),
        '|' => Some((TokenTypes::LogicalOr, 1)),
        '"' => Some((TokenTypes::DoubleQuotes, 1)),
        '\'' => Some((TokenTypes::SingleQuotes, 1)),
        '(' => Some((TokenTypes::LeftParenthesis, 1)),
        ')' => Some((TokenTypes::RightParenthesis, 1)),
        '[' => Some((TokenTypes::LeftSquareBracket, 1)),
        ']' => Some((TokenTypes::RightSquareBracket, 1)),
        '{' => Some((TokenTypes::LeftCurlyBrace, 1)),
        '}' => Some((TokenTypes::RightCurlyBrace, 1)),
        '.' => Some((TokenTypes::Dot, 1)),
        ':' => Some((TokenTypes::Colon, 1)),
        ';' => Some((TokenTypes::Semicolon, 1)),
        ',' => Some((TokenTypes::Comma, 1)),
        _ => None,
    }
}

pub fn is_line_break(c: char) -> (r: bool)
    ensures
        r == is_new_line(c),
{
    c == '\n' || c == '\r'
}

pub fn is_whitespace(c: char) -> (r: bool)
    ensures
        r == is_space(c),
{
    c == ' ' || c == '\t' || c == '\n' || c == '\x0C' || c == '\r'
}

pub fn is_alphabetic(c: char) -> (r: bool)
    ensures
        r == is_alpha(c),
{
    ('a' <= c && c <= 'z') || ('A' <= c && c <= 'Z')
}

pub fn is_number_digit(c: char) -> (r: bool)
    ensures
        r == is_digit(c),
{
    '0' <= c && c <= '9'
}

pub fn is_valid_initial_identifier(c: char) -> (r: bool)
    ensures
        r == starts_identifier(c),
{
    is_alphabetic(c) || c == '_'
}

pub fn is_valid_following_identifier(c: char) -> (r: bool)
    ensures
        r == continues_identifier(c),
{
    is_alphabetic(c) || c == '_' || is_number_digit(c)
}

pub fn is_valid_number_literal_initializer(c: char) -> (r: bool)
    ensures
        r == starts_number(c),
{
    is_number_digit(c) || c == '.'
}

pub fn is_valid_number_literal(c: char) -> (r: bool)
    ensures
        r == in_number(c),
{
    is_number_digit(c) || c == '_' || c == '.'
}

pub fn is_valid_string_literal(c: char) -> (r: bool)
    ensures
        r == is_quote(c),
{
    c == '\'' || c == '"'
}

/// The character an escape sequence `\c` stands for.
pub fn get_escaped_char(c: char) -> (r: Option<char>)
    ensures
        r == escaped(c),
{
    match c {
        'n' => Some('\n'),
        'r' => Some('\r'),
        't' => Some('\t'),
        '\\' => Some('\\'),
        '\'' => Some('\''),
        '"' => Some('"'),
        _ => None,
    }
}

/// Whether the characters of `v` are those of `w`.
pub fn is_word(v: &Vec<char>, w: &str) -> (r: bool)
    ensures
        r == (v@ == w@),
{
    let n = w.unicode_len();
    if v.len() != n {
        return false;
    }
    let mut i: usize = 0;
    while i < n
        invariant
            n == w@.len(),
            v@.len() == n,
            i <= n,
            forall|j: int| 0 <= j < i ==> v@[j] == w@[j],
        decreases n - i,
    {
        if v[i] != w.get_char(i) {
            return false;
        }
        i = i + 1;
    }
    assert(v@ =~= w@);
    true
}

/// The token kind of an identifier-shaped text: a keyword's own kind, else `Identifier`.
pub fn determine_alphabetic_token_type(v: &Vec<char>) -> (r: TokenTypes)
    ensures
        r == keyword_type(v@),
{
    if is_word(v, "true") { TokenTypes::True }
    else if is_word(v, "false") { TokenTypes::False }
    else if is_word(v, "null") { TokenTypes::Null }
    else if is_word(v, "Boo") { TokenTypes::Boo }
    else if is_word(v, "Int") { TokenTypes::Int }
    else if is_word(v, "Flo") { TokenTypes::Flo }
    else if is_word(v, "Str") { TokenTypes::Str }
    else if is_word(v, "Nul") { TokenTypes::Nul }
    else if is_word(v, "Arr") { TokenTypes::Arr }
    else if is_word(v, "let") { TokenTypes::ConstantVariable }
    else if is_word(v, "mut") { TokenTypes::MutableVariable }
    else if is_word(v, "func") { TokenTypes::Function }
    else if is_word(v, "while") { TokenTypes::While }
    else if is_word(v, "if") { TokenTypes::If }
    else if is_word(v, "elseif") { TokenTypes::ElseIf }
    else if is_word(v, "else") { TokenTypes::Else }
    else if is_word(v, "brk") { TokenTypes::Break }
    else if is_word(v, "cnt") { TokenTypes::Continue }
    else if is_word(v, "ret") { TokenTypes::Return }
    else if is_word(v, "for") { TokenTypes::For }
    else { TokenTypes::Identifier }
}

} // verus!

verus! {

/// `src` from the character `i` on with whitespace and comments removed.
pub open spec fn strip_from(src: Seq<char>, i: int) -> Seq<char>
    decreases src.len() - i,
{
    if i < 0 || i >= src.len() {
        seq![]
    } else if src[i] == '/' && i + 1 < src.len() && src[i + 1] == '/' {
        proof {
            lemma_line_end(src, i + 2);
        }
        strip_from(src, line_end(src, i + 2))
    } else if is_space(src[i]) {
        strip_from(src, i + 1)
    } else {
        seq![src[i]] + strip_from(src, i + 1)
    }
}

/// The texts of the tokens joined, leaving out comment markers.
pub open spec fn joined_texts(ts: Seq<(TokenTypes, Seq<char>, int, int)>) -> Seq<char>
    decreases ts.len(),
{
    if ts.len() == 0 {
        seq![]
    } else if ts[0].0 is Comment {
        joined_texts(ts.drop_first())
    } else {
        ts[0].1 + joined_texts(ts.drop_first())
    }
}

proof fn lemma_strip_identifier(src: Seq<char>, i: int)
    requires
        0 <= i <= src.len(),
    ensures
        identifier_end(src, i) <= src.len(),
        strip_from(src, i) == src.subrange(i, identifier_end(src, i)) + strip_from(src, identifier_end(src, i)),
    decreases src.len() - i,
{
    lemma_identifier_end(src, i);
    let e = identifier_end(src, i);
    if i < src.len() && continues_identifier(src[i]) {
        lemma_strip_identifier(src, i + 1);
        assert(src.subrange(i, e) =~= seq![src[i]] + src.subrange(i + 1, e));
    } else {
        assert(src.subrange(i, e) =~= seq![]);
    }
}

proof fn lemma_strip_number(src: Seq<char>, i: int, prev: Option<int>, has_dot: bool, acc: Seq<char>)
    requires
        0 <= i <= src.len(),
    ensures
        number_scan(src, i, prev, has_dot, acc) matches Ok((s, e)) ==> acc + strip_from(src, i) == s + strip_from(src, e),
    decreases src.len() - i,
{
    if i < src.len() {
        let c = src[i];
        let dot = has_dot || c == '.';
        lemma_strip_number(src, i + 1, prev, dot, acc);
        lemma_strip_number(src, i + 1, Some(i), dot, acc.push(c));
        if in_number(c) {
            assert(acc.push(c) + strip_from(src, i + 1) =~= acc + (seq![c] + strip_from(src, i + 1)));
        }
    }
}

proof fn lemma_strip_plain(src: Seq<char>, i: int, e: int)
    requires
        0 <= i <= e <= src.len(),
        forall|k: int| i <= k < e ==> !is_space(#[trigger] src[k]) && !(src[k] == '/' && k + 1 < src.len() && src[k + 1] == '/'),
    ensures
        strip_from(src, i) == src.subrange(i, e) + strip_from(src, e),
    decreases e - i,
{
    if i < e {
        lemma_strip_plain(src, i + 1, e);
        assert(src.subrange(i, e) =~= seq![src[i]] + src.subrange(i + 1, e));
    } else {
        assert(src.subrange(i, e) =~= seq![]);
    }
}

proof fn lemma_round_trip_from(src: Seq<char>, i: int)
    requires
        0 <= i <= src.len(),
        lex_from(src, i) is Ok,
        forall|k: int| 0 <= k < src.len() ==> !is_quote(#[trigger] src[k]),
    ensures
        joined_texts(lex_from(src, i)->Ok_0) == strip_from(src, i),
    decreases src.len() - i,
{
    if i == src.len() {
        let ts = lex_from(src, i)->Ok_0;
        assert(joined_texts(ts.drop_first()) == Seq::<char>::empty());
        assert(ts[0].1 + Seq::<char>::empty() =~= Seq::<char>::empty());
    } else if is_space(src[i]) {
        lemma_round_trip_from(src, i + 1);
    } else {
        lemma_lex_step_end(src, i);
        let (tok, e) = lex_step(src, i)->Ok_0;
        lemma_round_trip_from(src, e);
        let rest = lex_from(src, e)->Ok_0;
        let ts = seq![tok] + rest;
        assert(ts.drop_first() =~= rest);
        assert(ts[0] == tok);
        let c = src[i];
        if starts_identifier(c) {
            lemma_strip_identifier(src, i + 1);
            assert(src.subrange(i, e) =~= seq![c] + src.subrange(i + 1, e));
        } else if starts_number(c) {
            lemma_strip_number(src, i + 1, Some(i), c == '.', seq![c]);
            assert(seq![c] + strip_from(src, i + 1) =~= Seq::<char>::empty() + strip_from(src, i));
            assert(Seq::<char>::empty().push(c) =~= seq![c]);
        } else {
            let next = if i + 1 < src.len() { Some(src[i + 1]) } else { None };
            let (k, w) = operator_spec(c, next)->0;
            lemma_operator_width(c, next);
            if !(k is Comment) {
                lemma_strip_plain(src, i, i + w);
            }
        }
    }
}

/// Lexing loses only whitespace and comments: for a source free of string
/// literals that lexes without error, the texts of the tokens other than
/// comment markers, joined in order, are the source with its whitespace and
/// comments removed.
pub proof fn lemma_round_trip(src: Seq<char>)
    requires
        lex_from(src, 0) is Ok,
        forall|k: int| 0 <= k < src.len() ==> !is_quote(#[trigger] src[k]),
    ensures
        joined_texts(lex_from(src, 0)->Ok_0) == strip_from(src, 0),
{
    lemma_round_trip_from(src, 0);
}

} // verus!

verus! {

/// A token stream that lexing gives ends in its one end-of-file token.
pub proof fn lemma_lex_ends_in_eof(src: Seq<char>, i: int)
    requires
        0 <= i <= src.len(),
    ensures
        lex_from(src, i) matches Ok(ts) ==> {
            &&& ts.len() > 0
            &&& ts.last().0 is EOF
            &&& forall|k: int| 0 <= k < ts.len() - 1 ==> !((#[trigger] ts[k]).0 is EOF)
        },
    decreases src.len() - i,
{
    if i < src.len() {
        if is_space(src[i]) {
            lemma_lex_ends_in_eof(src, i + 1);
        } else {
            lemma_lex_step_end(src, i);
            if let Ok((tok, e)) = lex_step(src, i) {
                lemma_lex_ends_in_eof(src, e);
                if let Ok(rest) = lex_from(src, e) {
                    let ts = seq![tok] + rest;
                    assert(!(tok.0 is EOF));
                    assert forall|k: int| 0 <= k < ts.len() - 1 implies !((#[trigger] ts[k]).0 is EOF) by {
                        if k > 0 {
                            assert(ts[k] == rest[k - 1]);
                        }
                    }
                    assert(ts.last() == rest.last());
                }
            }
        }
    }
}

} // verus!

verus! {

/// The kinds and texts of the tokens, leaving out comment markers and the end of file.
pub open spec fn essence(ts: Seq<(TokenTypes, Seq<char>, int, int)>) -> Seq<(TokenTypes, Seq<char>)>
    decreases ts.len(),
{
    if ts.len() == 0 {
        seq![]
    } else if ts[0].0 is Comment || ts[0].0 is EOF {
        essence(ts.drop_first())
    } else {
        seq![(ts[0].0, ts[0].1)] + essence(ts.drop_first())
    }
}

/// The texts of `l` joined by single spaces.
pub open spec fn spaced(l: Seq<(TokenTypes, Seq<char>)>) -> Seq<char>
    decreases l.len(),
{
    if l.len() == 0 {
        seq![]
    } else if l.len() == 1 {
        l[0].1
    } else {
        l[0].1 + seq![' '] + spaced(l.drop_first())
    }
}

pub open spec fn shift_index(p: Option<int>, d: int) -> Option<int> {
    match p {
        Some(x) => Some(x + d),
        None => None,
    }
}

proof fn lemma_shift_identifier_end(p: Seq<char>, q: Seq<char>, j: int)
    requires
        0 <= j <= q.len(),
    ensures
        identifier_end(p + q, p.len() + j) == p.len() + identifier_end(q, j),
    decreases q.len() - j,
{
    if j < q.len() {
        assert((p + q)[p.len() + j] == q[j]);
        lemma_shift_identifier_end(p, q, j + 1);
    }
}

proof fn lemma_shift_line_end(p: Seq<char>, q: Seq<char>, j: int)
    requires
        0 <= j <= q.len(),
    ensures
        line_end(p + q, p.len() + j) == p.len() + line_end(q, j),
    decreases q.len() - j,
{
    if j < q.len() {
        assert((p + q)[p.len() + j] == q[j]);
        lemma_shift_line_end(p, q, j + 1);
    }
}

proof fn lemma_shift_number_scan(p: Seq<char>, q: Seq<char>, j: int, prev: Option<int>, has_dot: bool, acc: Seq<char>)
    requires
        0 <= j <= q.len(),
        prev matches Some(x) ==> 0 <= x < q.len(),
    ensures
        number_scan(p + q, p.len() + j, shift_index(prev, p.len() as int), has_dot, acc) == match number_scan(q, j, prev, has_dot, acc) {
            Ok((s, e)) => Ok((s, e + p.len())),
            Err((k, m)) => Err((k + p.len(), m)),
        },
    decreases q.len() - j,
{
    if j < q.len() {
        let c = q[j];
        assert((p + q)[p.len() + j] == q[j]);
        if let Some(x) = prev {
            assert((p + q)[p.len() + x] == q[x]);
        }
        lemma_shift_number_scan(p, q, j + 1, prev, has_dot || c == '.', acc);
        lemma_shift_number_scan(p, q, j + 1, Some(j), has_dot || c == '.', acc.push(c));
        assert(shift_index(Some(j), p.len() as int) == Some(p.len() + j));
    }
}

} // verus!

verus! {

proof fn lemma_essence_cons(tok: (TokenTypes, Seq<char>, int, int), rest: Seq<(TokenTypes, Seq<char>, int, int)>)
    ensures
        essence(seq![tok] + rest) == if tok.0 is Comment || tok.0 is EOF {
            essence(rest)
        } else {
            seq![(tok.0, tok.1)] + essence(rest)
        },
{
    assert((seq![tok] + rest).drop_first() =~= rest);
    assert((seq![tok] + rest)[0] == tok);
}

proof fn lemma_shift_lex_step(p: Seq<char>, q: Seq<char>, j: int)
    requires
        0 <= j < q.len(),
        !is_quote(q[j]),
        lex_step(q, j) is Ok,
    ensures
        lex_step(p + q, p.len() + j) is Ok,
        lex_step(p + q, p.len() + j)->Ok_0.0.0 == lex_step(q, j)->Ok_0.0.0,
        lex_step(p + q, p.len() + j)->Ok_0.0.1 == lex_step(q, j)->Ok_0.0.1,
        lex_step(p + q, p.len() + j)->Ok_0.1 == lex_step(q, j)->Ok_0.1 + p.len(),
{
    let x = p + q;
    let i = p.len() + j;
    let c = q[j];
    assert(x[i] == c);
    if starts_identifier(c) {
        lemma_shift_identifier_end(p, q, j + 1);
        lemma_identifier_end(q, j + 1);
        let e = identifier_end(q, j + 1);
        assert(x.subrange(i, e + p.len()) =~= q.subrange(j, e));
    } else if starts_number(c) {
        lemma_shift_number_scan(p, q, j, None, false, seq![]);
    } else {
        let next = if j + 1 < q.len() { Some(q[j + 1]) } else { None };
        if j + 1 < q.len() {
            assert(x[i + 1] == q[j + 1]);
        }
        let (k, w) = operator_spec(c, next)->0;
        lemma_operator_width(c, next);
        assert(x.subrange(i, i + w) =~= q.subrange(j, j + w));
        if k is Comment {
            lemma_shift_line_end(p, q, j + w);
        }
    }
}

/// Lexing a suffix gives the same kinds and texts wherever the suffix stands.
proof fn lemma_shift_lex_from(p: Seq<char>, q: Seq<char>, j: int)
    requires
        0 <= j <= q.len(),
        forall|k: int| 0 <= k < q.len() ==> !is_quote(#[trigger] q[k]),
        lex_from(q, j) is Ok,
    ensures
        lex_from(p + q, p.len() + j) is Ok,
        essence(lex_from(p + q, p.len() + j)->Ok_0) == essence(lex_from(q, j)->Ok_0),
    decreases q.len() - j,
{
    let x = p + q;
    let i = p.len() + j;
    if j == q.len() {
        lemma_essence_cons(token_at(x, x.len() as int, TokenTypes::EOF, seq![]), seq![]);
        lemma_essence_cons(token_at(q, q.len() as int, TokenTypes::EOF, seq![]), seq![]);
        assert(seq![token_at(x, x.len() as int, TokenTypes::EOF, seq![])] + Seq::<(TokenTypes, Seq<char>, int, int)>::empty()
            =~= seq![token_at(x, x.len() as int, TokenTypes::EOF, seq![])]);
        assert(seq![token_at(q, q.len() as int, TokenTypes::EOF, seq![])] + Seq::<(TokenTypes, Seq<char>, int, int)>::empty()
            =~= seq![token_at(q, q.len() as int, TokenTypes::EOF, seq![])]);
    } else {
        assert(x[i] == q[j]);
        if is_space(q[j]) {
            lemma_shift_lex_from(p, q, j + 1);
        } else {
            lemma_lex_step_end(q, j);
            lemma_shift_lex_step(p, q, j);
            let (tok, e) = lex_step(q, j)->Ok_0;
            let (tok2, e2) = lex_step(x, i)->Ok_0;
            lemma_shift_lex_from(p, q, e);
            lemma_essence_cons(tok, lex_from(q, e)->Ok_0);
            lemma_essence_cons(tok2, lex_from(x, e2)->Ok_0);
        }
    }
}

} // verus!

verus! {

/// The shape of a number literal's text: number characters, never two
/// non-digits side by side, at most one `.`.
pub open spec fn number_shape(t: Seq<char>) -> bool {
    &&& forall|k: int| 0 <= k < t.len() ==> in_number(#[trigger] t[k])
    &&& forall|k: int| 0 <= k < t.len() - 1 ==> is_digit(#[trigger] t[k]) || is_digit(t[k + 1])
    &&& forall|k1: int, k2: int| 0 <= k1 < t.len() && 0 <= k2 < t.len() && #[trigger] t[k1] == '.' && #[trigger] t[k2] == '.' ==> k1 == k2
}

/// A kind and text that lex back to themselves when followed by a space or by nothing.
pub open spec fn good_token(k: TokenTypes, t: Seq<char>) -> bool {
    &&& t.len() > 0
    &&& forall|i: int| 0 <= i < t.len() ==> !is_quote(#[trigger] t[i])
    &&& if starts_identifier(t[0]) {
        &&& forall|i: int| 1 <= i < t.len() ==> continues_identifier(#[trigger] t[i])
        &&& k == keyword_type(t)
    } else if starts_number(t[0]) {
        number_shape(t) && k is NumberLiteral
    } else {
        &&& !is_space(t[0])
        &&& !(k is Comment)
        &&& ((t.len() == 1 && operator_spec(t[0], None) == Some((k, 1int)) && operator_spec(t[0], Some(' ')) == Some((k, 1int)))
            || (t.len() == 2 && operator_spec(t[0], Some(t[1])) == Some((k, 2int))))
    }
}

/// Every item lexes back to itself, and only the last number may end in a non-digit.
pub open spec fn relexable(l: Seq<(TokenTypes, Seq<char>)>) -> bool {
    forall|k: int| 0 <= k < l.len() ==> good_token(#[trigger] l[k].0, l[k].1)
        && (k < l.len() - 1 && l[k].0 is NumberLiteral ==> is_digit(l[k].1.last()))
}

proof fn lemma_ident_rescan(t: Seq<char>, y: Seq<char>, i: int)
    requires
        1 <= i <= t.len(),
        forall|k: int| 1 <= k < t.len() ==> continues_identifier(#[trigger] t[k]),
        y.len() == 0 || y[0] == ' ',
    ensures
        identifier_end(t + y, i) == t.len(),
    decreases t.len() - i,
{
    if i < t.len() {
        assert((t + y)[i] == t[i]);
        lemma_ident_rescan(t, y, i + 1);
    } else if y.len() > 0 {
        assert((t + y)[i] == ' ');
    }
}

proof fn lemma_number_rescan(t: Seq<char>, y: Seq<char>, i: int)
    requires
        1 <= i <= t.len(),
        number_shape(t),
        y.len() == 0 || (y[0] == ' ' && is_digit(t.last())),
    ensures
        number_scan(t + y, i, Some(i - 1), t.subrange(0, i).contains('.'), t.subrange(0, i)) == Ok::<(Seq<char>, int), (int, Seq<char>)>((t, t.len() as int)),
    decreases t.len() - i,
{
    let x = t + y;
    assert(x[i - 1] == t[i - 1]);
    if i < t.len() {
        let c = t[i];
        assert(x[i] == c);
        assert(in_number(t[i - 1]));
        assert(in_number(c));
        if t.subrange(0, i).contains('.') && c == '.' {
            let k = choose|k: int| 0 <= k < i && #[trigger] t.subrange(0, i)[k] == '.';
            assert(t[k] == '.');
        }
        assert(is_digit(t[i - 1]) || is_digit(t[i]));
        lemma_number_rescan(t, y, i + 1);
        assert(t.subrange(0, i).push(c) =~= t.subrange(0, i + 1));
        assert(t.subrange(0, i + 1).contains('.') == (t.subrange(0, i).contains('.') || c == '.')) by {
            if c == '.' {
                assert(t.subrange(0, i + 1)[i] == '.');
            }
            if t.subrange(0, i + 1).contains('.') && c != '.' {
                let k = choose|k: int| 0 <= k < i + 1 && #[trigger] t.subrange(0, i + 1)[k] == '.';
                assert(t.subrange(0, i)[k] == '.');
            }
            if t.subrange(0, i).contains('.') {
                let k = choose|k: int| 0 <= k < i && #[trigger] t.subrange(0, i)[k] == '.';
                assert(t.subrange(0, i + 1)[k] == '.');
            }
        }
    } else {
        assert(t.subrange(0, i) =~= t);
        if y.len() > 0 {
            assert(x[i] == ' ');
            assert(t.last() == t[i - 1]);
        }
    }
}

/// A good token's text, followed by a space or by nothing, lexes to that token.
proof fn lemma_self_lex(k: TokenTypes, t: Seq<char>, y: Seq<char>)
    requires
        good_token(k, t),
        y.len() == 0 || y[0] == ' ',
        k is NumberLiteral && y.len() > 0 ==> is_digit(t.last()),
    ensures
        lex_step(t + y, 0) is Ok,
        lex_step(t + y, 0)->Ok_0.0.0 == k,
        lex_step(t + y, 0)->Ok_0.0.1 == t,
        lex_step(t + y, 0)->Ok_0.1 == t.len(),
{
    let x = t + y;
    let c = t[0];
    assert(x[0] == c);
    if starts_identifier(c) {
        lemma_ident_rescan(t, y, 1);
        assert(x.subrange(0, t.len() as int) =~= t);
    } else if starts_number(c) {
        assert(in_number(t[0]));
        lemma_number_rescan(t, y, 1);
        assert(seq![c] =~= t.subrange(0, 1));
        assert(Seq::<char>::empty().push(c) =~= seq![c]);
        assert(t.subrange(0, 1).contains('.') == (c == '.')) by {
            if c == '.' {
                assert(t.subrange(0, 1)[0] == '.');
            }
        }
    } else {
        if t.len() == 2 {
            assert(x[1] == t[1]);
        } else if y.len() > 0 {
            assert(x[1] == ' ');
        }
        assert(x.subrange(0, t.len() as int) =~= t);
    }
}

/// The texts of a relexable list joined by spaces lex back to the list.
proof fn lemma_relex_list(l: Seq<(TokenTypes, Seq<char>)>)
    requires
        relexable(l),
    ensures
        lex_from(spaced(l), 0) is Ok,
        essence(lex_from(spaced(l), 0)->Ok_0) == l,
        forall|k: int| 0 <= k < spaced(l).len() ==> !is_quote(#[trigger] spaced(l)[k]),
    decreases l.len(),
{
    let x = spaced(l);
    if l.len() == 0 {
        lemma_essence_cons(token_at(x, 0, TokenTypes::EOF, seq![]), seq![]);
        assert(seq![token_at(x, 0, TokenTypes::EOF, seq![])] + Seq::<(TokenTypes, Seq<char>, int, int)>::empty()
            =~= seq![token_at(x, 0, TokenTypes::EOF, seq![])]);
        assert(essence(seq![]) == Seq::<(TokenTypes, Seq<char>)>::empty());
        assert(l =~= Seq::<(TokenTypes, Seq<char>)>::empty());
    } else {
        let (k, t) = l[0];
        assert(good_token(l[0].0, l[0].1));
        let rest = l.drop_first();
        assert(relexable(rest)) by {
            assert forall|j: int| 0 <= j < rest.len() implies good_token(#[trigger] rest[j].0, rest[j].1)
                && (j < rest.len() - 1 && rest[j].0 is NumberLiteral ==> is_digit(rest[j].1.last())) by {
                assert(rest[j] == l[j + 1]);
            }
        }
        lemma_relex_list(rest);
        if l.len() == 1 {
            assert(x == t);
            lemma_self_lex(k, t, seq![]);
            assert(t + Seq::<char>::empty() =~= t);
            let (tok, e) = lex_step(x, 0)->Ok_0;
            lemma_essence_cons(tok, lex_from(x, e)->Ok_0);
            let eof = token_at(x, x.len() as int, TokenTypes::EOF, seq![]);
            lemma_essence_cons(eof, seq![]);
            assert(seq![eof] + Seq::<(TokenTypes, Seq<char>, int, int)>::empty() =~= seq![eof]);
            assert(essence(Seq::<(TokenTypes, Seq<char>, int, int)>::empty()) == Seq::<(TokenTypes, Seq<char>)>::empty());
            assert(l =~= seq![(k, t)] + Seq::<(TokenTypes, Seq<char>)>::empty());
        } else {
            let q = spaced(rest);
            let y = seq![' '] + q;
            assert(x =~= t + y);
            if k is NumberLiteral {
                assert(0 < l.len() - 1);
            }
            lemma_self_lex(k, t, y);
            let p = t + seq![' '];
            assert(x =~= p + q);
            assert(x[t.len() as int] == ' ');
            lemma_shift_lex_from(p, q, 0);
            let (tok, e) = lex_step(x, 0)->Ok_0;
            lemma_essence_cons(tok, lex_from(x, e)->Ok_0);
            assert(l =~= seq![(k, t)] + rest);
            assert forall|j: int| 0 <= j < x.len() implies !is_quote(#[trigger] x[j]) by {
                if j < t.len() {
                    assert(x[j] == t[j]);
                } else if j > t.len() {
                    assert(x[j] == q[j - t.len() - 1]);
                }
            }
        }
    }
}

} // verus!

verus! {

proof fn lemma_identifier_chars(src: Seq<char>, j: int)
    requires
        0 <= j <= src.len(),
    ensures
        forall|k: int| j <= k < identifier_end(src, j) ==> continues_identifier(#[trigger] src[k]),
    decreases src.len() - j,
{
    if j < src.len() && continues_identifier(src[j]) {
        lemma_identifier_chars(src, j + 1);
    }
}

proof fn lemma_number_scan_shape(src: Seq<char>, i: int, prev: Option<int>, has_dot: bool, acc: Seq<char>)
    requires
        0 <= i <= src.len(),
        number_shape(acc),
        has_dot == acc.contains('.'),
        acc.len() > 0 <==> prev is Some,
        prev matches Some(x) ==> 0 <= x < i && src[x] == acc.last(),
    ensures
        number_scan(src, i, prev, has_dot, acc) matches Ok((s, e)) ==> {
            &&& number_shape(s)
            &&& s.len() >= acc.len()
            &&& forall|k: int| 0 <= k < acc.len() ==> s[k] == acc[k]
            &&& (s.len() > 0 && !is_digit(s.last()) ==> e >= src.len())
        },
    decreases src.len() - i,
{
    if i < src.len() {
        let c = src[i];
        let dot = has_dot || c == '.';
        if has_dot && c == '.' {
        } else if prev is Some && src[prev->0] == '_' && c == '_' {
        } else if prev is Some && !is_digit(src[prev->0]) && !is_digit(c) && is_space(c) {
            lemma_number_scan_shape(src, i + 1, prev, dot, acc);
        } else if prev is Some && !is_digit(src[prev->0]) && !is_digit(c) {
        } else if in_number(c) {
            let acc2 = acc.push(c);
            assert(number_shape(acc2)) by {
                assert forall|k: int| 0 <= k < acc2.len() - 1 implies is_digit(#[trigger] acc2[k]) || is_digit(acc2[k + 1]) by {
                    if k == acc.len() - 1 {
                        assert(acc2[k] == acc.last());
                    } else {
                        assert(acc2[k] == acc[k] && acc2[k + 1] == acc[k + 1]);
                    }
                }
                assert forall|k1: int, k2: int| 0 <= k1 < acc2.len() && 0 <= k2 < acc2.len() && #[trigger] acc2[k1] == '.' && #[trigger] acc2[k2] == '.' implies k1 == k2 by {
                    if k1 < acc.len() && k2 < acc.len() {
                        assert(acc[k1] == '.' && acc[k2] == '.');
                    } else if k1 < acc.len() {
                        assert(acc[k1] == '.');
                        assert(acc.contains('.'));
                    } else if k2 < acc.len() {
                        assert(acc[k2] == '.');
                        assert(acc.contains('.'));
                    }
                }
                assert forall|k: int| 0 <= k < acc2.len() implies in_number(#[trigger] acc2[k]) by {
                    if k < acc.len() {
                        assert(acc2[k] == acc[k]);
                    }
                }
            }
            assert(acc2.contains('.') == dot) by {
                if c == '.' {
                    assert(acc2[acc.len() as int] == '.');
                }
                if acc.contains('.') {
                    let k = choose|k: int| 0 <= k < acc.len() && #[trigger] acc[k] == '.';
                    assert(acc2[k] == '.');
                }
                if acc2.contains('.') && c != '.' {
                    let k = choose|k: int| 0 <= k < acc2.len() && #[trigger] acc2[k] == '.';
                    assert(acc[k] == '.');
                }
            }
            assert(acc2.last() == src[i]);
            lemma_number_scan_shape(src, i + 1, Some(i), dot, acc2);
            if let Ok((s, e)) = number_scan(src, i + 1, Some(i), dot, acc2) {
                assert forall|k: int| 0 <= k < acc.len() implies s[k] == acc[k] by {
                    assert(s[k] == acc2[k]);
                }
            }
        } else {
            if acc.len() > 0 {
                assert(acc.last() == src[prev->0]);
            }
        }
    }
}

proof fn lemma_op_one(c: char, n: Option<char>)
    ensures
        operator_spec(c, n) matches Some((_, w)) && w == 1 ==> operator_spec(c, None) == operator_spec(c, n)
            && operator_spec(c, Some(' ')) == operator_spec(c, n),
{
}

proof fn lemma_relexable_cons(k: TokenTypes, t: Seq<char>, rest: Seq<(TokenTypes, Seq<char>)>)
    requires
        good_token(k, t),
        relexable(rest),
        k is NumberLiteral && rest.len() > 0 ==> is_digit(t.last()),
    ensures
        relexable(seq![(k, t)] + rest),
{
    let l = seq![(k, t)] + rest;
    assert forall|j: int| 0 <= j < l.len() implies good_token(#[trigger] l[j].0, l[j].1)
        && (j < l.len() - 1 && l[j].0 is NumberLiteral ==> is_digit(l[j].1.last())) by {
        if j > 0 {
            assert(l[j] == rest[j - 1]);
        }
    }
}

/// The tokens that lexing gives, without comment markers, lex back to themselves.
proof fn lemma_source_relexable(src: Seq<char>, i: int)
    requires
        0 <= i <= src.len(),
        forall|k: int| 0 <= k < src.len() ==> !is_quote(#[trigger] src[k]),
        lex_from(src, i) is Ok,
    ensures
        relexable(essence(lex_from(src, i)->Ok_0)),
    decreases src.len() - i,
{
    if i == src.len() {
        let eof = token_at(src, src.len() as int, TokenTypes::EOF, seq![]);
        lemma_essence_cons(eof, seq![]);
        assert(seq![eof] + Seq::<(TokenTypes, Seq<char>, int, int)>::empty() =~= seq![eof]);
        assert(essence(Seq::<(TokenTypes, Seq<char>, int, int)>::empty()) == Seq::<(TokenTypes, Seq<char>)>::empty());
    } else if is_space(src[i]) {
        lemma_source_relexable(src, i + 1);
    } else {
        lemma_lex_step_end(src, i);
        let (tok, e) = lex_step(src, i)->Ok_0;
        lemma_source_relexable(src, e);
        let rest_ts = lex_from(src, e)->Ok_0;
        lemma_essence_cons(tok, rest_ts);
        let rest = essence(rest_ts);
        let c = src[i];
        let (k, t) = (tok.0, tok.1);
        if !(k is Comment) {
            if starts_identifier(c) {
                lemma_identifier_chars(src, i + 1);
                lemma_identifier_end(src, i + 1);
                assert(t[0] == c);
                assert forall|j: int| 1 <= j < t.len() implies continues_identifier(#[trigger] t[j]) by {
                    assert(t[j] == src[i + j]);
                }
                assert forall|j: int| 0 <= j < t.len() implies !is_quote(#[trigger] t[j]) by {
                    assert(t[j] == src[i + j]);
                }
                assert(good_token(k, t));
            } else if starts_number(c) {
                assert(number_shape(seq![c]));
                assert(seq![c].contains('.') == (c == '.')) by {
                    if c == '.' {
                        assert(seq![c][0] == '.');
                    }
                }
                lemma_number_scan_shape(src, i + 1, Some(i), c == '.', seq![c]);
                assert(t[0] == c);
                assert forall|j: int| 0 <= j < t.len() implies !is_quote(#[trigger] t[j]) by {
                    assert(in_number(t[j]));
                }
                assert(good_token(k, t));
                if !is_digit(t.last()) {
                    assert(e >= src.len());
                    lemma_essence_cons(token_at(src, src.len() as int, TokenTypes::EOF, seq![]), seq![]);
                    assert(seq![token_at(src, src.len() as int, TokenTypes::EOF, seq![])]
                        + Seq::<(TokenTypes, Seq<char>, int, int)>::empty() =~= seq![token_at(src, src.len() as int, TokenTypes::EOF, seq![])]);
                    assert(essence(Seq::<(TokenTypes, Seq<char>, int, int)>::empty()) == Seq::<(TokenTypes, Seq<char>)>::empty());
                }
            } else {
                let next = if i + 1 < src.len() { Some(src[i + 1]) } else { None };
                lemma_operator_width(c, next);
                lemma_op_one(c, next);
                assert(t[0] == c);
                if t.len() == 2 {
                    assert(t[1] == src[i + 1]);
                }
                assert forall|j: int| 0 <= j < t.len() implies !is_quote(#[trigger] t[j]) by {
                    assert(t[j] == src[i + j]);
                }
                assert(good_token(k, t));
            }
            lemma_relexable_cons(k, t, rest);
        }
    }
}

/// Lexing again the token texts joined by single spaces gives back the same
/// kinds and texts: for a source free of string literals that lexes without
/// error, leaving out comment markers and the end-of-file token.
pub proof fn lemma_relex_round_trip(src: Seq<char>)
    requires
        lex_from(src, 0) is Ok,
        forall|k: int| 0 <= k < src.len() ==> !is_quote(#[trigger] src[k]),
    ensures
        lex_from(spaced(essence(lex_from(src, 0)->Ok_0)), 0) is Ok,
        essence(lex_from(spaced(essence(lex_from(src, 0)->Ok_0)), 0)->Ok_0) == essence(lex_from(src, 0)->Ok_0),
{
    lemma_source_relexable(src, 0);
    lemma_relex_list(essence(lex_from(src, 0)->Ok_0));
}

} // verus!
