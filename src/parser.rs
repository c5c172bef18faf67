//! The parser: tokens to a `Program` tree, by recursive descent with
//! precedence climbing for expressions.
use vstd::prelude::*;
use vstd::string::StringExecFns;

use crate::text::{join3, join5};
use crate::types::{
    token_text, ArrayAccess, Expression, FuncParam, LiteralTypes, Start, Statement, Token,
    TokenTypes, VarDeclarationKind, VariableTypes,
};
use crate::{is_error, CompileError, ErrorKind};

verus! {

/// An expression as plain values; lists are sequences, an array access is the
/// array's name with its indices from the outermost bracket pair in.
pub enum ExprView {
    Identifier(Seq<char>),
    Binary(TokenTypes, Box<ExprView>, Box<ExprView>),
    Logical(TokenTypes, Box<ExprView>, Box<ExprView>),
    Unary(TokenTypes, Box<ExprView>),
    Literal(LiteralTypes, Seq<char>),
    ArrayLiteral(Option<Seq<ExprView>>),
    Access(Seq<char>, Seq<ExprView>),
    Call(Seq<char>, Option<Seq<ExprView>>),
}

pub open spec fn expr_view(e: Expression) -> ExprView
    decreases e,
{
    match e {
        Expression::Identifier(n) => ExprView::Identifier(n@),
        Expression::Binary { operator, left, right } => ExprView::Binary(
            operator,
            Box::new(expr_view(*left)),
            Box::new(expr_view(*right)),
        ),
        Expression::Logical { operator, left, right } => ExprView::Logical(
            operator,
            Box::new(expr_view(*left)),
            Box::new(expr_view(*right)),
        ),
        Expression::Unary { operator, operand } => ExprView::Unary(operator, Box::new(expr_view(*operand))),
        Expression::Literal { literal_type, value } => ExprView::Literal(literal_type, value@),
        Expression::ArrayLiteral { elements } => match elements {
            None => ExprView::ArrayLiteral(None),
            Some(b) => ExprView::ArrayLiteral(Some(
                b@.map_values(|x: Expression| if b@.contains(x) { expr_view(x) } else { ExprView::ArrayLiteral(None) }),
            )),
        },
        Expression::ArrayAccess(a) => {
            let v = access_view(a);
            ExprView::Access(v.0, v.1)
        },
        Expression::Call { name, arguments } => match arguments {
            None => ExprView::Call(name@, None),
            Some(b) => ExprView::Call(
                name@,
                Some(b@.map_values(|x: Expression| if b@.contains(x) { expr_view(x) } else { ExprView::ArrayLiteral(None) })),
            ),
        },
    }
}

pub open spec fn access_view(a: ArrayAccess) -> (Seq<char>, Seq<ExprView>)
    decreases a,
{
    match a {
        ArrayAccess::Access { name, index } => (name@, seq![expr_view(*index)]),
        ArrayAccess::NestedAccess { access, index } => {
            let v = access_view(*access);
            (v.0, v.1.push(expr_view(*index)))
        },
    }
}

/// A list as an optional node field: `None` when it is empty.
pub open spec fn nonempty(s: Seq<ExprView>) -> Option<Seq<ExprView>> {
    if s.len() == 0 { None } else { Some(s) }
}

pub open spec fn list_view(s: Seq<Expression>) -> Seq<ExprView> {
    s.map_values(|x: Expression| expr_view(x))
}

/// A token stream the parser accepts: not empty, with one end-of-file token,
/// at the end.
pub open spec fn tokens_ok(ts: Seq<Token>) -> bool {
    &&& ts.len() > 0
    &&& ts.last().token_type is EOF
    &&& forall|i: int| 0 <= i < ts.len() - 1 ==> (#[trigger] ts[i]).token_type != TokenTypes::EOF
}

pub open spec fn ty(ts: Seq<Token>, p: int) -> TokenTypes {
    ts[p].token_type
}

/// The token after `p`; at the end, the end-of-file token itself.
pub open spec fn peek_tok(ts: Seq<Token>, p: int) -> Token {
    if p + 1 < ts.len() { ts[p + 1] } else { ts[p] }
}

pub open spec fn peek_ty(ts: Seq<Token>, p: int) -> TokenTypes {
    peek_tok(ts, p).token_type
}

/// The cursor after one step: it stays on the end-of-file token.
pub open spec fn adv(ts: Seq<Token>, p: int) -> int {
    if ts[p].token_type is EOF || p + 1 >= ts.len() { p } else { p + 1 }
}

/// A syntax error as position and message.
pub type SyntaxErr = (Start, Seq<char>);

pub open spec fn expected_err(what: Seq<char>, found: Token) -> SyntaxErr {
    (found.start_spec(), "Expected '"@ + what + "', found '"@ + token_text(found.token_type) + "'"@)
}

pub open spec fn unexpected_err(found: Token) -> SyntaxErr {
    (found.start_spec(), "Unexpected token '"@ + token_text(found.token_type) + "'"@)
}

/// The error `e` reports `s`.
pub open spec fn reports(e: CompileError, s: SyntaxErr) -> bool {
    is_error(e, ErrorKind::Syntax, Some(s.0), s.1)
}

pub open spec fn starts_expr(t: TokenTypes) -> bool {
    t is Identifier || t is NumberLiteral || t is StringLiteral || t is BinaryPlus || t is BinaryMinus
        || t is LogicalNot || t is True || t is False || t is Null || t is LeftSquareBracket
        || t is LeftParenthesis
}

pub open spec fn binary_operator(t: TokenTypes) -> bool {
    t is BinaryPlus || t is BinaryMinus || t is BinaryDivision || t is BinaryMultiply || t is BinaryRest
        || t is LogicalOr || t is LogicalAnd || t is LogicalEquals || t is LogicalDifferent
}

/// The check that the token after `p` can start an expression.
pub open spec fn expect_expr(ts: Seq<Token>, p: int) -> Result<(), SyntaxErr> {
    let t = peek_ty(ts, p);
    if starts_expr(t) {
        Ok(())
    } else if t is EOF && !binary_operator(ty(ts, p)) {
        Err(expected_err(";"@, peek_tok(ts, p)))
    } else {
        Err(expected_err("Expression"@, peek_tok(ts, p)))
    }
}

/// The operators of the binary precedence levels, loosest (0) to tightest (5).
pub open spec fn level_op(level: int, t: TokenTypes) -> bool {
    if level == 0 {
        t is LogicalOr
    } else if level == 1 {
        t is LogicalAnd
    } else if level == 2 {
        t is LogicalEquals || t is LogicalDifferent
    } else if level == 3 {
        t is LogicalSmallerThan || t is LogicalSmallerOrEqualsThan || t is LogicalGreaterThan
            || t is LogicalGreaterOrEqualsThan
    } else if level == 4 {
        t is BinaryMinus || t is BinaryPlus
    } else {
        t is BinaryMultiply || t is BinaryDivision || t is BinaryRest
    }
}

/// The node a level folds its operands into.
pub open spec fn fold_node(level: int, op: TokenTypes, l: ExprView, r: ExprView) -> ExprView {
    if level <= 3 {
        ExprView::Logical(op, Box::new(l), Box::new(r))
    } else {
        ExprView::Binary(op, Box::new(l), Box::new(r))
    }
}

/// The result of parsing: the expression and the index of its last token.
pub type ExprResult = Result<(ExprView, int), SyntaxErr>;

/// A never-taken branch that keeps the definitions well-founded: parsing
/// never moves the cursor back.
pub open spec fn went_back(ts: Seq<Token>, p: int) -> SyntaxErr {
    (ts[p].start_spec(), seq![])
}

/// Parses binary level `level` (0 to 5) at `p`: operands of the next level,
/// folded left to right while the token after one is an operator of this level.
pub open spec fn parse_bin(ts: Seq<Token>, p: int, level: int) -> ExprResult
    decreases ts.len() - p, 2 * (6 - level) + 2,
{
    if !(0 <= p < ts.len() && 0 <= level <= 5) {
        Err(went_back(ts, 0))
    } else {
        let first = if level == 5 { parse_unary(ts, p) } else { parse_bin(ts, p, level + 1) };
        match first {
            Err(x) => Err(x),
            Ok((l, e)) => if p <= e < ts.len() {
                bin_tail(ts, level, l, e)
            } else {
                Err(went_back(ts, p))
            },
        }
    }
}

pub open spec fn bin_tail(ts: Seq<Token>, level: int, left: ExprView, e: int) -> ExprResult
    decreases ts.len() - e, 2 * (6 - level) + 1,
{
    if !(0 <= e && e + 2 < ts.len() && 0 <= level <= 5 && level_op(level, peek_ty(ts, e))) {
        Ok((left, e))
    } else {
        let op = ty(ts, e + 1);
        let right = if level == 5 { parse_unary(ts, e + 2) } else { parse_bin(ts, e + 2, level + 1) };
        match right {
            Err(x) => Err(x),
            Ok((r, e2)) => if e < e2 < ts.len() {
                bin_tail(ts, level, fold_node(level, op, left, r), e2)
            } else {
                Err(went_back(ts, e))
            },
        }
    }
}

/// Unary `-` and `!` build a node; unary `+` passes its operand through.
pub open spec fn parse_unary(ts: Seq<Token>, p: int) -> ExprResult
    decreases ts.len() - p, 2int,
{
    if !(0 <= p && p + 1 < ts.len()) {
        parse_primary(ts, p)
    } else if ty(ts, p) is BinaryPlus {
        parse_unary(ts, p + 1)
    } else if ty(ts, p) is BinaryMinus || ty(ts, p) is LogicalNot {
        match parse_unary(ts, p + 1) {
            Err(x) => Err(x),
            Ok((o, e)) => Ok((ExprView::Unary(ty(ts, p), Box::new(o)), e)),
        }
    } else {
        parse_primary(ts, p)
    }
}

pub open spec fn parse_primary(ts: Seq<Token>, p: int) -> ExprResult
    decreases ts.len() - p, 1int,
{
    if !(0 <= p < ts.len()) {
        Err(went_back(ts, 0))
    } else {
        let t = ts[p];
        match t.token_type {
            TokenTypes::Identifier => if peek_ty(ts, p) is LeftParenthesis && p + 2 < ts.len() {
                match list_from(ts, p + 2, TokenTypes::RightParenthesis, false, seq![]) {
                    Err(x) => Err(x),
                    Ok((args, e)) => Ok((ExprView::Call(t.token_value@, nonempty(args)), e)),
                }
            } else if peek_ty(ts, p) is LeftSquareBracket {
                access_from(ts, p, t.token_value@, seq![])
            } else {
                Ok((ExprView::Identifier(t.token_value@), p))
            },
            TokenTypes::NumberLiteral => Ok((ExprView::Literal(LiteralTypes::Numeric, t.token_value@), p)),
            TokenTypes::StringLiteral => Ok((ExprView::Literal(LiteralTypes::String, t.token_value@), p)),
            TokenTypes::True | TokenTypes::False => Ok((ExprView::Literal(LiteralTypes::Boolean, t.token_value@), p)),
            TokenTypes::Null => Ok((ExprView::Literal(LiteralTypes::Null, t.token_value@), p)),
            TokenTypes::LeftParenthesis => if p + 1 < ts.len() {
                match parse_bin(ts, p + 1, 0) {
                    Err(x) => Err(x),
                    Ok((inner, e)) => if p < e < ts.len() {
                        let c = adv(ts, e);
                        if ty(ts, c) is RightParenthesis {
                            Ok((inner, c))
                        } else {
                            Err(expected_err(")"@, ts[c]))
                        }
                    } else {
                        Err(went_back(ts, p))
                    },
                }
            } else {
                Err(expected_err("Expression"@, t))
            },
            TokenTypes::LeftSquareBracket => if p + 1 < ts.len() {
                match list_from(ts, p + 1, TokenTypes::RightSquareBracket, false, seq![]) {
                    Err(x) => Err(x),
                    Ok((elems, e)) => Ok((ExprView::ArrayLiteral(nonempty(elems)), e)),
                }
            } else {
                Err(expected_err("Expression"@, t))
            },
            TokenTypes::EOF => Err(expected_err(";"@, t)),
            _ => Err(expected_err("Expression"@, t)),
        }
    }
}

pub open spec fn close_text(close: TokenTypes) -> Seq<char> {
    if close is RightParenthesis { ")"@ } else { "]"@ }
}

/// Comma-separated expressions from `p` up to `close`: a comma must follow an
/// element, and `close` may follow an element or its comma. `after` says
/// whether the previous token ended an element. The result ends at `close`.
pub open spec fn list_from(ts: Seq<Token>, p: int, close: TokenTypes, after: bool, acc: Seq<ExprView>) -> Result<(Seq<ExprView>, int), SyntaxErr>
    decreases ts.len() - p, 16int,
{
    if !(0 <= p < ts.len()) {
        Err(went_back(ts, 0))
    } else {
        let t = ty(ts, p);
        if t == close {
            Ok((acc, p))
        } else if t is EOF || t is Semicolon {
            Err(expected_err(close_text(close), ts[p]))
        } else if t is Comma {
            if after && p + 1 < ts.len() {
                list_from(ts, p + 1, close, false, acc)
            } else {
                Err(unexpected_err(ts[p]))
            }
        } else {
            match parse_bin(ts, p, 0) {
                Err(x) => Err(x),
                Ok((x, e)) => if p <= e < ts.len() {
                    if peek_ty(ts, e) is Comma || peek_ty(ts, e) == close {
                        list_from(ts, e + 1, close, true, acc.push(x))
                    } else {
                        Err(expected_err(","@, peek_tok(ts, e)))
                    }
                } else {
                    Err(went_back(ts, p))
                },
            }
        }
    }
}

/// Indexing `name[i][j]...` with the name at `p` and the indices so far in `acc`.
pub open spec fn access_from(ts: Seq<Token>, p: int, name: Seq<char>, acc: Seq<ExprView>) -> ExprResult
    decreases ts.len() - p, 0int,
{
    if !(0 <= p && p + 2 < ts.len() && peek_ty(ts, p) is LeftSquareBracket) {
        Ok((ExprView::Access(name, acc), p))
    } else {
        match expect_expr(ts, p + 1) {
            Err(x) => Err(x),
            Ok(_) => match parse_bin(ts, p + 2, 0) {
                Err(x) => Err(x),
                Ok((index, e)) => if p < e < ts.len() {
                    let c = adv(ts, e);
                    if !(ty(ts, c) is RightSquareBracket) {
                        Err(expected_err("]"@, ts[c]))
                    } else {
                        access_from(ts, c, name, acc.push(index))
                    }
                } else {
                    Err(went_back(ts, p))
                },
            },
        }
    }
}

} // verus!

verus! {

/// `r` is what the expression grammar gives in `s`, with the cursor left at `pos`.
pub open spec fn expr_ok(r: Result<Expression, CompileError>, s: ExprResult, pos: int) -> bool {
    match s {
        Ok((v, e)) => r is Ok && expr_view(r->Ok_0) == v && pos == e,
        Err(x) => r is Err && reports(r->Err_0, x),
    }
}

pub proof fn lemma_only_last_is_eof(ts: Seq<Token>, p: int)
    requires
        tokens_ok(ts),
        0 <= p < ts.len(),
    ensures
        ts[p].token_type != TokenTypes::EOF <==> p < ts.len() - 1,
        adv(ts, p) == if p < ts.len() - 1 { p + 1 } else { p },
        p < ts.len() - 1 ==> peek_tok(ts, p) == ts[p + 1],
        p == ts.len() - 1 ==> peek_ty(ts, p) is EOF,
{
    if p < ts.len() - 1 {
        assert(ts[p].token_type != TokenTypes::EOF);
    }
}

/// The view of a node holding a list is built from the views of its items.
pub proof fn lemma_list_node_views(b: Box<Vec<Expression>>)
    ensures
        expr_view(Expression::ArrayLiteral { elements: Some(b) }) == ExprView::ArrayLiteral(Some(list_view(b@))),
        forall|name: String| #[trigger] expr_view(Expression::Call { name, arguments: Some(b) }) == ExprView::Call(name@, Some(list_view(b@))),
{
    let s1 = expr_view(Expression::ArrayLiteral { elements: Some(b) })->ArrayLiteral_0->0;
    assert forall|i: int| 0 <= i < b@.len() implies s1[i] == list_view(b@)[i] by {
        assert(b@.contains(b@[i]));
    }
    assert(s1 =~= list_view(b@));
    assert forall|name: String| #[trigger] expr_view(Expression::Call { name, arguments: Some(b) }) == ExprView::Call(name@, Some(list_view(b@))) by {
        let s2 = expr_view(Expression::Call { name, arguments: Some(b) })->Call_1->0;
        assert forall|i: int| 0 <= i < b@.len() implies s2[i] == list_view(b@)[i] by {
            assert(b@.contains(b@[i]));
        }
        assert(s2 =~= list_view(b@));
    }
}

pub proof fn lemma_list_view_push(s: Seq<Expression>, x: Expression)
    ensures
        list_view(s.push(x)) == list_view(s).push(expr_view(x)),
{
    assert(list_view(s.push(x)) =~= list_view(s).push(expr_view(x)));
}

/// Parses a token stream into a `Program` tree.
#[derive(Debug)]
pub struct Parser {
    tokens: Vec<Token>,
    pos: usize,
    pub abstract_syntax_tree: Statement,
}

impl Parser {
    pub closed spec fn tokens_spec(&self) -> Seq<Token> {
        self.tokens@
    }

    pub closed spec fn pos_spec(&self) -> int {
        self.pos as int
    }

    pub closed spec fn wf(&self) -> bool {
        tokens_ok(self.tokens@) && self.pos < self.tokens@.len()
    }

    /// A parser at the first token of `token_vector`, with an empty program.
    pub fn new(token_vector: Vec<Token>) -> (r: Parser)
        requires
            tokens_ok(token_vector@),
        ensures
            r.wf(),
            r.tokens_spec() == token_vector@,
            r.pos_spec() == 0,
            stmt_view(r.ast()) == StmtView::Program(Start { line: 1, column: 0 }, seq![]),
    {
        let body: Vec<Statement> = Vec::new();
        proof {
            lemma_block_view(body);
            assert(stmt_list_view(body@) =~= seq![]);
        }
        Parser {
            tokens: token_vector,
            pos: 0,
            abstract_syntax_tree: Statement::Program { start: Start { line: 1, column: 0 }, body: Box::new(body) },
        }
    }

    fn current(&self) -> (r: &Token)
        requires
            self.wf(),
        ensures
            *r == self.tokens@[self.pos as int],
    {
        &self.tokens[self.pos]
    }

    fn current_type(&self) -> (r: TokenTypes)
        requires
            self.wf(),
        ensures
            r == ty(self.tokens@, self.pos as int),
            r != TokenTypes::EOF <==> self.pos < self.tokens@.len() - 1,
    {
        proof {
            lemma_only_last_is_eof(self.tokens@, self.pos as int);
        }
        self.tokens[self.pos].token_type
    }

    fn peek(&self) -> (r: &Token)
        requires
            self.wf(),
        ensures
            *r == peek_tok(self.tokens@, self.pos as int),
    {
        if self.pos < self.tokens.len() - 1 {
            &self.tokens[self.pos + 1]
        } else {
            &self.tokens[self.pos]
        }
    }

    fn peek_type(&self) -> (r: TokenTypes)
        requires
            self.wf(),
        ensures
            r == peek_ty(self.tokens@, self.pos as int),
    {
        self.peek().token_type
    }

    fn peek_expect(&self, expected: TokenTypes) -> (r: bool)
        requires
            self.wf(),
        ensures
            r == (peek_ty(self.tokens@, self.pos as int) == expected),
    {
        self.peek_type() == expected
    }

    /// Moves to the next token; stays on the end-of-file token.
    fn advance(&mut self)
        requires
            old(self).wf(),
        ensures
            final(self).wf(),
            final(self).tokens == old(self).tokens,
            final(self).pos == adv(old(self).tokens@, old(self).pos as int),
            final(self).pos == if old(self).pos < old(self).tokens@.len() - 1 { old(self).pos + 1 } else { old(self).pos as int },
            old(self).tokens@[old(self).pos as int].token_type != TokenTypes::EOF <==> old(self).pos < old(self).tokens@.len() - 1,
    {
        proof {
            lemma_only_last_is_eof(self.tokens@, self.pos as int);
        }
        if self.tokens[self.pos].token_type != TokenTypes::EOF && self.pos < self.tokens.len() - 1 {
            self.pos = self.pos + 1;
        }
    }

    fn expected_error(&self, expected: &str, found: &Token) -> (e: CompileError)
        ensures
            reports(e, expected_err(expected@, *found)),
    {
        let t = found.token_type.text();
        let message = join5("Expected '", expected, "', found '", t.as_str(), "'");
        CompileError { kind: ErrorKind::Syntax, start: Some(found.start()), message }
    }

    fn unexpected_token_error(&self, found: &Token) -> (e: CompileError)
        ensures
            reports(e, unexpected_err(*found)),
    {
        let t = found.token_type.text();
        let message = join3("Unexpected token '", t.as_str(), "'");
        CompileError { kind: ErrorKind::Syntax, start: Some(found.start()), message }
    }

    /// Checks that the token after the cursor can start an expression.
    fn expect_expr_or_error(&self) -> (r: Result<(), CompileError>)
        requires
            self.wf(),
        ensures
            match expect_expr(self.tokens@, self.pos as int) {
                Ok(_) => r is Ok,
                Err(x) => r is Err && reports(r->Err_0, x),
            },
    {
        let t = self.peek_type();
        if is_expr(t) {
            Ok(())
        } else if t == TokenTypes::EOF && !is_binary_operator(self.current_type()) {
            Err(self.expected_error(";", self.peek()))
        } else {
            Err(self.expected_error("Expression", self.peek()))
        }
    }

    /// Parses a whole expression from the cursor, leaving the cursor on its last token.
    fn parse_expr(&mut self) -> (r: Result<Expression, CompileError>)
        requires
            old(self).wf(),
        ensures
            final(self).wf(),
            final(self).tokens == old(self).tokens,
            final(self).pos >= old(self).pos,
            expr_ok(r, parse_bin(old(self).tokens@, old(self).pos as int, 0), final(self).pos as int),
        decreases old(self).tokens@.len() - old(self).pos, 15int,
    {
        self.parse_or_expr()
    }

    fn parse_or_expr(&mut self) -> (r: Result<Expression, CompileError>)
        requires
            old(self).wf(),
        ensures
            final(self).wf(),
            final(self).tokens == old(self).tokens,
            final(self).pos >= old(self).pos,
            expr_ok(r, parse_bin(old(self).tokens@, old(self).pos as int, 0), final(self).pos as int),
        decreases old(self).tokens@.len() - old(self).pos, 14int,
    {
        match self.parse_and_expr() {
            Ok(left) => self.fold_level(0, left),
            Err(e) => Err(e),
        }
    }

    fn parse_and_expr(&mut self) -> (r: Result<Expression, CompileError>)
        requires
            old(self).wf(),
        ensures
            final(self).wf(),
            final(self).tokens == old(self).tokens,
            final(self).pos >= old(self).pos,
            expr_ok(r, parse_bin(old(self).tokens@, old(self).pos as int, 1), final(self).pos as int),
        decreases old(self).tokens@.len() - old(self).pos, 12int,
    {
        match self.parse_comparison_expr() {
            Ok(left) => self.fold_level(1, left),
            Err(e) => Err(e),
        }
    }

    fn parse_comparison_expr(&mut self) -> (r: Result<Expression, CompileError>)
        requires
            old(self).wf(),
        ensures
            final(self).wf(),
            final(self).tokens == old(self).tokens,
            final(self).pos >= old(self).pos,
            expr_ok(r, parse_bin(old(self).tokens@, old(self).pos as int, 2), final(self).pos as int),
        decreases old(self).tokens@.len() - old(self).pos, 10int,
    {
        match self.parse_greater_smaller_expr() {
            Ok(left) => self.fold_level(2, left),
            Err(e) => Err(e),
        }
    }

    fn parse_greater_smaller_expr(&mut self) -> (r: Result<Expression, CompileError>)
        requires
            old(self).wf(),
        ensures
            final(self).wf(),
            final(self).tokens == old(self).tokens,
            final(self).pos >= old(self).pos,
            expr_ok(r, parse_bin(old(self).tokens@, old(self).pos as int, 3), final(self).pos as int),
        decreases old(self).tokens@.len() - old(self).pos, 8int,
    {
        match self.parse_additive_expr() {
            Ok(left) => self.fold_level(3, left),
            Err(e) => Err(e),
        }
    }

    fn parse_additive_expr(&mut self) -> (r: Result<Expression, CompileError>)
        requires
            old(self).wf(),
        ensures
            final(self).wf(),
            final(self).tokens == old(self).tokens,
            final(self).pos >= old(self).pos,
            expr_ok(r, parse_bin(old(self).tokens@, old(self).pos as int, 4), final(self).pos as int),
        decreases old(self).tokens@.len() - old(self).pos, 6int,
    {
        match self.parse_multiplicative_expr() {
            Ok(left) => self.fold_level(4, left),
            Err(e) => Err(e),
        }
    }

    fn parse_multiplicative_expr(&mut self) -> (r: Result<Expression, CompileError>)
        requires
            old(self).wf(),
        ensures
            final(self).wf(),
            final(self).tokens == old(self).tokens,
            final(self).pos >= old(self).pos,
            expr_ok(r, parse_bin(old(self).tokens@, old(self).pos as int, 5), final(self).pos as int),
        decreases old(self).tokens@.len() - old(self).pos, 4int,
    {
        match self.parse_unary_expr() {
            Ok(left) => self.fold_level(5, left),
            Err(e) => Err(e),
        }
    }

    /// Folds operators of binary level `level` onto `left`, whose last token
    /// is at the cursor.
    fn fold_level(&mut self, level: u8, left0: Expression) -> (r: Result<Expression, CompileError>)
        requires
            old(self).wf(),
            level <= 5,
        ensures
            final(self).wf(),
            final(self).tokens == old(self).tokens,
            final(self).pos >= old(self).pos,
            expr_ok(r, bin_tail(old(self).tokens@, level as int, expr_view(left0), old(self).pos as int), final(self).pos as int),
        decreases old(self).tokens@.len() - old(self).pos, 2 * (6 - level) + 1,
    {
        let ghost ts = self.tokens@;
        let ghost p0 = self.pos as int;
        let ghost first = expr_view(left0);
        let mut left = left0;
        while self.tokens.len() - self.pos > 2 && is_level_operator(level, self.peek_type())
            invariant
                self.wf(),
                self.tokens == old(self).tokens,
                ts == old(self).tokens@,
                p0 == old(self).pos,
                self.pos >= p0,
                level <= 5,
                first == expr_view(left0),
                bin_tail(ts, level as int, first, p0) == bin_tail(ts, level as int, expr_view(left), self.pos as int),
            decreases ts.len() - self.pos,
        {
            self.advance();
            let operator = self.current_type();
            self.advance();
            let right = if level == 5 {
                self.parse_unary_expr()
            } else if level == 4 {
                self.parse_multiplicative_expr()
            } else if level == 3 {
                self.parse_additive_expr()
            } else if level == 2 {
                self.parse_greater_smaller_expr()
            } else if level == 1 {
                self.parse_comparison_expr()
            } else {
                self.parse_and_expr()
            };
            let right = match right {
                Ok(r) => r,
                Err(e) => return Err(e),
            };
            left = if level <= 3 {
                Expression::Logical { operator, left: Box::new(left), right: Box::new(right) }
            } else {
                Expression::Binary { operator, left: Box::new(left), right: Box::new(right) }
            };
        }
        Ok(left)
    }

    fn parse_unary_expr(&mut self) -> (r: Result<Expression, CompileError>)
        requires
            old(self).wf(),
        ensures
            final(self).wf(),
            final(self).tokens == old(self).tokens,
            final(self).pos >= old(self).pos,
            expr_ok(r, parse_unary(old(self).tokens@, old(self).pos as int), final(self).pos as int),
        decreases old(self).tokens@.len() - old(self).pos, 3int,
    {
        let t = self.current_type();
        match t {
            TokenTypes::BinaryPlus => {
                self.advance();
                self.parse_unary_expr()
            },
            TokenTypes::BinaryMinus | TokenTypes::LogicalNot => {
                self.advance();
                match self.parse_unary_expr() {
                    Ok(operand) => Ok(Expression::Unary { operator: t, operand: Box::new(operand) }),
                    Err(e) => Err(e),
                }
            },
            _ => self.parse_primary_expr(),
        }
    }

    fn parse_primary_expr(&mut self) -> (r: Result<Expression, CompileError>)
        requires
            old(self).wf(),
        ensures
            final(self).wf(),
            final(self).tokens == old(self).tokens,
            final(self).pos >= old(self).pos,
            expr_ok(r, parse_primary(old(self).tokens@, old(self).pos as int), final(self).pos as int),
        decreases old(self).tokens@.len() - old(self).pos, 2int,
    {
        let t = self.current_type();
        match t {
            TokenTypes::Identifier => self.parse_identifier(),
            TokenTypes::NumberLiteral => Ok(self.literal(LiteralTypes::Numeric)),
            TokenTypes::StringLiteral => Ok(self.literal(LiteralTypes::String)),
            TokenTypes::True | TokenTypes::False => Ok(self.literal(LiteralTypes::Boolean)),
            TokenTypes::Null => Ok(self.literal(LiteralTypes::Null)),
            TokenTypes::LeftParenthesis => self.parse_parentheses(),
            TokenTypes::LeftSquareBracket => self.parse_square_brackets(),
            TokenTypes::EOF => Err(self.expected_error(";", self.current())),
            _ => Err(self.expected_error("Expression", self.current())),
        }
    }

    fn literal(&self, kind: LiteralTypes) -> (r: Expression)
        requires
            self.wf(),
        ensures
            expr_view(r) == ExprView::Literal(kind, self.tokens@[self.pos as int].token_value@),
    {
        Expression::Literal { literal_type: kind, value: self.tokens[self.pos].token_value.clone() }
    }

    fn parse_identifier(&mut self) -> (r: Result<Expression, CompileError>)
        requires
            old(self).wf(),
            ty(old(self).tokens@, old(self).pos as int) is Identifier,
        ensures
            final(self).wf(),
            final(self).tokens == old(self).tokens,
            final(self).pos >= old(self).pos,
            expr_ok(r, parse_primary(old(self).tokens@, old(self).pos as int), final(self).pos as int),
        decreases old(self).tokens@.len() - old(self).pos, 1int,
    {
        if self.peek_expect(TokenTypes::LeftParenthesis) {
            self.parse_func_call()
        } else if self.peek_expect(TokenTypes::LeftSquareBracket) {
            self.parse_array_access()
        } else {
            Ok(Expression::Identifier(self.tokens[self.pos].token_value.clone()))
        }
    }

    /// Parses `(expression)` with the cursor on `(`.
    fn parse_parentheses(&mut self) -> (r: Result<Expression, CompileError>)
        requires
            old(self).wf(),
            ty(old(self).tokens@, old(self).pos as int) is LeftParenthesis,
        ensures
            final(self).wf(),
            final(self).tokens == old(self).tokens,
            final(self).pos >= old(self).pos,
            expr_ok(r, parse_primary(old(self).tokens@, old(self).pos as int), final(self).pos as int),
        decreases old(self).tokens@.len() - old(self).pos, 0int,
    {
        self.advance();
        let expr = match self.parse_expr() {
            Ok(e) => e,
            Err(e) => return Err(e),
        };
        self.advance();
        if self.current_type() != TokenTypes::RightParenthesis {
            return Err(self.expected_error(")", self.current()));
        }
        Ok(expr)
    }

    /// Parses comma-separated expressions from the cursor up to `close`,
    /// leaving the cursor on `close`.
    fn parse_list(&mut self, close: TokenTypes) -> (r: Result<Vec<Expression>, CompileError>)
        requires
            old(self).wf(),
            close is RightParenthesis || close is RightSquareBracket,
        ensures
            final(self).wf(),
            final(self).tokens == old(self).tokens,
            final(self).pos >= old(self).pos,
            match list_from(old(self).tokens@, old(self).pos as int, close, false, seq![]) {
                Ok((v, e)) => r is Ok && list_view(r->Ok_0@) == v && final(self).pos == e,
                Err(x) => r is Err && reports(r->Err_0, x),
            },
        decreases old(self).tokens@.len() - old(self).pos, 16int,
    {
        let ghost ts = self.tokens@;
        let ghost p0 = self.pos as int;
        let mut items: Vec<Expression> = Vec::new();
        let mut after = false;
        assert(list_view(items@) =~= seq![]);
        loop
            invariant
                self.wf(),
                self.tokens == old(self).tokens,
                ts == old(self).tokens@,
                p0 == old(self).pos,
                self.pos >= p0,
                close is RightParenthesis || close is RightSquareBracket,
                list_from(ts, p0, close, false, seq![]) == list_from(ts, self.pos as int, close, after, list_view(items@)),
            decreases ts.len() - self.pos,
        {
            let t = self.current_type();
            if t == close {
                return Ok(items);
            }
            if t == TokenTypes::EOF || t == TokenTypes::Semicolon {
                let what = if close == TokenTypes::RightParenthesis { ")" } else { "]" };
                return Err(self.expected_error(what, self.current()));
            }
            if t == TokenTypes::Comma {
                if after {
                    self.advance();
                    after = false;
                    continue;
                }
                return Err(self.unexpected_token_error(self.current()));
            }
            let x = match self.parse_expr() {
                Ok(x) => x,
                Err(e) => return Err(e),
            };
            let next = self.peek_type();
            if next == TokenTypes::Comma || next == close {
                proof {
                    lemma_list_view_push(items@, x);
                }
                items.push(x);
                self.advance();
                after = true;
            } else {
                return Err(self.expected_error(",", self.peek()));
            }
        }
    }

    /// Parses `name(arguments)` with the cursor on the name.
    fn parse_func_call(&mut self) -> (r: Result<Expression, CompileError>)
        requires
            old(self).wf(),
            ty(old(self).tokens@, old(self).pos as int) is Identifier,
            peek_ty(old(self).tokens@, old(self).pos as int) is LeftParenthesis,
        ensures
            final(self).wf(),
            final(self).tokens == old(self).tokens,
            final(self).pos >= old(self).pos,
            expr_ok(r, parse_primary(old(self).tokens@, old(self).pos as int), final(self).pos as int),
        decreases old(self).tokens@.len() - old(self).pos, 0int,
    {
        let name = self.tokens[self.pos].token_value.clone();
        self.advance();
        self.advance();
        let args = match self.parse_list(TokenTypes::RightParenthesis) {
            Ok(a) => a,
            Err(e) => return Err(e),
        };
        if args.len() == 0 {
            assert(list_view(args@) =~= seq![]);
            Ok(Expression::Call { name, arguments: None })
        } else {
            let b = Box::new(args);
            proof {
                lemma_list_node_views(b);
            }
            Ok(Expression::Call { name, arguments: Some(b) })
        }
    }

    /// Parses an array literal `[e, ...]` with the cursor on `[`.
    fn parse_square_brackets(&mut self) -> (r: Result<Expression, CompileError>)
        requires
            old(self).wf(),
            ty(old(self).tokens@, old(self).pos as int) is LeftSquareBracket,
        ensures
            final(self).wf(),
            final(self).tokens == old(self).tokens,
            final(self).pos >= old(self).pos,
            expr_ok(r, parse_primary(old(self).tokens@, old(self).pos as int), final(self).pos as int),
        decreases old(self).tokens@.len() - old(self).pos, 0int,
    {
        self.advance();
        let elements = match self.parse_list(TokenTypes::RightSquareBracket) {
            Ok(a) => a,
            Err(e) => return Err(e),
        };
        if elements.len() == 0 {
            assert(list_view(elements@) =~= seq![]);
            Ok(Expression::ArrayLiteral { elements: None })
        } else {
            let b = Box::new(elements);
            proof {
                lemma_list_node_views(b);
            }
            Ok(Expression::ArrayLiteral { elements: Some(b) })
        }
    }

    /// Parses `name[i][j]...` with the cursor on the name.
    fn parse_array_access(&mut self) -> (r: Result<Expression, CompileError>)
        requires
            old(self).wf(),
            ty(old(self).tokens@, old(self).pos as int) is Identifier,
            peek_ty(old(self).tokens@, old(self).pos as int) is LeftSquareBracket,
        ensures
            final(self).wf(),
            final(self).tokens == old(self).tokens,
            final(self).pos >= old(self).pos,
            expr_ok(r, parse_primary(old(self).tokens@, old(self).pos as int), final(self).pos as int),
        decreases old(self).tokens@.len() - old(self).pos, 0int,
    {
        let ghost ts = self.tokens@;
        let ghost p0 = self.pos as int;
        let ghost name_view = ts[p0].token_value@;
        let name = self.tokens[self.pos].token_value.clone();
        let mut access: Option<ArrayAccess> = None;
        let ghost mut indices: Seq<ExprView> = seq![];
        proof {
            lemma_only_last_is_eof(ts, p0);
            lemma_only_last_is_eof(ts, p0 + 1);
        }
        assert(parse_primary(ts, p0) == access_from(ts, p0, name_view, seq![]));
        while self.tokens.len() - self.pos > 2 && self.peek_expect(TokenTypes::LeftSquareBracket)
            invariant
                self.wf(),
                self.tokens == old(self).tokens,
                ts == old(self).tokens@,
                p0 == old(self).pos,
                self.pos >= p0,
                name@ == name_view,
                peek_ty(ts, p0) is LeftSquareBracket,
                p0 + 2 < ts.len(),
                parse_primary(ts, p0) == access_from(ts, p0, name_view, seq![]),
                access_from(ts, p0, name_view, seq![]) == access_from(ts, self.pos as int, name_view, indices),
                match access {
                    None => indices.len() == 0 && self.pos == p0,
                    Some(a) => access_view(a) == (name_view, indices),
                },
            decreases ts.len() - self.pos,
        {
            self.advance();
            match self.expect_expr_or_error() {
                Ok(_) => {},
                Err(e) => return Err(e),
            }
            self.advance();
            let index = match self.parse_expr() {
                Ok(i) => i,
                Err(e) => return Err(e),
            };
            self.advance();
            if self.current_type() != TokenTypes::RightSquareBracket {
                return Err(self.expected_error("]", self.current()));
            }
            proof {
                indices = indices.push(expr_view(index));
            }
            access = match access {
                Some(acc) => Some(ArrayAccess::NestedAccess { access: Box::new(acc), index: Box::new(index) }),
                None => Some(ArrayAccess::Access { name: name.clone(), index: Box::new(index) }),
            };
        }
        match access {
            Some(acc) => Ok(Expression::ArrayAccess(acc)),
            None => Err(self.expected_error("[", self.peek())),
        }
    }
}

pub fn is_expr(t: TokenTypes) -> (r: bool)
    ensures
        r == starts_expr(t),
{
    match t {
        TokenTypes::Identifier | TokenTypes::NumberLiteral | TokenTypes::StringLiteral | TokenTypes::BinaryPlus
        | TokenTypes::BinaryMinus | TokenTypes::LogicalNot | TokenTypes::True | TokenTypes::False
        | TokenTypes::Null | TokenTypes::LeftSquareBracket | TokenTypes::LeftParenthesis => true,
        _ => false,
    }
}

pub fn is_binary_operator(t: TokenTypes) -> (r: bool)
    ensures
        r == binary_operator(t),
{
    match t {
        TokenTypes::BinaryPlus | TokenTypes::BinaryMinus | TokenTypes::BinaryDivision | TokenTypes::BinaryMultiply
        | TokenTypes::BinaryRest | TokenTypes::LogicalOr | TokenTypes::LogicalAnd | TokenTypes::LogicalEquals
        | TokenTypes::LogicalDifferent => true,
        _ => false,
    }
}

pub open spec fn assign_operator(t: TokenTypes) -> bool {
    t is Assign || t is AssignPlus || t is AssignMinus || t is AssignMultiply || t is AssignDivision || t is AssignRest
}

pub fn is_assign_operator(t: TokenTypes) -> (r: bool)
    ensures
        r == assign_operator(t),
{
    match t {
        TokenTypes::Assign | TokenTypes::AssignPlus | TokenTypes::AssignMinus | TokenTypes::AssignMultiply
        | TokenTypes::AssignDivision | TokenTypes::AssignRest => true,
        _ => false,
    }
}

/// Whether `t` is an operator of binary level `level`.
pub fn is_level_operator(level: u8, t: TokenTypes) -> (r: bool)
    requires
        level <= 5,
    ensures
        r == level_op(level as int, t),
{
    match level {
        0 => t == TokenTypes::LogicalOr,
        1 => t == TokenTypes::LogicalAnd,
        2 => t == TokenTypes::LogicalEquals || t == TokenTypes::LogicalDifferent,
        3 => t == TokenTypes::LogicalSmallerThan || t == TokenTypes::LogicalSmallerOrEqualsThan
            || t == TokenTypes::LogicalGreaterThan || t == TokenTypes::LogicalGreaterOrEqualsThan,
        4 => t == TokenTypes::BinaryMinus || t == TokenTypes::BinaryPlus,
        _ => t == TokenTypes::BinaryMultiply || t == TokenTypes::BinaryDivision || t == TokenTypes::BinaryRest,
    }
}

} // verus!

verus! {

/// A statement as plain values; a block is `None` when it holds no statement.
pub enum StmtView {
    VarDecl(Start, Option<Seq<char>>, VarDeclarationKind, Option<VariableTypes>, Option<ExprView>),
    Function(Start, Seq<char>, VariableTypes, Option<Seq<(Seq<char>, VariableTypes)>>, Option<Seq<StmtView>>),
    If(Start, ExprView, Option<Seq<StmtView>>, Option<Box<StmtView>>),
    ElseIf(Start, ExprView, Option<Seq<StmtView>>, Option<Box<StmtView>>),
    Else(Start, Option<Seq<StmtView>>),
    While(Start, ExprView, Option<Seq<StmtView>>),
    For(Start, Option<Box<StmtView>>, Option<ExprView>, Option<Box<StmtView>>, Option<Seq<StmtView>>),
    Break(Start),
    Continue(Start),
    Return(Start, Option<ExprView>),
    Alteration(Seq<char>, TokenTypes, ExprView),
    Call(ExprView),
    Program(Start, Seq<StmtView>),
}

pub open spec fn opt_expr_view(e: Option<Expression>) -> Option<ExprView> {
    match e {
        Some(x) => Some(expr_view(x)),
        None => None,
    }
}

pub open spec fn params_view(p: Option<Vec<FuncParam>>) -> Option<Seq<(Seq<char>, VariableTypes)>> {
    match p {
        Some(v) => Some(v@.map_values(|f: FuncParam| (f.name@, f.var_type))),
        None => None,
    }
}

pub open spec fn stmt_view(s: Statement) -> StmtView
    decreases s,
{
    match s {
        Statement::Program { start, body } => StmtView::Program(
            start,
            body@.map_values(|x: Statement| if body@.contains(x) { stmt_view(x) } else { StmtView::Break(start) }),
        ),
        Statement::VariableDeclaration { start, name, kind, var_type, value } => StmtView::VarDecl(
            start,
            match name { Some(n) => Some(n@), None => None },
            kind,
            var_type,
            opt_expr_view(value),
        ),
        Statement::FunctionDeclaration { start, name, var_type, params, body } => StmtView::Function(
            start,
            name@,
            var_type,
            params_view(params),
            block_view(body),
        ),
        Statement::If { start, condition, block, alternate } => StmtView::If(
            start,
            expr_view(condition),
            block_view(block),
            match alternate { Some(a) => Some(Box::new(stmt_view(*a))), None => None },
        ),
        Statement::ElseIf { start, condition, block, alternate } => StmtView::ElseIf(
            start,
            expr_view(condition),
            block_view(block),
            match alternate { Some(a) => Some(Box::new(stmt_view(*a))), None => None },
        ),
        Statement::Else { start, block } => StmtView::Else(start, block_view(block)),
        Statement::While { start, test, block } => StmtView::While(start, expr_view(test), block_view(block)),
        Statement::For { start, variable, test, variable_update, block } => StmtView::For(
            start,
            match variable { Some(v) => Some(Box::new(stmt_view(*v))), None => None },
            opt_expr_view(test),
            match variable_update { Some(v) => Some(Box::new(stmt_view(*v))), None => None },
            block_view(block),
        ),
        Statement::Break { start } => StmtView::Break(start),
        Statement::Continue { start } => StmtView::Continue(start),
        Statement::Return { start, expression } => StmtView::Return(start, opt_expr_view(expression)),
        Statement::VariableAlteration { name, operator, value } => StmtView::Alteration(name@, operator, expr_view(value)),
        Statement::FunctionCall(e) => StmtView::Call(expr_view(e)),
    }
}

pub open spec fn block_view(b: Option<Box<Vec<Statement>>>) -> Option<Seq<StmtView>>
    decreases b,
{
    match b {
        None => None,
        Some(v) => Some(v@.map_values(|x: Statement| if v@.contains(x) { stmt_view(x) } else { StmtView::Break(Start { line: 0, column: 0 }) })),
    }
}

pub open spec fn stmt_list_view(s: Seq<Statement>) -> Seq<StmtView> {
    s.map_values(|x: Statement| stmt_view(x))
}

pub open spec fn report_err(t: Token, m: Seq<char>) -> SyntaxErr {
    (t.start_spec(), m)
}

/// A message naming the construct at `t` and asking for its removal.
pub open spec fn removal_err(t: Token, m: Seq<char>) -> SyntaxErr {
    (t.start_spec(), m + ", remove this '"@ + token_text(t.token_type) + "'"@)
}

pub open spec fn unknown_err(t: Token) -> SyntaxErr {
    (t.start_spec(), "Unknown token '"@ + t.token_value@ + "'"@)
}

/// The check that the token after `p` is of kind `t`, named `name` in the error.
pub open spec fn expect_next(ts: Seq<Token>, p: int, t: TokenTypes, name: Seq<char>) -> Result<(), SyntaxErr> {
    if peek_ty(ts, p) == t {
        Ok(())
    } else {
        Err(expected_err(name, peek_tok(ts, p)))
    }
}

pub open spec fn base_type(t: TokenTypes) -> Option<VariableTypes> {
    match t {
        TokenTypes::Int => Some(VariableTypes::Int),
        TokenTypes::Str => Some(VariableTypes::Str),
        TokenTypes::Boo => Some(VariableTypes::Boo),
        TokenTypes::Nul | TokenTypes::Null => Some(VariableTypes::Nul),
        TokenTypes::Flo => Some(VariableTypes::Flo),
        _ => None,
    }
}

/// A type at `p`: a primitive keyword or `Arr<Type>`; the index of its last token.
pub open spec fn type_spec(ts: Seq<Token>, p: int) -> Result<(VariableTypes, int), SyntaxErr>
    decreases ts.len() - p,
{
    if !(0 <= p < ts.len()) {
        Err(went_back(ts, 0))
    } else if base_type(ty(ts, p)) is Some {
        Ok((base_type(ty(ts, p))->0, p))
    } else if ty(ts, p) is Arr {
        if !(peek_ty(ts, p) is LogicalSmallerThan) || p + 2 >= ts.len() {
            Err(report_err(ts[p], "Arr type must be generic, Arr<Type>"@))
        } else {
            match type_spec(ts, p + 2) {
                Err(x) => Err(x),
                Ok((t, e)) => if p < e < ts.len() {
                    if peek_ty(ts, e) is LogicalGreaterThan {
                        Ok((VariableTypes::Arr(Box::new(t)), e + 1))
                    } else {
                        Err(expected_err(">"@, peek_tok(ts, e)))
                    }
                } else {
                    Err(went_back(ts, p))
                },
            }
        }
    } else {
        Err(expected_err("Type"@, ts[p]))
    }
}

/// `let|mut name : Type [= expression] ;` at `p`; the result ends at the `;`.
pub open spec fn var_decl_spec(ts: Seq<Token>, p: int) -> Result<(StmtView, int), SyntaxErr> {
    let kind = if ty(ts, p) is ConstantVariable { VarDeclarationKind::Immutable } else { VarDeclarationKind::Mutable };
    let start = ts[p].start_spec();
    if !(peek_ty(ts, p) is Identifier) {
        Err(expected_err("Identifier"@, peek_tok(ts, p)))
    } else if !(peek_ty(ts, p + 1) is Colon) {
        Err(expected_err(":"@, peek_tok(ts, p + 1)))
    } else {
        let name = ts[p + 1].token_value@;
        match type_spec(ts, p + 3) {
            Err(x) => Err(x),
            Ok((t, e)) => if p < e < ts.len() - 1 {
                let a = e + 1;
                if kind is Mutable && ty(ts, a) is Semicolon {
                    Ok((StmtView::VarDecl(start, Some(name), kind, Some(t), None), a))
                } else if !(ty(ts, a) is Assign) {
                    if kind is Mutable { Err(unexpected_err(ts[a])) } else { Err(expected_err("="@, ts[a])) }
                } else {
                    match expect_expr(ts, a) {
                        Err(x) => Err(x),
                        Ok(_) => match parse_bin(ts, a + 1, 0) {
                            Err(x) => Err(x),
                            Ok((v, e2)) => match expect_next(ts, e2, TokenTypes::Semicolon, ";"@) {
                                Err(x) => Err(x),
                                Ok(_) => Ok((StmtView::VarDecl(start, Some(name), kind, Some(t), Some(v)), e2 + 1)),
                            },
                        },
                    }
                }
            } else {
                Err(went_back(ts, p))
            },
        }
    }
}

/// `name op expression ;` at `p`; the result ends past the `;`.
pub open spec fn mutation_spec(ts: Seq<Token>, p: int) -> Result<(StmtView, int), SyntaxErr> {
    match parse_bin(ts, p + 2, 0) {
        Err(x) => Err(x),
        Ok((v, e)) => match expect_next(ts, e, TokenTypes::Semicolon, ";"@) {
            Err(x) => Err(x),
            Ok(_) => Ok((StmtView::Alteration(ts[p].token_value@, ty(ts, p + 1), v), e + 2)),
        },
    }
}

/// `ret [expression] ;` at `p`; the result ends past the `;`.
pub open spec fn return_spec(ts: Seq<Token>, p: int) -> Result<(StmtView, int), SyntaxErr> {
    let start = ts[p].start_spec();
    if starts_expr(peek_ty(ts, p)) {
        match parse_bin(ts, p + 1, 0) {
            Err(x) => Err(x),
            Ok((v, e)) => match expect_next(ts, e, TokenTypes::Semicolon, ";"@) {
                Err(x) => Err(x),
                Ok(_) => Ok((StmtView::Return(start, Some(v)), e + 2)),
            },
        }
    } else if peek_ty(ts, p) is Semicolon {
        Ok((StmtView::Return(start, None), p + 2))
    } else {
        Err(expected_err("Expression or ;"@, peek_tok(ts, p)))
    }
}

/// The statements of a block from `p` up to its `}`, which the result ends at.
pub open spec fn block_items(ts: Seq<Token>, p: int, in_loop: bool, acc: Seq<StmtView>) -> Result<(Seq<StmtView>, int), SyntaxErr>
    decreases ts.len() - p, 3int,
{
    if !(0 <= p < ts.len()) {
        Err(went_back(ts, 0))
    } else if ty(ts, p) is EOF {
        Err(report_err(ts[p], "Unclosed block"@))
    } else if ty(ts, p) is RightCurlyBrace {
        Ok((acc, p))
    } else if ty(ts, p) is Comment {
        block_items(ts, p + 1, in_loop, acc)
    } else {
        match stmt_spec(ts, p, in_loop) {
            Err(x) => Err(x),
            Ok((s, e)) => if p < e < ts.len() {
                block_items(ts, e, in_loop, acc.push(s))
            } else {
                Err(went_back(ts, p))
            },
        }
    }
}

/// A block `{ ... }` whose `{` is at `p`; `None` when it holds no statement.
pub open spec fn block_spec(ts: Seq<Token>, p: int, in_loop: bool) -> Result<(Option<Seq<StmtView>>, int), SyntaxErr>
    decreases ts.len() - p, 0int,
{
    if !(0 <= p && p + 1 < ts.len()) {
        Err(went_back(ts, 0))
    } else {
        match block_items(ts, p + 1, in_loop, seq![]) {
            Err(x) => Err(x),
            Ok((s, e)) => Ok((if s.len() == 0 { None } else { Some(s) }, e)),
        }
    }
}

/// One statement of a block at `p`, and where the next one starts.
pub open spec fn stmt_spec(ts: Seq<Token>, p: int, in_loop: bool) -> Result<(StmtView, int), SyntaxErr>
    decreases ts.len() - p, 2int,
{
    if !(0 <= p && p + 1 < ts.len()) {
        Err(went_back(ts, 0))
    } else {
        let t = ts[p];
        match t.token_type {
            TokenTypes::ConstantVariable | TokenTypes::MutableVariable => match var_decl_spec(ts, p) {
                Err(x) => Err(x),
                Ok((s, e)) => Ok((s, e + 1)),
            },
            TokenTypes::Identifier => if peek_ty(ts, p) is LeftParenthesis {
                match parse_primary(ts, p) {
                    Err(x) => Err(x),
                    Ok((c, e)) => match expect_next(ts, e, TokenTypes::Semicolon, ";"@) {
                        Err(x) => Err(x),
                        Ok(_) => Ok((StmtView::Call(c), e + 2)),
                    },
                }
            } else if assign_operator(peek_ty(ts, p)) {
                mutation_spec(ts, p)
            } else {
                Err(unexpected_err(t))
            },
            TokenTypes::Function => Err(report_err(t, "Functions cannot be defined inside functions"@)),
            TokenTypes::Continue | TokenTypes::Break => if !in_loop {
                Err(report_err(t, "Loop controls cannot be used outside of loops"@))
            } else if !(peek_ty(ts, p) is Semicolon) {
                Err(expected_err(";"@, peek_tok(ts, p)))
            } else if t.token_type is Break {
                Ok((StmtView::Break(t.start_spec()), p + 2))
            } else {
                Ok((StmtView::Continue(t.start_spec()), p + 2))
            },
            TokenTypes::Return => return_spec(ts, p),
            TokenTypes::If => if_spec(ts, p, in_loop, false),
            TokenTypes::ElseIf => Err(report_err(t, "Standalone elseif statement"@)),
            TokenTypes::Else => Err(report_err(t, "Standalone else statement"@)),
            TokenTypes::While => while_spec(ts, p),
            TokenTypes::For => for_spec(ts, p),
            TokenTypes::Semicolon => Err(unexpected_err(t)),
            _ => if starts_expr(t.token_type) {
                Err(removal_err(t, "Only function calls can be standalone statements"@))
            } else {
                Err(unknown_err(t))
            },
        }
    }
}

/// `if|elseif expression { ... }` at `p` followed by `;`, or by the `elseif`
/// or `else` that continues the chain.
pub open spec fn if_spec(ts: Seq<Token>, p: int, in_loop: bool, is_elseif: bool) -> Result<(StmtView, int), SyntaxErr>
    decreases ts.len() - p, 1int,
{
    if !(0 <= p && p + 1 < ts.len()) {
        Err(went_back(ts, 0))
    } else {
        let start = ts[p].start_spec();
        match expect_expr(ts, p) {
            Err(x) => Err(x),
            Ok(_) => match parse_bin(ts, p + 1, 0) {
                Err(x) => Err(x),
                Ok((c, e)) => if p < e < ts.len() {
                    match expect_next(ts, e, TokenTypes::LeftCurlyBrace, "{"@) {
                        Err(x) => Err(x),
                        Ok(_) => match block_spec(ts, e + 1, in_loop) {
                            Err(x) => Err(x),
                            Ok((b, r)) => if e < r < ts.len() {
                                let node = |alt: Option<Box<StmtView>>| if is_elseif {
                                    StmtView::ElseIf(start, c, b, alt)
                                } else {
                                    StmtView::If(start, c, b, alt)
                                };
                                if peek_ty(ts, r) is Semicolon {
                                    Ok((node(None), r + 2))
                                } else if peek_ty(ts, r) is ElseIf {
                                    match if_spec(ts, r + 1, in_loop, true) {
                                        Err(x) => Err(x),
                                        Ok((a, n)) => Ok((node(Some(Box::new(a))), n)),
                                    }
                                } else if peek_ty(ts, r) is Else {
                                    match else_spec(ts, r + 1, in_loop) {
                                        Err(x) => Err(x),
                                        Ok((a, n)) => Ok((node(Some(Box::new(a))), n)),
                                    }
                                } else {
                                    Err(expected_err("; or elseif or else"@, peek_tok(ts, r)))
                                }
                            } else {
                                Err(went_back(ts, p))
                            },
                        },
                    }
                } else {
                    Err(went_back(ts, p))
                },
            },
        }
    }
}

/// `else { ... } ;` at `p`, which ends an `if` chain.
pub open spec fn else_spec(ts: Seq<Token>, p: int, in_loop: bool) -> Result<(StmtView, int), SyntaxErr>
    decreases ts.len() - p, 1int,
{
    if !(0 <= p && p + 1 < ts.len()) {
        Err(went_back(ts, 0))
    } else {
        let start = ts[p].start_spec();
        match expect_next(ts, p, TokenTypes::LeftCurlyBrace, "{"@) {
            Err(x) => Err(x),
            Ok(_) => match block_spec(ts, p + 1, in_loop) {
                Err(x) => Err(x),
                Ok((b, r)) => if peek_ty(ts, r) is Semicolon {
                    Ok((StmtView::Else(start, b), r + 2))
                } else if peek_ty(ts, r) is If {
                    Err(report_err(ts[r], "If statements cannot go after else"@))
                } else if peek_ty(ts, r) is ElseIf {
                    Err(report_err(ts[r], "ElseIf statements cannot go after else"@))
                } else {
                    Err(expected_err(";"@, peek_tok(ts, r)))
                },
            },
        }
    }
}

/// `while expression { ... } ;` at `p`.
pub open spec fn while_spec(ts: Seq<Token>, p: int) -> Result<(StmtView, int), SyntaxErr>
    decreases ts.len() - p, 1int,
{
    if !(0 <= p && p + 1 < ts.len()) {
        Err(went_back(ts, 0))
    } else {
        let start = ts[p].start_spec();
        match expect_expr(ts, p) {
            Err(x) => Err(x),
            Ok(_) => match parse_bin(ts, p + 1, 0) {
                Err(x) => Err(x),
                Ok((t, e)) => if p < e < ts.len() {
                    match expect_next(ts, e, TokenTypes::LeftCurlyBrace, "{"@) {
                        Err(x) => Err(x),
                        Ok(_) => match block_spec(ts, e + 1, true) {
                            Err(x) => Err(x),
                            Ok((b, r)) => match expect_next(ts, r, TokenTypes::Semicolon, ";"@) {
                                Err(x) => Err(x),
                                Ok(_) => Ok((StmtView::While(start, t, b), r + 2)),
                            },
                        },
                    }
                } else {
                    Err(went_back(ts, p))
                },
            },
        }
    }
}

/// The test and update clauses of a `for` whose first clause ends at the `;` at `s1`:
/// the test, the update, and where the block's `{` stands.
pub open spec fn for_clauses(ts: Seq<Token>, s1: int) -> Result<(Option<ExprView>, Option<StmtView>, int), SyntaxErr> {
    let test: Result<(Option<ExprView>, int), SyntaxErr> = if starts_expr(peek_ty(ts, s1)) {
        match parse_bin(ts, s1 + 1, 0) {
            Err(x) => Err(x),
            Ok((t, e)) => match expect_next(ts, e, TokenTypes::Semicolon, ";"@) {
                Err(x) => Err(x),
                Ok(_) => Ok((Some(t), e + 1)),
            },
        }
    } else if peek_ty(ts, s1) is Semicolon {
        Ok((None, s1 + 1))
    } else {
        Err(unexpected_err(peek_tok(ts, s1)))
    };
    match test {
        Err(x) => Err(x),
        Ok((t, s2)) => if peek_ty(ts, s2) is Identifier {
            if assign_operator(peek_ty(ts, s2 + 1)) {
                match mutation_spec(ts, s2 + 1) {
                    Err(x) => Err(x),
                    Ok((u, n)) => Ok((t, Some(u), n)),
                }
            } else {
                Err(unexpected_err(peek_tok(ts, s2 + 1)))
            }
        } else if peek_ty(ts, s2) is LeftCurlyBrace {
            Ok((t, None, s2 + 1))
        } else {
            Err(expected_err("{"@, peek_tok(ts, s2)))
        },
    }
}

/// `for [mut declaration] ; [test] ; [update ;] { ... } ;` at `p`.
pub open spec fn for_spec(ts: Seq<Token>, p: int) -> Result<(StmtView, int), SyntaxErr>
    decreases ts.len() - p, 1int,
{
    if !(0 <= p && p + 1 < ts.len()) {
        Err(went_back(ts, 0))
    } else {
        let start = ts[p].start_spec();
        let q = p + 1;
        if peek_ty(ts, p) is ConstantVariable {
            Err(report_err(ts[p], "Immutable variables cannot be used inside a loop variable, change 'let' to 'mut'"@))
        } else {
            let first: Result<(Option<StmtView>, int), SyntaxErr> = if ty(ts, q) is MutableVariable {
                match var_decl_spec(ts, q) {
                    Err(x) => Err(x),
                    Ok((v, s1)) => Ok((Some(v), s1)),
                }
            } else if ty(ts, q) is Semicolon {
                Ok((None, q))
            } else {
                Err(unexpected_err(ts[q]))
            };
            match first {
                Err(x) => Err(x),
                Ok((v, s1)) => match for_clauses(ts, s1) {
                    Err(x) => Err(x),
                    Ok((t, u, n)) => if p < n < ts.len() {
                        if !(ty(ts, n) is LeftCurlyBrace) {
                            Err(expected_err("{"@, ts[n]))
                        } else {
                            match block_spec(ts, n, true) {
                                Err(x) => Err(x),
                                Ok((b, r)) => match expect_next(ts, r, TokenTypes::Semicolon, ";"@) {
                                    Err(x) => Err(x),
                                    Ok(_) => Ok((StmtView::For(
                                        start,
                                        match v { Some(x) => Some(Box::new(x)), None => None },
                                        t,
                                        match u { Some(x) => Some(Box::new(x)), None => None },
                                        b,
                                    ), r + 2)),
                                },
                            }
                        }
                    } else {
                        Err(went_back(ts, p))
                    },
                },
            }
        }
    }
}

} // verus!

verus! {

/// Parameters `name : Type` separated by commas from `q` up to `)`, which the
/// result ends at.
pub open spec fn param_items(ts: Seq<Token>, q: int, acc: Seq<(Seq<char>, VariableTypes)>) -> Result<(Seq<(Seq<char>, VariableTypes)>, int), SyntaxErr>
    decreases ts.len() - q,
{
    if !(0 <= q < ts.len()) {
        Err(went_back(ts, 0))
    } else if !(ty(ts, q) is Identifier) {
        Err(expected_err("Identifier"@, ts[q]))
    } else {
        match expect_next(ts, q, TokenTypes::Colon, ":"@) {
            Err(x) => Err(x),
            Ok(_) => match type_spec(ts, q + 2) {
                Err(x) => Err(x),
                Ok((t, e)) => if q < e < ts.len() - 1 {
                    let a = e + 1;
                    let acc2 = acc.push((ts[q].token_value@, t));
                    if ty(ts, a) is RightParenthesis {
                        Ok((acc2, a))
                    } else if ty(ts, a) is Comma {
                        param_items(ts, a + 1, acc2)
                    } else {
                        Err(expected_err(", or )"@, ts[a]))
                    }
                } else {
                    Err(went_back(ts, q))
                },
            },
        }
    }
}

/// `func name ( params ) : Type { ... } ;` at `p`; the result ends at the `;`.
pub open spec fn function_spec(ts: Seq<Token>, p: int) -> Result<(StmtView, int), SyntaxErr> {
    let start = ts[p].start_spec();
    match expect_next(ts, p, TokenTypes::Identifier, "Identifier"@) {
        Err(x) => Err(x),
        Ok(_) => match expect_next(ts, p + 1, TokenTypes::LeftParenthesis, "("@) {
            Err(x) => Err(x),
            Ok(_) => {
                let params: Result<(Seq<(Seq<char>, VariableTypes)>, int), SyntaxErr> =
                    if ty(ts, p + 3) is RightParenthesis { Ok((seq![], p + 3)) } else { param_items(ts, p + 3, seq![]) };
                match params {
                    Err(x) => Err(x),
                    Ok((ps, c)) => match expect_next(ts, c, TokenTypes::Colon, ":"@) {
                        Err(x) => Err(x),
                        Ok(_) => match type_spec(ts, c + 2) {
                            Err(x) => Err(x),
                            Ok((t, e)) => match expect_next(ts, e, TokenTypes::LeftCurlyBrace, "{"@) {
                                Err(x) => Err(x),
                                Ok(_) => match block_spec(ts, e + 1, false) {
                                    Err(x) => Err(x),
                                    Ok((b, r)) => match expect_next(ts, r, TokenTypes::Semicolon, ";"@) {
                                        Err(x) => Err(x),
                                        Ok(_) => Ok((StmtView::Function(
                                            start,
                                            ts[p + 1].token_value@,
                                            t,
                                            if ps.len() == 0 { None } else { Some(ps) },
                                            b,
                                        ), r + 1)),
                                    },
                                },
                            },
                        },
                    },
                }
            },
        },
    }
}

/// The top level from `p` on: function declarations and comments up to the
/// end of the file; any other construct is an error that names it.
pub open spec fn program_spec(ts: Seq<Token>, p: int, acc: Seq<StmtView>) -> Result<Seq<StmtView>, SyntaxErr>
    decreases ts.len() - p,
{
    if !(0 <= p < ts.len()) {
        Err(went_back(ts, 0))
    } else {
        let t = ts[p];
        match t.token_type {
            TokenTypes::EOF => Ok(acc),
            TokenTypes::Function => match function_spec(ts, p) {
                Err(x) => Err(x),
                Ok((f, e)) => if p < e < ts.len() - 1 {
                    program_spec(ts, e + 1, acc.push(f))
                } else {
                    Err(went_back(ts, p))
                },
            },
            TokenTypes::Comment => program_spec(ts, p + 1, acc),
            TokenTypes::Semicolon => Err(unexpected_err(t)),
            TokenTypes::ConstantVariable | TokenTypes::MutableVariable =>
                Err(removal_err(t, "Variables cannot be defined outside of a function"@)),
            TokenTypes::If => Err(removal_err(t, "If statements cannot be defined outside of a function"@)),
            TokenTypes::ElseIf => Err(removal_err(t, "ElseIf statements cannot be defined outside of a function"@)),
            TokenTypes::Else => Err(removal_err(t, "Else statements cannot be defined outside of a function"@)),
            TokenTypes::While | TokenTypes::For => Err(removal_err(t, "Loops cannot be defined outside of a function"@)),
            TokenTypes::Return => Err(removal_err(t, "Return statements cannot be used outside of a function"@)),
            TokenTypes::Continue | TokenTypes::Break => Err(removal_err(t, "Loop controls cannot be used outside of a loop"@)),
            _ => if starts_expr(t.token_type) {
                Err(removal_err(t, "Expressions cannot be standalone statements"@))
            } else {
                Err(removal_err(t, "Only functions can be defined at the global scope"@))
            },
        }
    }
}

} // verus!

verus! {

/// `r` is the statement that `s` describes, with the cursor left at `pos`.
pub open spec fn stmt_ok(r: Result<Statement, CompileError>, s: Result<(StmtView, int), SyntaxErr>, pos: int) -> bool {
    match s {
        Ok((v, e)) => r is Ok && stmt_view(r->Ok_0) == v && pos == e,
        Err(x) => r is Err && reports(r->Err_0, x),
    }
}

pub open spec fn opt_block_view(b: Option<Vec<Statement>>) -> Option<Seq<StmtView>> {
    match b {
        Some(v) => Some(stmt_list_view(v@)),
        None => None,
    }
}

pub proof fn lemma_stmt_list_view_push(s: Seq<Statement>, x: Statement)
    ensures
        stmt_list_view(s.push(x)) == stmt_list_view(s).push(stmt_view(x)),
{
    assert(stmt_list_view(s.push(x)) =~= stmt_list_view(s).push(stmt_view(x)));
}

/// The view of a boxed block is built from the views of its statements.
pub proof fn lemma_block_view(v: Vec<Statement>)
    ensures
        block_view(Some(Box::new(v))) == Some(stmt_list_view(v@)),
        forall|start: Start| #[trigger] stmt_view(Statement::Program { start, body: Box::new(v) }) == StmtView::Program(start, stmt_list_view(v@)),
{
    let b = Box::new(v);
    let s1 = block_view(Some(b))->0;
    assert forall|i: int| 0 <= i < v@.len() implies s1[i] == stmt_list_view(v@)[i] by {
        assert(b@.contains(b@[i]));
    }
    assert(s1 =~= stmt_list_view(v@));
    assert forall|start: Start| #[trigger] stmt_view(Statement::Program { start, body: Box::new(v) }) == StmtView::Program(start, stmt_list_view(v@)) by {
        let s2 = stmt_view(Statement::Program { start, body: Box::new(v) })->Program_1;
        assert forall|i: int| 0 <= i < v@.len() implies s2[i] == stmt_list_view(v@)[i] by {
            assert(b@.contains(b@[i]));
        }
        assert(s2 =~= stmt_list_view(v@));
    }
}

fn boxed_block(b: Option<Vec<Statement>>) -> (r: Option<Box<Vec<Statement>>>)
    ensures
        block_view(r) == opt_block_view(b),
{
    match b {
        Some(v) => {
            proof {
                lemma_block_view(v);
            }
            Some(Box::new(v))
        },
        None => None,
    }
}

impl Parser {
    /// The tree built so far.
    pub closed spec fn ast(&self) -> Statement {
        self.abstract_syntax_tree
    }

    fn report_error(&self, found: &Token, message: &str) -> (e: CompileError)
        ensures
            reports(e, report_err(*found, message@)),
    {
        CompileError { kind: ErrorKind::Syntax, start: Some(found.start()), message: String::from_str(message) }
    }

    /// An error asking to remove the construct at `found`.
    fn custom_error_current(&self, found: &Token, message: &str) -> (e: CompileError)
        ensures
            reports(e, removal_err(*found, message@)),
    {
        let t = found.token_type.text();
        let m = join3(message, ", remove this '", t.as_str());
        let mut m = m;
        m.append("'");
        CompileError { kind: ErrorKind::Syntax, start: Some(found.start()), message: m }
    }

    fn unknown_error(&self, found: &Token) -> (e: CompileError)
        ensures
            reports(e, unknown_err(*found)),
    {
        let m = join3("Unknown token '", found.token_value.as_str(), "'");
        CompileError { kind: ErrorKind::Syntax, start: Some(found.start()), message: m }
    }

    /// Checks that the token after the cursor is of kind `expected`.
    fn expected_or_error(&self, expected: TokenTypes, name: &str) -> (r: Result<(), CompileError>)
        requires
            self.wf(),
        ensures
            match expect_next(self.tokens@, self.pos as int, expected, name@) {
                Ok(_) => r is Ok,
                Err(x) => r is Err && reports(r->Err_0, x),
            },
    {
        if self.peek_expect(expected) {
            Ok(())
        } else {
            Err(self.expected_error(name, self.peek()))
        }
    }

    /// Parses a type with the cursor on its first token, leaving the cursor on its last.
    fn get_type(&mut self) -> (r: Result<VariableTypes, CompileError>)
        requires
            old(self).wf(),
        ensures
            final(self).wf(),
            final(self).tokens == old(self).tokens,
            final(self).pos >= old(self).pos,
            match type_spec(old(self).tokens@, old(self).pos as int) {
                Ok((t, e)) => r is Ok && r->Ok_0 == t && final(self).pos == e,
                Err(x) => r is Err && reports(r->Err_0, x),
            },
        decreases old(self).tokens@.len() - old(self).pos,
    {
        let t = self.current_type();
        match t {
            TokenTypes::Int => Ok(VariableTypes::Int),
            TokenTypes::Str => Ok(VariableTypes::Str),
            TokenTypes::Boo => Ok(VariableTypes::Boo),
            TokenTypes::Nul | TokenTypes::Null => Ok(VariableTypes::Nul),
            TokenTypes::Flo => Ok(VariableTypes::Flo),
            TokenTypes::Arr => {
                if !self.peek_expect(TokenTypes::LogicalSmallerThan) || self.tokens.len() - self.pos <= 2 {
                    return Err(self.report_error(self.current(), "Arr type must be generic, Arr<Type>"));
                }
                self.advance();
                self.advance();
                let inner = match self.get_type() {
                    Ok(i) => i,
                    Err(e) => return Err(e),
                };
                if !self.peek_expect(TokenTypes::LogicalGreaterThan) {
                    return Err(self.expected_error(">", self.peek()));
                }
                self.advance();
                Ok(VariableTypes::Arr(Box::new(inner)))
            },
            _ => Err(self.expected_error("Type", self.current())),
        }
    }

    /// Parses a variable declaration with the cursor on `let` or `mut`,
    /// leaving the cursor on its `;`.
    fn parse_var_declaration(&mut self) -> (r: Result<Statement, CompileError>)
        requires
            old(self).wf(),
            ty(old(self).tokens@, old(self).pos as int) is ConstantVariable
                || ty(old(self).tokens@, old(self).pos as int) is MutableVariable,
        ensures
            final(self).wf(),
            final(self).tokens == old(self).tokens,
            final(self).pos >= old(self).pos,
            r is Ok ==> final(self).pos > old(self).pos,
            stmt_ok(r, var_decl_spec(old(self).tokens@, old(self).pos as int), final(self).pos as int),
    {
        let ghost ts = self.tokens@;
        let ghost p = self.pos as int;
        let start = self.current().start();
        let kind = if self.current_type() == TokenTypes::ConstantVariable {
            VarDeclarationKind::Immutable
        } else {
            VarDeclarationKind::Mutable
        };
        if !self.peek_expect(TokenTypes::Identifier) {
            return Err(self.expected_error("Identifier", self.peek()));
        }
        self.advance();
        let name = self.tokens[self.pos].token_value.clone();
        match self.expected_or_error(TokenTypes::Colon, ":") {
            Ok(_) => {},
            Err(e) => return Err(e),
        }
        self.advance();
        self.advance();
        let var_type = match self.get_type() {
            Ok(t) => t,
            Err(e) => return Err(e),
        };
        proof {
            lemma_only_last_is_eof(ts, self.pos as int);
        }
        self.advance();
        let t = self.current_type();
        if kind == VarDeclarationKind::Mutable && t == TokenTypes::Semicolon {
            return Ok(Statement::VariableDeclaration { start, name: Some(name), kind, var_type: Some(var_type), value: None });
        }
        if t != TokenTypes::Assign {
            if kind == VarDeclarationKind::Mutable {
                return Err(self.unexpected_token_error(self.current()));
            }
            return Err(self.expected_error("=", self.current()));
        }
        match self.expect_expr_or_error() {
            Ok(_) => {},
            Err(e) => return Err(e),
        }
        self.advance();
        let value = match self.parse_expr() {
            Ok(v) => v,
            Err(e) => return Err(e),
        };
        match self.expected_or_error(TokenTypes::Semicolon, ";") {
            Ok(_) => {},
            Err(e) => return Err(e),
        }
        self.advance();
        Ok(Statement::VariableDeclaration { start, name: Some(name), kind, var_type: Some(var_type), value: Some(value) })
    }

    /// Parses `name op expression ;` with the cursor on the name, leaving the
    /// cursor past the `;`.
    fn parse_var_mutation(&mut self) -> (r: Result<Statement, CompileError>)
        requires
            old(self).wf(),
            ty(old(self).tokens@, old(self).pos as int) is Identifier,
            assign_operator(peek_ty(old(self).tokens@, old(self).pos as int)),
        ensures
            final(self).wf(),
            final(self).tokens == old(self).tokens,
            final(self).pos >= old(self).pos,
            r is Ok ==> final(self).pos > old(self).pos,
            stmt_ok(r, mutation_spec(old(self).tokens@, old(self).pos as int), final(self).pos as int),
    {
        let ghost ts = self.tokens@;
        let name = self.tokens[self.pos].token_value.clone();
        proof {
            lemma_only_last_is_eof(ts, self.pos + 1);
        }
        self.advance();
        let operator = self.current_type();
        self.advance();
        let value = match self.parse_expr() {
            Ok(v) => v,
            Err(e) => return Err(e),
        };
        match self.expected_or_error(TokenTypes::Semicolon, ";") {
            Ok(_) => {},
            Err(e) => return Err(e),
        }
        self.advance();
        self.advance();
        Ok(Statement::VariableAlteration { name, operator, value })
    }

    /// Parses `ret [expression] ;`, leaving the cursor past the `;`.
    fn parse_func_return(&mut self) -> (r: Result<Statement, CompileError>)
        requires
            old(self).wf(),
            ty(old(self).tokens@, old(self).pos as int) is Return,
        ensures
            final(self).wf(),
            final(self).tokens == old(self).tokens,
            final(self).pos >= old(self).pos,
            r is Ok ==> final(self).pos > old(self).pos,
            stmt_ok(r, return_spec(old(self).tokens@, old(self).pos as int), final(self).pos as int),
    {
        let start = self.current().start();
        if is_expr(self.peek_type()) {
            self.advance();
            let value = match self.parse_expr() {
                Ok(v) => v,
                Err(e) => return Err(e),
            };
            match self.expected_or_error(TokenTypes::Semicolon, ";") {
                Ok(_) => {},
                Err(e) => return Err(e),
            }
            self.advance();
            self.advance();
            Ok(Statement::Return { start, expression: Some(value) })
        } else if self.peek_expect(TokenTypes::Semicolon) {
            self.advance();
            self.advance();
            Ok(Statement::Return { start, expression: None })
        } else {
            Err(self.expected_error("Expression or ;", self.peek()))
        }
    }

    /// Parses a block with the cursor on its `{`, leaving the cursor on its `}`.
    fn parse_block(&mut self, in_loop: bool) -> (r: Result<Option<Vec<Statement>>, CompileError>)
        requires
            old(self).wf(),
        ensures
            final(self).wf(),
            final(self).tokens == old(self).tokens,
            final(self).pos >= old(self).pos,
            match block_spec(old(self).tokens@, old(self).pos as int, in_loop) {
                Ok((b, e)) => r is Ok && opt_block_view(r->Ok_0) == b && final(self).pos == e,
                Err(x) => r is Err && reports(r->Err_0, x),
            },
        decreases old(self).tokens@.len() - old(self).pos, 0int,
    {
        let ghost ts = self.tokens@;
        let ghost p0 = self.pos as int;
        if self.pos >= self.tokens.len() - 1 {
            return Err(CompileError { kind: ErrorKind::Syntax, start: Some(self.tokens[0].start()), message: String::new() });
        }
        self.advance();
        let mut items: Vec<Statement> = Vec::new();
        assert(stmt_list_view(items@) =~= seq![]);
        loop
            invariant
                self.wf(),
                self.tokens == old(self).tokens,
                ts == old(self).tokens@,
                p0 == old(self).pos,
                p0 + 1 < ts.len(),
                self.pos > p0,
                block_items(ts, p0 + 1, in_loop, seq![]) == block_items(ts, self.pos as int, in_loop, stmt_list_view(items@)),
            decreases ts.len() - self.pos,
        {
            let t = self.current_type();
            if t == TokenTypes::EOF {
                return Err(self.report_error(self.current(), "Unclosed block"));
            }
            if t == TokenTypes::RightCurlyBrace {
                if items.len() == 0 {
                    return Ok(None);
                }
                return Ok(Some(items));
            }
            if t == TokenTypes::Comment {
                self.advance();
                continue;
            }
            let s = match self.parse_statement(in_loop) {
                Ok(s) => s,
                Err(e) => return Err(e),
            };
            proof {
                lemma_stmt_list_view_push(items@, s);
            }
            items.push(s);
        }
    }

    /// Parses one statement of a block, leaving the cursor where the next starts.
    fn parse_statement(&mut self, in_loop: bool) -> (r: Result<Statement, CompileError>)
        requires
            old(self).wf(),
            old(self).pos < old(self).tokens@.len() - 1,
        ensures
            final(self).wf(),
            final(self).tokens == old(self).tokens,
            final(self).pos >= old(self).pos,
            r is Ok ==> final(self).pos > old(self).pos,
            stmt_ok(r, stmt_spec(old(self).tokens@, old(self).pos as int, in_loop), final(self).pos as int),
        decreases old(self).tokens@.len() - old(self).pos, 2int,
    {
        let t = self.current_type();
        match t {
            TokenTypes::ConstantVariable | TokenTypes::MutableVariable => {
                let dec = self.parse_var_declaration();
                if dec.is_ok() {
                    self.advance();
                }
                dec
            },
            TokenTypes::Identifier => {
                if self.peek_expect(TokenTypes::LeftParenthesis) {
                    self.parse_call_statement()
                } else if is_assign_operator(self.peek_type()) {
                    self.parse_var_mutation()
                } else {
                    Err(self.unexpected_token_error(self.current()))
                }
            },
            TokenTypes::Function => Err(self.report_error(self.current(), "Functions cannot be defined inside functions")),
            TokenTypes::Continue | TokenTypes::Break => {
                if in_loop {
                    self.parse_loop_controls()
                } else {
                    Err(self.report_error(self.current(), "Loop controls cannot be used outside of loops"))
                }
            },
            TokenTypes::Return => self.parse_func_return(),
            TokenTypes::If => self.parse_if_stmt(in_loop, false),
            TokenTypes::ElseIf => Err(self.report_error(self.current(), "Standalone elseif statement")),
            TokenTypes::Else => Err(self.report_error(self.current(), "Standalone else statement")),
            TokenTypes::While => self.parse_while_loop(),
            TokenTypes::For => self.parse_for_loop(),
            TokenTypes::Semicolon => Err(self.unexpected_token_error(self.current())),
            _ => {
                if is_expr(t) {
                    Err(self.custom_error_current(self.current(), "Only function calls can be standalone statements"))
                } else {
                    Err(self.unknown_error(self.current()))
                }
            },
        }
    }

    /// Parses `name(arguments);` with the cursor on the name, leaving the
    /// cursor past the `;`.
    fn parse_call_statement(&mut self) -> (r: Result<Statement, CompileError>)
        requires
            old(self).wf(),
            old(self).pos < old(self).tokens@.len() - 1,
            ty(old(self).tokens@, old(self).pos as int) is Identifier,
            peek_ty(old(self).tokens@, old(self).pos as int) is LeftParenthesis,
        ensures
            final(self).wf(),
            final(self).tokens == old(self).tokens,
            final(self).pos >= old(self).pos,
            r is Ok ==> final(self).pos > old(self).pos,
            stmt_ok(r, stmt_spec(old(self).tokens@, old(self).pos as int, true), final(self).pos as int),
            stmt_ok(r, stmt_spec(old(self).tokens@, old(self).pos as int, false), final(self).pos as int),
    {
        let call = match self.parse_func_call() {
            Ok(c) => c,
            Err(e) => return Err(e),
        };
        match self.expected_or_error(TokenTypes::Semicolon, ";") {
            Ok(_) => {},
            Err(e) => return Err(e),
        }
        self.advance();
        self.advance();
        Ok(Statement::FunctionCall(call))
    }

    /// Parses `brk;` or `cnt;`, leaving the cursor past the `;`.
    fn parse_loop_controls(&mut self) -> (r: Result<Statement, CompileError>)
        requires
            old(self).wf(),
            old(self).pos < old(self).tokens@.len() - 1,
            ty(old(self).tokens@, old(self).pos as int) is Break || ty(old(self).tokens@, old(self).pos as int) is Continue,
        ensures
            final(self).wf(),
            final(self).tokens == old(self).tokens,
            final(self).pos >= old(self).pos,
            r is Ok ==> final(self).pos > old(self).pos,
            stmt_ok(r, stmt_spec(old(self).tokens@, old(self).pos as int, true), final(self).pos as int),
    {
        if !self.peek_expect(TokenTypes::Semicolon) {
            return Err(self.expected_error(";", self.peek()));
        }
        let start = self.current().start();
        let stmt = if self.current_type() == TokenTypes::Break {
            Statement::Break { start }
        } else {
            Statement::Continue { start }
        };
        self.advance();
        self.advance();
        Ok(stmt)
    }
}

} // verus!

verus! {

pub proof fn lemma_type_spec_end(ts: Seq<Token>, p: int)
    requires
        tokens_ok(ts),
    ensures
        type_spec(ts, p) matches Ok((_, e)) ==> p <= e < ts.len() - 1,
    decreases ts.len() - p,
{
    if 0 <= p < ts.len() && base_type(ty(ts, p)) is None && ty(ts, p) is Arr && peek_ty(ts, p) is LogicalSmallerThan
        && p + 2 < ts.len() {
        lemma_type_spec_end(ts, p + 2);
        if let Ok((_, e)) = type_spec(ts, p + 2) {
            if p < e < ts.len() {
                lemma_only_last_is_eof(ts, e);
                if e + 1 < ts.len() {
                    lemma_only_last_is_eof(ts, e + 1);
                }
            }
        }
    }
    if 0 <= p < ts.len() {
        lemma_only_last_is_eof(ts, p);
    }
}

pub open spec fn param_list_view(s: Seq<FuncParam>) -> Seq<(Seq<char>, VariableTypes)> {
    s.map_values(|f: FuncParam| (f.name@, f.var_type))
}

/// The parameter list whose `(` is at `p`, and the index of its `)`.
pub open spec fn params_spec(ts: Seq<Token>, p: int) -> Result<(Seq<(Seq<char>, VariableTypes)>, int), SyntaxErr> {
    if ty(ts, p + 1) is RightParenthesis {
        Ok((seq![], p + 1))
    } else {
        param_items(ts, p + 1, seq![])
    }
}

fn boxed_stmt(s: Option<Statement>) -> (r: Option<Box<Statement>>)
    ensures
        match s {
            Some(x) => r is Some && *r->0 == x,
            None => r is None,
        },
{
    match s {
        Some(x) => Some(Box::new(x)),
        None => None,
    }
}

impl Parser {
    /// Parses an `if` (or, with `is_elseif`, an `elseif`) and the rest of its
    /// chain, leaving the cursor past the chain's `;`.
    fn parse_if_stmt(&mut self, in_loop: bool, is_elseif: bool) -> (r: Result<Statement, CompileError>)
        requires
            old(self).wf(),
            old(self).pos < old(self).tokens@.len() - 1,
        ensures
            final(self).wf(),
            final(self).tokens == old(self).tokens,
            final(self).pos >= old(self).pos,
            r is Ok ==> final(self).pos > old(self).pos,
            stmt_ok(r, if_spec(old(self).tokens@, old(self).pos as int, in_loop, is_elseif), final(self).pos as int),
        decreases old(self).tokens@.len() - old(self).pos, 1int,
    {
        let ghost ts = self.tokens@;
        let start = self.current().start();
        match self.expect_expr_or_error() {
            Ok(_) => {},
            Err(e) => return Err(e),
        }
        self.advance();
        let condition = match self.parse_expr() {
            Ok(c) => c,
            Err(e) => return Err(e),
        };
        match self.expected_or_error(TokenTypes::LeftCurlyBrace, "{") {
            Ok(_) => {},
            Err(e) => return Err(e),
        }
        self.advance();
        let block = match self.parse_block(in_loop) {
            Ok(b) => boxed_block(b),
            Err(e) => return Err(e),
        };
        let next = self.peek_type();
        proof {
            lemma_only_last_is_eof(ts, self.pos as int);
        }
        let alternate = if next == TokenTypes::Semicolon {
            self.advance();
            self.advance();
            None
        } else if next == TokenTypes::ElseIf {
            self.advance();
            match self.parse_if_stmt(in_loop, true) {
                Ok(a) => Some(Box::new(a)),
                Err(e) => return Err(e),
            }
        } else if next == TokenTypes::Else {
            self.advance();
            match self.parse_else_stmt(in_loop) {
                Ok(a) => Some(Box::new(a)),
                Err(e) => return Err(e),
            }
        } else {
            return Err(self.expected_error("; or elseif or else", self.peek()));
        };
        if is_elseif {
            Ok(Statement::ElseIf { start, condition, block, alternate })
        } else {
            Ok(Statement::If { start, condition, block, alternate })
        }
    }

    /// Parses `else { ... } ;`, leaving the cursor past the `;`.
    fn parse_else_stmt(&mut self, in_loop: bool) -> (r: Result<Statement, CompileError>)
        requires
            old(self).wf(),
            old(self).pos < old(self).tokens@.len() - 1,
        ensures
            final(self).wf(),
            final(self).tokens == old(self).tokens,
            final(self).pos >= old(self).pos,
            r is Ok ==> final(self).pos > old(self).pos,
            stmt_ok(r, else_spec(old(self).tokens@, old(self).pos as int, in_loop), final(self).pos as int),
        decreases old(self).tokens@.len() - old(self).pos, 1int,
    {
        let ghost ts = self.tokens@;
        let start = self.current().start();
        match self.expected_or_error(TokenTypes::LeftCurlyBrace, "{") {
            Ok(_) => {},
            Err(e) => return Err(e),
        }
        self.advance();
        let block = match self.parse_block(in_loop) {
            Ok(b) => boxed_block(b),
            Err(e) => return Err(e),
        };
        let next = self.peek_type();
        proof {
            lemma_only_last_is_eof(ts, self.pos as int);
        }
        if next == TokenTypes::Semicolon {
            self.advance();
            self.advance();
            Ok(Statement::Else { start, block })
        } else if next == TokenTypes::If {
            Err(self.report_error(self.current(), "If statements cannot go after else"))
        } else if next == TokenTypes::ElseIf {
            Err(self.report_error(self.current(), "ElseIf statements cannot go after else"))
        } else {
            Err(self.expected_error(";", self.peek()))
        }
    }

    /// Parses `while expression { ... } ;`, leaving the cursor past the `;`.
    fn parse_while_loop(&mut self) -> (r: Result<Statement, CompileError>)
        requires
            old(self).wf(),
            old(self).pos < old(self).tokens@.len() - 1,
        ensures
            final(self).wf(),
            final(self).tokens == old(self).tokens,
            final(self).pos >= old(self).pos,
            r is Ok ==> final(self).pos > old(self).pos,
            stmt_ok(r, while_spec(old(self).tokens@, old(self).pos as int), final(self).pos as int),
        decreases old(self).tokens@.len() - old(self).pos, 1int,
    {
        let ghost ts = self.tokens@;
        let start = self.current().start();
        match self.expect_expr_or_error() {
            Ok(_) => {},
            Err(e) => return Err(e),
        }
        self.advance();
        let test = match self.parse_expr() {
            Ok(t) => t,
            Err(e) => return Err(e),
        };
        match self.expected_or_error(TokenTypes::LeftCurlyBrace, "{") {
            Ok(_) => {},
            Err(e) => return Err(e),
        }
        self.advance();
        let block = match self.parse_block(true) {
            Ok(b) => boxed_block(b),
            Err(e) => return Err(e),
        };
        match self.expected_or_error(TokenTypes::Semicolon, ";") {
            Ok(_) => {},
            Err(e) => return Err(e),
        }
        proof {
            lemma_only_last_is_eof(ts, self.pos as int);
        }
        self.advance();
        self.advance();
        Ok(Statement::While { start, test, block })
    }

    /// Parses the test and update clauses of a `for` with the cursor on the
    /// `;` that ends its first clause, leaving the cursor where `{` should be.
    fn parse_for_clauses(&mut self) -> (r: Result<(Option<Expression>, Option<Statement>), CompileError>)
        requires
            old(self).wf(),
        ensures
            final(self).wf(),
            final(self).tokens == old(self).tokens,
            final(self).pos >= old(self).pos,
            match for_clauses(old(self).tokens@, old(self).pos as int) {
                Ok((t, u, n)) => r is Ok && opt_expr_view(r->Ok_0.0) == t && final(self).pos == n
                    && match u {
                        Some(x) => r->Ok_0.1 is Some && stmt_view(r->Ok_0.1->0) == x,
                        None => r->Ok_0.1 is None,
                    },
                Err(x) => r is Err && reports(r->Err_0, x),
            },
    {
        let ghost ts = self.tokens@;
        let ghost s1 = self.pos as int;
        proof {
            lemma_only_last_is_eof(ts, s1);
        }
        let test = if is_expr(self.peek_type()) {
            self.advance();
            let t = match self.parse_expr() {
                Ok(t) => t,
                Err(e) => return Err(e),
            };
            match self.expected_or_error(TokenTypes::Semicolon, ";") {
                Ok(_) => {},
                Err(e) => return Err(e),
            }
            self.advance();
            Some(t)
        } else if self.peek_expect(TokenTypes::Semicolon) {
            self.advance();
            None
        } else {
            return Err(self.unexpected_token_error(self.peek()));
        };
        let ghost s2 = self.pos as int;
        proof {
            lemma_only_last_is_eof(ts, s2);
        }
        let variable_update = if self.peek_expect(TokenTypes::Identifier) {
            self.advance();
            proof {
                lemma_only_last_is_eof(ts, s2 + 1);
            }
            if !is_assign_operator(self.peek_type()) {
                return Err(self.unexpected_token_error(self.peek()));
            }
            match self.parse_var_mutation() {
                Ok(u) => Some(u),
                Err(e) => return Err(e),
            }
        } else if self.peek_expect(TokenTypes::LeftCurlyBrace) {
            self.advance();
            None
        } else {
            return Err(self.expected_error("{", self.peek()));
        };
        Ok((test, variable_update))
    }

    /// Parses `for [mut declaration] ; [test] ; [update ;] { ... } ;`,
    /// leaving the cursor past the last `;`.
    fn parse_for_loop(&mut self) -> (r: Result<Statement, CompileError>)
        requires
            old(self).wf(),
            old(self).pos < old(self).tokens@.len() - 1,
        ensures
            final(self).wf(),
            final(self).tokens == old(self).tokens,
            final(self).pos >= old(self).pos,
            r is Ok ==> final(self).pos > old(self).pos,
            stmt_ok(r, for_spec(old(self).tokens@, old(self).pos as int), final(self).pos as int),
        decreases old(self).tokens@.len() - old(self).pos, 1int,
    {
        let ghost ts = self.tokens@;
        let ghost p = self.pos as int;
        let start = self.current().start();
        if self.peek_expect(TokenTypes::ConstantVariable) {
            return Err(self.report_error(
                self.current(),
                "Immutable variables cannot be used inside a loop variable, change 'let' to 'mut'",
            ));
        }
        self.advance();
        let first = self.current_type();
        let variable = if first == TokenTypes::MutableVariable {
            match self.parse_var_declaration() {
                Ok(v) => Some(v),
                Err(e) => return Err(e),
            }
        } else if first == TokenTypes::Semicolon {
            None
        } else {
            return Err(self.unexpected_token_error(self.current()));
        };
        let (test, variable_update) = match self.parse_for_clauses() {
            Ok(c) => c,
            Err(e) => return Err(e),
        };
        if self.current_type() != TokenTypes::LeftCurlyBrace {
            return Err(self.expected_error("{", self.current()));
        }
        let block = match self.parse_block(true) {
            Ok(b) => boxed_block(b),
            Err(e) => return Err(e),
        };
        match self.expected_or_error(TokenTypes::Semicolon, ";") {
            Ok(_) => {},
            Err(e) => return Err(e),
        }
        proof {
            lemma_only_last_is_eof(ts, self.pos as int);
        }
        self.advance();
        self.advance();
        Ok(Statement::For {
            start,
            variable: boxed_stmt(variable),
            test,
            variable_update: boxed_stmt(variable_update),
            block,
        })
    }

    /// Parses a parameter list with the cursor on `(`, leaving the cursor on `)`.
    fn parse_params(&mut self) -> (r: Result<Vec<FuncParam>, CompileError>)
        requires
            old(self).wf(),
            old(self).pos < old(self).tokens@.len() - 1,
        ensures
            final(self).wf(),
            final(self).tokens == old(self).tokens,
            final(self).pos >= old(self).pos,
            match params_spec(old(self).tokens@, old(self).pos as int) {
                Ok((ps, e)) => r is Ok && param_list_view(r->Ok_0@) == ps && final(self).pos == e,
                Err(x) => r is Err && reports(r->Err_0, x),
            },
    {
        let ghost ts = self.tokens@;
        self.advance();
        let mut params: Vec<FuncParam> = Vec::new();
        assert(param_list_view(params@) =~= seq![]);
        if self.current_type() == TokenTypes::RightParenthesis {
            return Ok(params);
        }
        let ghost q0 = self.pos as int;
        loop
            invariant
                self.wf(),
                self.tokens == old(self).tokens,
                ts == old(self).tokens@,
                self.pos >= q0,
                q0 == old(self).pos + 1,
                params_spec(ts, q0 - 1) == param_items(ts, q0, seq![]),
                param_items(ts, q0, seq![]) == param_items(ts, self.pos as int, param_list_view(params@)),
            decreases ts.len() - self.pos,
        {
            if self.current_type() != TokenTypes::Identifier {
                return Err(self.expected_error("Identifier", self.current()));
            }
            let name = self.tokens[self.pos].token_value.clone();
            let ghost q = self.pos + 2;
            match self.expected_or_error(TokenTypes::Colon, ":") {
                Ok(_) => {},
                Err(e) => return Err(e),
            }
            self.advance();
            self.advance();
            let var_type = match self.get_type() {
                Ok(t) => t,
                Err(e) => return Err(e),
            };
            proof {
                lemma_type_spec_end(ts, q);
                lemma_only_last_is_eof(ts, self.pos as int);
            }
            self.advance();
            let param = FuncParam { name, var_type };
            proof {
                assert(param_list_view(params@.push(param)) =~= param_list_view(params@).push((param.name@, param.var_type)));
            }
            params.push(param);
            let t = self.current_type();
            if t == TokenTypes::RightParenthesis {
                return Ok(params);
            } else if t == TokenTypes::Comma {
                self.advance();
            } else {
                return Err(self.expected_error(", or )", self.current()));
            }
        }
    }

    /// Parses a function declaration with the cursor on `func`, leaving the
    /// cursor on its closing `;`.
    #[verifier::rlimit(40)]
    fn parse_function_statement(&mut self) -> (r: Result<Statement, CompileError>)
        requires
            old(self).wf(),
            ty(old(self).tokens@, old(self).pos as int) is Function,
        ensures
            final(self).wf(),
            final(self).tokens == old(self).tokens,
            final(self).pos >= old(self).pos,
            stmt_ok(r, function_spec(old(self).tokens@, old(self).pos as int), final(self).pos as int),
    {
        let ghost ts = self.tokens@;
        let start = self.current().start();
        match self.expected_or_error(TokenTypes::Identifier, "Identifier") {
            Ok(_) => {},
            Err(e) => return Err(e),
        }
        self.advance();
        let name = self.tokens[self.pos].token_value.clone();
        match self.expected_or_error(TokenTypes::LeftParenthesis, "(") {
            Ok(_) => {},
            Err(e) => return Err(e),
        }
        self.advance();
        let params = match self.parse_params() {
            Ok(p) => p,
            Err(e) => return Err(e),
        };
        match self.expected_or_error(TokenTypes::Colon, ":") {
            Ok(_) => {},
            Err(e) => return Err(e),
        }
        proof {
            lemma_only_last_is_eof(ts, self.pos as int);
            lemma_only_last_is_eof(ts, self.pos + 1);
        }
        self.advance();
        self.advance();
        let var_type = match self.get_type() {
            Ok(t) => t,
            Err(e) => return Err(e),
        };
        match self.expected_or_error(TokenTypes::LeftCurlyBrace, "{") {
            Ok(_) => {},
            Err(e) => return Err(e),
        }
        self.advance();
        let body = match self.parse_block(false) {
            Ok(b) => boxed_block(b),
            Err(e) => return Err(e),
        };
        match self.expected_or_error(TokenTypes::Semicolon, ";") {
            Ok(_) => {},
            Err(e) => return Err(e),
        }
        self.advance();
        let params = if params.len() > 0 { Some(params) } else { None };
        Ok(Statement::FunctionDeclaration { start, name, var_type, params, body })
    }

    /// Parses the whole token stream from the cursor. On success the tree is
    /// a `Program` holding the function declarations in order; else the first
    /// syntax error is returned.
    pub fn parse_tokens(&mut self) -> (r: Result<(), CompileError>)
        requires
            old(self).wf(),
        ensures
            final(self).wf(),
            match program_spec(old(self).tokens_spec(), old(self).pos_spec(), seq![]) {
                Ok(s) => r is Ok && stmt_view(final(self).ast()) == StmtView::Program(Start { line: 1, column: 0 }, s),
                Err(x) => r is Err && reports(r->Err_0, x),
            },
    {
        let ghost ts = self.tokens@;
        let ghost p0 = self.pos as int;
        let mut items: Vec<Statement> = Vec::new();
        assert(stmt_list_view(items@) =~= seq![]);
        loop
            invariant
                self.wf(),
                self.tokens@ == ts,
                ts == old(self).tokens@,
                p0 == old(self).pos,
                program_spec(ts, p0, seq![]) == program_spec(ts, self.pos as int, stmt_list_view(items@)),
            decreases ts.len() - self.pos,
        {
            let t = self.current_type();
            match t {
                TokenTypes::EOF => {
                    proof {
                        lemma_block_view(items);
                    }
                    self.abstract_syntax_tree = Statement::Program { start: Start { line: 1, column: 0 }, body: Box::new(items) };
                    return Ok(());
                },
                TokenTypes::Function => {
                    let f = match self.parse_function_statement() {
                        Ok(f) => f,
                        Err(e) => return Err(e),
                    };
                    proof {
                        lemma_stmt_list_view_push(items@, f);
                        lemma_only_last_is_eof(ts, self.pos as int);
                    }
                    items.push(f);
                    self.advance();
                },
                TokenTypes::Comment => self.advance(),
                TokenTypes::Semicolon => return Err(self.unexpected_token_error(self.current())),
                TokenTypes::ConstantVariable | TokenTypes::MutableVariable => {
                    return Err(self.custom_error_current(self.current(), "Variables cannot be defined outside of a function"));
                },
                TokenTypes::If => {
                    return Err(self.custom_error_current(self.current(), "If statements cannot be defined outside of a function"));
                },
                TokenTypes::ElseIf => {
                    return Err(self.custom_error_current(self.current(), "ElseIf statements cannot be defined outside of a function"));
                },
                TokenTypes::Else => {
                    return Err(self.custom_error_current(self.current(), "Else statements cannot be defined outside of a function"));
                },
                TokenTypes::While | TokenTypes::For => {
                    return Err(self.custom_error_current(self.current(), "Loops cannot be defined outside of a function"));
                },
                TokenTypes::Return => {
                    return Err(self.custom_error_current(self.current(), "Return statements cannot be used outside of a function"));
                },
                TokenTypes::Continue | TokenTypes::Break => {
                    return Err(self.custom_error_current(self.current(), "Loop controls cannot be used outside of a loop"));
                },
                _ => {
                    if is_expr(t) {
                        return Err(self.custom_error_current(self.current(), "Expressions cannot be standalone statements"));
                    }
                    return Err(self.custom_error_current(self.current(), "Only functions can be defined at the global scope"));
                },
            }
        }
    }
}

} // verus!
