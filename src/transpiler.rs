//! Type-directed lowering of expressions to target-language fragments.
use vstd::prelude::*;
use vstd::string::StringExecFns;

use crate::text::{contains_char, join2, join3, join5};
use crate::types::{token_text, Expression, LiteralTypes, Statement, TokenTypes, VariableTypes};
use crate::{is_error, CompileError, ErrorKind};

verus! {

/// A declared variable and its type.
#[derive(Debug)]
pub struct Variable {
    pub name: String,
    pub var_type: VariableTypes,
}

/// A lowered expression: the target fragment and the inferred type.
#[derive(Debug)]
pub struct Expr {
    pub value: String,
    pub literal_type: VariableTypes,
}

/// The type of the first declaration of `name`, if any.
pub open spec fn lookup(vars: Seq<Variable>, name: Seq<char>) -> Option<VariableTypes>
    decreases vars.len(),
{
    if vars.len() == 0 {
        None
    } else if vars[0].name@ == name {
        Some(vars[0].var_type)
    } else {
        lookup(vars.drop_first(), name)
    }
}

pub open spec fn is_numeric(t: VariableTypes) -> bool {
    t is Int || t is Flo
}

/// The promotion rule: `Int` when both operands are `Int`, else `Flo`.
pub open spec fn promoted(l: VariableTypes, r: VariableTypes) -> VariableTypes {
    if l is Int && r is Int {
        VariableTypes::Int
    } else {
        VariableTypes::Flo
    }
}

/// `a + b + c + d + e`, the shape of most fragments and messages.
pub open spec fn cat5(a: Seq<char>, b: Seq<char>, c: Seq<char>, d: Seq<char>, e: Seq<char>) -> Seq<char> {
    a + b + c + d + e
}

/// `(l op r)`.
pub open spec fn infix(l: Seq<char>, op: TokenTypes, r: Seq<char>) -> Seq<char> {
    cat5("("@, l, " "@ + token_text(op) + " "@, r, ")"@)
}

/// `'l' <mid> 'r'` after `prefix`: the shape of operand-quoting messages.
pub open spec fn pair_message(prefix: Seq<char>, l: Seq<char>, r: Seq<char>) -> Seq<char> {
    cat5(prefix, l, "' with '"@, r, "'"@)
}

pub open spec fn literal_spec(kind: LiteralTypes, value: Seq<char>) -> (Seq<char>, VariableTypes) {
    match kind {
        LiteralTypes::String => ("\""@ + value + "\""@, VariableTypes::Str),
        LiteralTypes::Null => (value, VariableTypes::Nul),
        LiteralTypes::Boolean => (value, VariableTypes::Boo),
        LiteralTypes::Numeric => if value.contains('.') {
            (value, VariableTypes::Flo)
        } else {
            (value, VariableTypes::Int)
        },
    }
}

pub open spec fn unary_spec(op: TokenTypes, v: Seq<char>, t: VariableTypes) -> Result<(Seq<char>, VariableTypes), Seq<char>> {
    if op is LogicalNot {
        if t is Boo {
            Ok(("!"@ + v, t))
        } else {
            Err("Cannot use '!' on non boolean values"@)
        }
    } else {
        if is_numeric(t) {
            Ok(("-"@ + v, t))
        } else {
            Err("Cannot use '-' on non-numeric value"@)
        }
    }
}

/// The message for a non-numeric operand of `- * / %`.
pub open spec fn arithmetic_message(op: TokenTypes, l: Seq<char>, r: Seq<char>) -> Seq<char> {
    match op {
        TokenTypes::BinaryMinus => pair_message("Cannot subtract '"@, l, r),
        TokenTypes::BinaryMultiply => pair_message("Cannot multiply '"@, l, r),
        TokenTypes::BinaryDivision => pair_message("Cannot divide '"@, l, r),
        _ => pair_message("Cannot take modulo of '"@, l, r),
    }
}

pub open spec fn binary_spec(
    op: TokenTypes,
    l: Seq<char>,
    lt: VariableTypes,
    r: Seq<char>,
    rt: VariableTypes,
) -> Result<(Seq<char>, VariableTypes), Seq<char>> {
    if op is BinaryPlus {
        if lt is Str {
            if rt is Str {
                Ok((cat5("(concat("@, l, ", "@, r, "))"@), VariableTypes::Str))
            } else if is_numeric(rt) {
                Ok((cat5("(concat("@, l, ", \""@, r, "\"))"@), VariableTypes::Str))
            } else {
                Err(pair_message("Cannot concatenate '"@, l, r))
            }
        } else if is_numeric(lt) && rt is Str {
            Ok((cat5("(concat(\""@, l, "\", "@, r, "))"@), VariableTypes::Str))
        } else if is_numeric(lt) && is_numeric(rt) {
            Ok((infix(l, op, r), promoted(lt, rt)))
        } else {
            Err(pair_message("Cannot add '"@, l, r))
        }
    } else if op is BinaryMinus || op is BinaryMultiply || op is BinaryDivision || op is BinaryRest {
        if is_numeric(lt) && is_numeric(rt) {
            Ok((infix(l, op, r), promoted(lt, rt)))
        } else {
            Err(arithmetic_message(op, l, r))
        }
    } else {
        Err("Unknown error related to binary operations"@)
    }
}

/// `==` (when `equal`) or `!=` on operands of the given types.
pub open spec fn equality_spec(
    equal: bool,
    op: TokenTypes,
    l: Seq<char>,
    lt: VariableTypes,
    r: Seq<char>,
    rt: VariableTypes,
) -> Result<(Seq<char>, VariableTypes), Seq<char>> {
    let yes: Seq<char> = if equal { "true"@ } else { "false"@ };
    let no: Seq<char> = if equal { "false"@ } else { "true"@ };
    let cmp: Seq<char> = if equal { ") == 0)"@ } else { ") != 0)"@ };
    if lt is Str && rt is Str {
        Ok((cat5("(compare("@, l, ", "@, r, cmp), VariableTypes::Boo))
    } else if is_numeric(lt) && is_numeric(rt) {
        Ok((infix(l, op, r), VariableTypes::Boo))
    } else if lt is Nul && rt is Nul {
        Ok((yes, VariableTypes::Boo))
    } else if lt is Boo && rt is Boo {
        Ok((infix(l, op, r), VariableTypes::Boo))
    } else if lt is Arr && rt is Arr {
        Err(pair_message("Cannot compare '"@, l, r))
    } else {
        Ok((no, VariableTypes::Boo))
    }
}

/// `< <= > >=` on operands of the given types.
pub open spec fn ordering_spec(
    op: TokenTypes,
    l: Seq<char>,
    lt: VariableTypes,
    r: Seq<char>,
    rt: VariableTypes,
) -> Result<(Seq<char>, VariableTypes), Seq<char>> {
    if lt is Str && rt is Str {
        Err("Cannot compare strings with '"@ + token_text(op) + "', did you mean '=='?"@)
    } else if lt is Str && is_numeric(rt) {
        Err(pair_message("Cannot compare '"@, l, r) + cat5(", did you mean 'getLen("@, l, ") "@ + token_text(op) + " "@, r, "'?"@))
    } else if is_numeric(lt) && rt is Str {
        Err(pair_message("Cannot compare '"@, l, r) + cat5(", did you mean '"@, l, " "@ + token_text(op) + " getLen("@, r, ")'?"@))
    } else if is_numeric(lt) && is_numeric(rt) {
        Ok((infix(l, op, r), promoted(lt, rt)))
    } else {
        Err(pair_message("Cannot compare '"@, l, r))
    }
}

pub open spec fn logical_spec(
    op: TokenTypes,
    l: Seq<char>,
    lt: VariableTypes,
    r: Seq<char>,
    rt: VariableTypes,
) -> Result<(Seq<char>, VariableTypes), Seq<char>> {
    match op {
        TokenTypes::LogicalEquals => equality_spec(true, op, l, lt, r, rt),
        TokenTypes::LogicalDifferent => equality_spec(false, op, l, lt, r, rt),
        TokenTypes::LogicalSmallerThan | TokenTypes::LogicalSmallerOrEqualsThan
        | TokenTypes::LogicalGreaterThan | TokenTypes::LogicalGreaterOrEqualsThan => ordering_spec(op, l, lt, r, rt),
        _ => Err("Unknown error related to logical expressions"@),
    }
}

/// What lowering `e` against the declarations `vars` gives: the fragment and
/// its type, or the message of the type error. Operands of binary and logical
/// nodes are lowered right first, so an error on the right is the one reported.
pub open spec fn lower_spec(e: Expression, vars: Seq<Variable>) -> Result<(Seq<char>, VariableTypes), Seq<char>>
    decreases e,
{
    match e {
        Expression::Literal { literal_type, value } => Ok(literal_spec(literal_type, value@)),
        Expression::Identifier(name) => match lookup(vars, name@) {
            Some(t) => Ok((name@, t)),
            None => Err("Variable '"@ + name@ + "' being used before assigned"@),
        },
        Expression::Unary { operator, operand } => {
            if operator is LogicalNot || operator is BinaryMinus {
                match lower_spec(*operand, vars) {
                    Ok((v, t)) => unary_spec(operator, v, t),
                    Err(m) => Err(m),
                }
            } else {
                Err("Unknown error evaluating unary expression"@)
            }
        },
        Expression::Binary { operator, left, right } => match lower_spec(*right, vars) {
            Err(m) => Err(m),
            Ok((r, rt)) => match lower_spec(*left, vars) {
                Err(m) => Err(m),
                Ok((l, lt)) => binary_spec(operator, l, lt, r, rt),
            },
        },
        Expression::Logical { operator, left, right } => match lower_spec(*right, vars) {
            Err(m) => Err(m),
            Ok((r, rt)) => match lower_spec(*left, vars) {
                Err(m) => Err(m),
                Ok((l, lt)) => logical_spec(operator, l, lt, r, rt),
            },
        },
        Expression::ArrayLiteral { .. } => Err("Array literals cannot be lowered"@),
        _ => Err("Unknown error related to expression evaluation"@),
    }
}

/// `r` is what `s` describes: the same fragment and type, or a type error
/// with the same message.
pub open spec fn lowered_as(r: Result<Expr, CompileError>, s: Result<(Seq<char>, VariableTypes), Seq<char>>) -> bool {
    match s {
        Ok((v, t)) => r is Ok && r->Ok_0.value@ == v && r->Ok_0.literal_type == t,
        Err(m) => r is Err && is_error(r->Err_0, ErrorKind::Type, None, m),
    }
}

fn type_error(message: String) -> (r: CompileError)
    ensures
        is_error(r, ErrorKind::Type, None, message@),
{
    CompileError { kind: ErrorKind::Type, start: None, message }
}

fn fragment(value: String, literal_type: VariableTypes) -> (r: Result<Expr, CompileError>)
    ensures
        r is Ok && r->Ok_0.value == value && r->Ok_0.literal_type == literal_type,
{
    Ok(Expr { value, literal_type })
}

fn numeric(t: &VariableTypes) -> (r: bool)
    ensures
        r == is_numeric(*t),
{
    match t {
        VariableTypes::Int | VariableTypes::Flo => true,
        _ => false,
    }
}

fn promote(l: &VariableTypes, r: &VariableTypes) -> (t: VariableTypes)
    ensures
        t == promoted(*l, *r),
{
    match (l, r) {
        (VariableTypes::Int, VariableTypes::Int) => VariableTypes::Int,
        _ => VariableTypes::Flo,
    }
}

fn infix_fragment(l: &str, op: TokenTypes, r: &str) -> (s: String)
    ensures
        s@ == infix(l@, op, r@),
{
    let t = op.text();
    let mid = join3(" ", t.as_str(), " ");
    join5("(", l, mid.as_str(), r, ")")
}

fn pair_error(prefix: &str, l: &str, r: &str) -> (e: CompileError)
    ensures
        is_error(e, ErrorKind::Type, None, pair_message(prefix@, l@, r@)),
{
    type_error(join5(prefix, l, "' with '", r, "'"))
}

/// Looks `name` up among the declarations; the first one wins.
pub fn get_var_type(vars: &Vec<Variable>, name: &String) -> (r: Option<VariableTypes>)
    ensures
        r == lookup(vars@, name@),
{
    let mut i: usize = 0;
    assert(vars@.subrange(0, vars@.len() as int) =~= vars@);
    while i < vars.len()
        invariant
            i <= vars@.len(),
            lookup(vars@, name@) == lookup(vars@.subrange(i as int, vars@.len() as int), name@),
        decreases vars.len() - i,
    {
        assert(vars@.subrange(i as int, vars@.len() as int).drop_first() =~= vars@.subrange(i + 1, vars@.len() as int));
        if vars[i].name == *name {
            return Some(vars[i].var_type.duplicate());
        }
        i = i + 1;
    }
    None
}

fn lower_literal(kind: LiteralTypes, value: &String) -> (r: Result<Expr, CompileError>)
    ensures
        lowered_as(r, Ok(literal_spec(kind, value@))),
{
    match kind {
        LiteralTypes::String => fragment(join3("\"", value.as_str(), "\""), VariableTypes::Str),
        LiteralTypes::Null => fragment(value.clone(), VariableTypes::Nul),
        LiteralTypes::Boolean => fragment(value.clone(), VariableTypes::Boo),
        LiteralTypes::Numeric => {
            if contains_char(value.as_str(), '.') {
                fragment(value.clone(), VariableTypes::Flo)
            } else {
                fragment(value.clone(), VariableTypes::Int)
            }
        },
    }
}

fn lower_unary(op: TokenTypes, e: Expr) -> (r: Result<Expr, CompileError>)
    requires
        op is LogicalNot || op is BinaryMinus,
    ensures
        lowered_as(r, unary_spec(op, e.value@, e.literal_type)),
{
    match op {
        TokenTypes::LogicalNot => match e.literal_type {
            VariableTypes::Boo => fragment(join2("!", e.value.as_str()), VariableTypes::Boo),
            _ => Err(type_error(String::from_str("Cannot use '!' on non boolean values"))),
        },
        _ => {
            if numeric(&e.literal_type) {
                fragment(join2("-", e.value.as_str()), e.literal_type)
            } else {
                Err(type_error(String::from_str("Cannot use '-' on non-numeric value")))
            }
        },
    }
}

fn lower_binary(op: TokenTypes, l: Expr, r: Expr) -> (res: Result<Expr, CompileError>)
    ensures
        lowered_as(res, binary_spec(op, l.value@, l.literal_type, r.value@, r.literal_type)),
{
    let lv = l.value.as_str();
    let rv = r.value.as_str();
    match op {
        TokenTypes::BinaryPlus => {
            match (&l.literal_type, &r.literal_type) {
                (VariableTypes::Str, VariableTypes::Str) => fragment(join5("(concat(", lv, ", ", rv, "))"), VariableTypes::Str),
                (VariableTypes::Str, VariableTypes::Int) | (VariableTypes::Str, VariableTypes::Flo) =>
                    fragment(join5("(concat(", lv, ", \"", rv, "\"))"), VariableTypes::Str),
                (VariableTypes::Str, _) => Err(pair_error("Cannot concatenate '", lv, rv)),
                (VariableTypes::Int, VariableTypes::Str) | (VariableTypes::Flo, VariableTypes::Str) =>
                    fragment(join5("(concat(\"", lv, "\", ", rv, "))"), VariableTypes::Str),
                _ => {
                    if numeric(&l.literal_type) && numeric(&r.literal_type) {
                        fragment(infix_fragment(lv, op, rv), promote(&l.literal_type, &r.literal_type))
                    } else {
                        Err(pair_error("Cannot add '", lv, rv))
                    }
                },
            }
        },
        TokenTypes::BinaryMinus | TokenTypes::BinaryMultiply | TokenTypes::BinaryDivision | TokenTypes::BinaryRest => {
            if numeric(&l.literal_type) && numeric(&r.literal_type) {
                fragment(infix_fragment(lv, op, rv), promote(&l.literal_type, &r.literal_type))
            } else {
                match op {
                    TokenTypes::BinaryMinus => Err(pair_error("Cannot subtract '", lv, rv)),
                    TokenTypes::BinaryMultiply => Err(pair_error("Cannot multiply '", lv, rv)),
                    TokenTypes::BinaryDivision => Err(pair_error("Cannot divide '", lv, rv)),
                    _ => Err(pair_error("Cannot take modulo of '", lv, rv)),
                }
            }
        },
        _ => Err(type_error(String::from_str("Unknown error related to binary operations"))),
    }
}

fn lower_equality(equal: bool, op: TokenTypes, l: Expr, r: Expr) -> (res: Result<Expr, CompileError>)
    ensures
        lowered_as(res, equality_spec(equal, op, l.value@, l.literal_type, r.value@, r.literal_type)),
{
    let lv = l.value.as_str();
    let rv = r.value.as_str();
    match (&l.literal_type, &r.literal_type) {
        (VariableTypes::Str, VariableTypes::Str) => {
            let tail = if equal { ") == 0)" } else { ") != 0)" };
            fragment(join5("(compare(", lv, ", ", rv, tail), VariableTypes::Boo)
        },
        (VariableTypes::Nul, VariableTypes::Nul) => {
            fragment(String::from_str(if equal { "true" } else { "false" }), VariableTypes::Boo)
        },
        (VariableTypes::Boo, VariableTypes::Boo) => fragment(infix_fragment(lv, op, rv), VariableTypes::Boo),
        (VariableTypes::Arr(_), VariableTypes::Arr(_)) => Err(pair_error("Cannot compare '", lv, rv)),
        _ => {
            if numeric(&l.literal_type) && numeric(&r.literal_type) {
                fragment(infix_fragment(lv, op, rv), VariableTypes::Boo)
            } else {
                fragment(String::from_str(if equal { "false" } else { "true" }), VariableTypes::Boo)
            }
        },
    }
}

fn lower_ordering(op: TokenTypes, l: Expr, r: Expr) -> (res: Result<Expr, CompileError>)
    ensures
        lowered_as(res, ordering_spec(op, l.value@, l.literal_type, r.value@, r.literal_type)),
{
    let lv = l.value.as_str();
    let rv = r.value.as_str();
    let t = op.text();
    let ln = numeric(&l.literal_type);
    let rn = numeric(&r.literal_type);
    match (&l.literal_type, &r.literal_type) {
        (VariableTypes::Str, VariableTypes::Str) => {
            Err(type_error(join3("Cannot compare strings with '", t.as_str(), "', did you mean '=='?")))
        },
        (VariableTypes::Str, _) if rn => {
            let mut m = join5("Cannot compare '", lv, "' with '", rv, "'");
            let mid = join3(") ", t.as_str(), " ");
            let hint = join5(", did you mean 'getLen(", lv, mid.as_str(), rv, "'?");
            m.append(hint.as_str());
            Err(type_error(m))
        },
        (_, VariableTypes::Str) if ln => {
            let mut m = join5("Cannot compare '", lv, "' with '", rv, "'");
            let mid = join3(" ", t.as_str(), " getLen(");
            let hint = join5(", did you mean '", lv, mid.as_str(), rv, ")'?");
            m.append(hint.as_str());
            Err(type_error(m))
        },
        _ => {
            if ln && rn {
                fragment(infix_fragment(lv, op, rv), promote(&l.literal_type, &r.literal_type))
            } else {
                Err(pair_error("Cannot compare '", lv, rv))
            }
        },
    }
}

fn lower_logical(op: TokenTypes, l: Expr, r: Expr) -> (res: Result<Expr, CompileError>)
    ensures
        lowered_as(res, logical_spec(op, l.value@, l.literal_type, r.value@, r.literal_type)),
{
    match op {
        TokenTypes::LogicalEquals => lower_equality(true, op, l, r),
        TokenTypes::LogicalDifferent => lower_equality(false, op, l, r),
        TokenTypes::LogicalSmallerThan | TokenTypes::LogicalSmallerOrEqualsThan
        | TokenTypes::LogicalGreaterThan | TokenTypes::LogicalGreaterOrEqualsThan => lower_ordering(op, l, r),
        _ => Err(type_error(String::from_str("Unknown error related to logical expressions"))),
    }
}

/// Lowers `expr` against the declarations `vars` to a target fragment and its
/// type, or the type error that stops the run.
pub fn eval_expr(expr: &Expression, vars: &Vec<Variable>) -> (r: Result<Expr, CompileError>)
    ensures
        lowered_as(r, lower_spec(*expr, vars@)),
    decreases expr,
{
    match expr {
        Expression::Literal { literal_type, value } => lower_literal(*literal_type, value),
        Expression::Identifier(name) => match get_var_type(vars, name) {
            Some(t) => fragment(name.clone(), t),
            None => Err(type_error(join3("Variable '", name.as_str(), "' being used before assigned"))),
        },
        Expression::Unary { operator, operand } => {
            match operator {
                TokenTypes::LogicalNot | TokenTypes::BinaryMinus => match eval_expr(operand, vars) {
                    Ok(e) => lower_unary(*operator, e),
                    Err(e) => Err(e),
                },
                _ => Err(type_error(String::from_str("Unknown error evaluating unary expression"))),
            }
        },
        Expression::Binary { operator, left, right } => match eval_expr(right, vars) {
            Err(e) => Err(e),
            Ok(r) => match eval_expr(left, vars) {
                Err(e) => Err(e),
                Ok(l) => lower_binary(*operator, l, r),
            },
        },
        Expression::Logical { operator, left, right } => match eval_expr(right, vars) {
            Err(e) => Err(e),
            Ok(r) => match eval_expr(left, vars) {
                Err(e) => Err(e),
                Ok(l) => lower_logical(*operator, l, r),
            },
        },
        Expression::ArrayLiteral { .. } => Err(type_error(String::from_str("Array literals cannot be lowered"))),
        _ => Err(type_error(String::from_str("Unknown error related to expression evaluation"))),
    }
}

} // verus!

verus! {

/// The target type written for a declared type.
pub open spec fn c_type(t: VariableTypes) -> Seq<char> {
    if t is Int { "int"@ } else { "void"@ }
}

/// The first `n` arguments lowered and joined by commas, or the first type error.
pub open spec fn args_c(a: Seq<Expression>, vars: Seq<Variable>, n: int) -> Result<Seq<char>, Seq<char>>
    decreases n,
{
    if n <= 0 {
        Ok(seq![])
    } else {
        match args_c(a, vars, n - 1) {
            Err(m) => Err(m),
            Ok(t) => match lower_spec(a[n - 1], vars) {
                Err(m) => Err(m),
                Ok((v, _)) => Ok(if n == 1 { v } else { t + ","@ + v }),
            },
        }
    }
}

/// The target text of a statement: a function declaration becomes a
/// definition with its body, a call statement a call, anything else nothing.
pub open spec fn stmt_c(s: Statement, vars: Seq<Variable>) -> Result<Seq<char>, Seq<char>>
    decreases s, 0int,
{
    match s {
        Statement::FunctionDeclaration { name, var_type, body, .. } => {
            let inner = match body {
                None => Ok(seq![]),
                Some(b) => stmts_c(b@, vars, b@.len() as int),
            };
            match inner {
                Err(m) => Err(m),
                Ok(t) => Ok(c_type(var_type) + " "@ + name@ + "(){"@ + t + "}"@),
            }
        },
        Statement::FunctionCall(e) => match e {
            Expression::Call { name, arguments } => {
                let args = match arguments {
                    None => Ok(seq![]),
                    Some(a) => args_c(a@, vars, a@.len() as int),
                };
                match args {
                    Err(m) => Err(m),
                    Ok(t) => Ok(name@ + "("@ + t + ");"@),
                }
            },
            _ => Ok(seq![]),
        },
        _ => Ok(seq![]),
    }
}

/// The target text of the first `n` statements, or the first type error.
pub open spec fn stmts_c(ss: Seq<Statement>, vars: Seq<Variable>, n: int) -> Result<Seq<char>, Seq<char>>
    decreases ss, n,
{
    if n <= 0 || n > ss.len() {
        Ok(seq![])
    } else {
        match stmts_c(ss, vars, n - 1) {
            Err(m) => Err(m),
            Ok(t) => match stmt_c(ss[n - 1], vars) {
                Err(m) => Err(m),
                Ok(u) => Ok(t + u),
            },
        }
    }
}

} // verus!

verus! {

/// A type error among the first `n` arguments is the one reported for all of them.
pub proof fn lemma_args_c_err(a: Seq<Expression>, vars: Seq<Variable>, n: int, m: int)
    requires
        0 <= n <= m,
        args_c(a, vars, n) is Err,
    ensures
        args_c(a, vars, m) == args_c(a, vars, n),
    decreases m - n,
{
    if m > n {
        lemma_args_c_err(a, vars, n, m - 1);
    }
}

/// A type error among the first `n` statements is the one reported for all of them.
pub proof fn lemma_stmts_c_err(ss: Seq<Statement>, vars: Seq<Variable>, n: int, m: int)
    requires
        0 <= n <= m <= ss.len(),
        stmts_c(ss, vars, n) is Err,
    ensures
        stmts_c(ss, vars, m) == stmts_c(ss, vars, n),
    decreases m - n,
{
    if m > n {
        lemma_stmts_c_err(ss, vars, n, m - 1);
    }
}

/// Emits target code for a parsed program: function definitions and calls,
/// with every expression lowered against the declared variables.
#[derive(Debug)]
pub struct Transpiler {
    ast: Statement,
    pub c_src_code: String,
    variables: Vec<Variable>,
}

/// The statements of a `Program` tree; nothing for any other statement.
pub open spec fn program_body(s: Statement) -> Seq<Statement> {
    match s {
        Statement::Program { body, .. } => body@,
        _ => seq![],
    }
}

impl Transpiler {
    pub closed spec fn ast_spec(&self) -> Statement {
        self.ast
    }

    /// The code emitted so far.
    pub closed spec fn code(&self) -> Seq<char> {
        self.c_src_code@
    }

    /// The declared variables, in declaration order.
    pub closed spec fn variables_spec(&self) -> Seq<Variable> {
        self.variables@
    }

    /// A transpiler for `tree` whose output starts with the runtime header.
    pub fn new(tree: Statement) -> (r: Transpiler)
        ensures
            r.ast_spec() == tree,
            r.code() == "#include \"stdlib.h\"\n"@,
            r.variables_spec() == Seq::<Variable>::empty(),
    {
        Transpiler { ast: tree, c_src_code: String::from_str("#include \"stdlib.h\"\n"), variables: Vec::new() }
    }

    /// Appends the target code of every top-level statement, or stops at the
    /// first type error, leaving the code as it was.
    pub fn transpile_abstract_syntax_tree(&mut self) -> (r: Result<(), CompileError>)
        ensures
            final(self).ast_spec() == old(self).ast_spec(),
            final(self).variables_spec() == old(self).variables_spec(),
            match stmts_c(
                program_body(old(self).ast_spec()),
                old(self).variables_spec(),
                program_body(old(self).ast_spec()).len() as int,
            ) {
                Ok(t) => r is Ok && final(self).code() == old(self).code() + t,
                Err(m) => r is Err && is_error(r->Err_0, ErrorKind::Type, None, m) && final(self).code() == old(self).code(),
            },
    {
        let code = match &self.ast {
            Statement::Program { body, .. } => self.transpile_body(body),
            _ => Ok(String::new()),
        };
        match code {
            Ok(c) => {
                self.c_src_code.append(c.as_str());
                Ok(())
            },
            Err(e) => Err(e),
        }
    }

    /// The target code of the statements of `ss`, in order.
    fn transpile_body(&self, ss: &Vec<Statement>) -> (r: Result<String, CompileError>)
        ensures
            match stmts_c(ss@, self.variables@, ss@.len() as int) {
                Ok(t) => r is Ok && r->Ok_0@ == t,
                Err(m) => r is Err && is_error(r->Err_0, ErrorKind::Type, None, m),
            },
        decreases ss@, 1int,
    {
        let mut out = String::new();
        let mut i: usize = 0;
        while i < ss.len()
            invariant
                i <= ss@.len(),
                stmts_c(ss@, self.variables@, i as int) == Ok::<Seq<char>, Seq<char>>(out@),
            decreases ss@.len() - i,
        {
            let t = match self.transpile_stmt(&ss[i]) {
                Ok(t) => t,
                Err(e) => {
                    proof {
                        lemma_stmts_c_err(ss@, self.variables@, i + 1, ss@.len() as int);
                    }
                    return Err(e);
                },
            };
            out.append(t.as_str());
            i = i + 1;
        }
        Ok(out)
    }

    fn transpile_stmt(&self, stmt: &Statement) -> (r: Result<String, CompileError>)
        ensures
            match stmt_c(*stmt, self.variables@) {
                Ok(t) => r is Ok && r->Ok_0@ == t,
                Err(m) => r is Err && is_error(r->Err_0, ErrorKind::Type, None, m),
            },
        decreases *stmt, 0int,
    {
        match stmt {
            Statement::FunctionDeclaration { name, var_type, body, .. } => {
                let inner = match body {
                    Some(b) => match self.transpile_body(b) {
                        Ok(t) => t,
                        Err(e) => return Err(e),
                    },
                    None => String::new(),
                };
                let c_type = self.get_c_type(var_type);
                let mut out = join5(c_type.as_str(), " ", name.as_str(), "(){", inner.as_str());
                out.append("}");
                Ok(out)
            },
            Statement::FunctionCall(Expression::Call { name, arguments }) => {
                let args = match arguments {
                    Some(a) => match self.transpile_args(a) {
                        Ok(t) => t,
                        Err(e) => return Err(e),
                    },
                    None => String::new(),
                };
                let mut out = join3(name.as_str(), "(", args.as_str());
                out.append(");");
                Ok(out)
            },
            _ => Ok(String::new()),
        }
    }

    /// The lowered arguments joined by commas.
    fn transpile_args(&self, args: &Vec<Expression>) -> (r: Result<String, CompileError>)
        ensures
            match args_c(args@, self.variables@, args@.len() as int) {
                Ok(t) => r is Ok && r->Ok_0@ == t,
                Err(m) => r is Err && is_error(r->Err_0, ErrorKind::Type, None, m),
            },
    {
        let mut out = String::new();
        let mut i: usize = 0;
        while i < args.len()
            invariant
                i <= args@.len(),
                args_c(args@, self.variables@, i as int) == Ok::<Seq<char>, Seq<char>>(out@),
            decreases args@.len() - i,
        {
            let e = match eval_expr(&args[i], &self.variables) {
                Ok(e) => e,
                Err(e) => {
                    proof {
                        lemma_args_c_err(args@, self.variables@, i + 1, args@.len() as int);
                    }
                    return Err(e);
                },
            };
            if i > 0 {
                out.append(",");
            } else {
                assert(out@ + e.value@ =~= e.value@);
            }
            out.append(e.value.as_str());
            i = i + 1;
        }
        Ok(out)
    }

    /// The target type written for `t`.
    fn get_c_type(&self, t: &VariableTypes) -> (r: String)
        ensures
            r@ == c_type(*t),
    {
        match t {
            VariableTypes::Int => String::from_str("int"),
            _ => String::from_str("void"),
        }
    }
}

} // verus!

verus! {

/// Lowering is a function of the expression and the declarations: any two
/// results that `eval_expr` may give for the same inputs carry the same
/// fragment and type, or the same error message.
pub proof fn lemma_lowering_idempotent(
    e: Expression,
    vars: Seq<Variable>,
    r1: Result<Expr, CompileError>,
    r2: Result<Expr, CompileError>,
)
    requires
        lowered_as(r1, lower_spec(e, vars)),
        lowered_as(r2, lower_spec(e, vars)),
    ensures
        r1 is Ok <==> r2 is Ok,
        r1 is Ok ==> r1->Ok_0.value@ == r2->Ok_0.value@ && r1->Ok_0.literal_type == r2->Ok_0.literal_type,
        r1 is Err ==> r1->Err_0.message@ == r2->Err_0.message@ && r1->Err_0.kind == r2->Err_0.kind,
{
}

/// Promotion: an arithmetic expression whose operands both lower to numeric
/// types lowers to `Int` when both are `Int`, and to `Flo` when either is `Flo`.
pub proof fn lemma_promotion(op: TokenTypes, left: Box<Expression>, right: Box<Expression>, vars: Seq<Variable>)
    requires
        op is BinaryPlus || op is BinaryMinus || op is BinaryMultiply || op is BinaryDivision || op is BinaryRest,
        lower_spec(*left, vars) is Ok,
        lower_spec(*right, vars) is Ok,
        is_numeric(lower_spec(*left, vars)->Ok_0.1),
        is_numeric(lower_spec(*right, vars)->Ok_0.1),
    ensures
        ({
            let r = lower_spec(Expression::Binary { operator: op, left, right }, vars);
            let lt = lower_spec(*left, vars)->Ok_0.1;
            let rt = lower_spec(*right, vars)->Ok_0.1;
            &&& r is Ok
            &&& (r->Ok_0.1 is Int <==> (lt is Int && rt is Int))
            &&& ((lt is Flo || rt is Flo) ==> r->Ok_0.1 is Flo)
        }),
{
}

/// Relational comparisons follow the same promotion as arithmetic on numeric operands.
pub proof fn lemma_ordering_promotion(op: TokenTypes, left: Box<Expression>, right: Box<Expression>, vars: Seq<Variable>)
    requires
        op is LogicalSmallerThan || op is LogicalSmallerOrEqualsThan || op is LogicalGreaterThan
            || op is LogicalGreaterOrEqualsThan,
        lower_spec(*left, vars) is Ok,
        lower_spec(*right, vars) is Ok,
        is_numeric(lower_spec(*left, vars)->Ok_0.1),
        is_numeric(lower_spec(*right, vars)->Ok_0.1),
    ensures
        ({
            let r = lower_spec(Expression::Logical { operator: op, left, right }, vars);
            let lt = lower_spec(*left, vars)->Ok_0.1;
            let rt = lower_spec(*right, vars)->Ok_0.1;
            &&& r is Ok
            &&& (r->Ok_0.1 is Int <==> (lt is Int && rt is Int))
            &&& ((lt is Flo || rt is Flo) ==> r->Ok_0.1 is Flo)
        }),
{
}

} // verus!
