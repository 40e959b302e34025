//! The parser: from source text to the syntax tree that the grammar gives.
use vstd::prelude::*;
use vstd::string::*;
use crate::ast::{Expr, ExprModel, Stmt, StmtModel, exprs_model, params_model, stmts_model};
use crate::errors::{ErrorModel, KujavError};
use crate::grammar::{
    LAST_LEVEL,
    FunctionHead,
    TypeNote,
    block_ends,
    function_of,
    is_reserved,
    is_valued_return,
    name_at,
    operator_at,
    parse_binary,
    parse_binary_rest,
    parse_block,
    parse_dims,
    parse_expr,
    parse_function,
    parse_head,
    parse_if,
    parse_index_assign,
    parse_items,
    parse_let,
    parse_list,
    parse_more_params,
    parse_operand,
    parse_param,
    parse_params,
    parse_primary,
    parse_program,
    parse_stmt,
    parse_type,
    parse_while,
    parse_word,
    returns_value,
    sign_at,
    word_at,
};
use crate::lexer::{Sym, Token, syntax_error, tokenize, tokens_model, tokens_of};
use crate::text::str_eq;
use crate::types::{KType, TypeModel};

verus! {

/// The syntax tree of a source text, or the error that its tokens or its
/// grammar give.
pub open spec fn parse_source(src: Seq<char>) -> Result<Seq<StmtModel>, ErrorModel> {
    match tokens_of(src) {
        Err(e) => Err(e),
        Ok(ts) => match parse_program(ts) {
            Some(program) => Ok(program),
            None => Err(syntax_error("invalid syntax"@)),
        },
    }
}

/// Whether `r` is what the grammar gives for an expression.
pub open spec fn read_expr(r: Option<(Expr, usize)>, s: Option<(ExprModel, int)>) -> bool {
    match r {
        Some((e, p)) => s == Some((e@, p as int)),
        None => s is None,
    }
}

/// Whether `r` is what the grammar gives for a list of expressions.
pub open spec fn read_exprs(
    r: Option<(Vec<Expr>, usize)>,
    s: Option<(Seq<ExprModel>, int)>,
) -> bool {
    match r {
        Some((es, p)) => s == Some((exprs_model(es@), p as int)),
        None => s is None,
    }
}

/// Whether `r` is what the grammar gives for a statement.
pub open spec fn read_stmt(r: Option<(Stmt, usize)>, s: Option<(StmtModel, int)>) -> bool {
    match r {
        Some((st, p)) => s == Some((st@, p as int)),
        None => s is None,
    }
}

/// Whether `r` is what the grammar gives for a list of statements.
pub open spec fn read_stmts(
    r: Option<(Vec<Stmt>, usize)>,
    s: Option<(Seq<StmtModel>, int)>,
) -> bool {
    match r {
        Some((ss, p)) => s == Some((stmts_model(ss@), p as int)),
        None => s is None,
    }
}

/// Whether `r` ends behind `pos` and within the tokens, if it ends at all.
pub open spec fn moved<T>(r: Option<(T, usize)>, pos: usize, len: usize) -> bool {
    match r {
        Some((_, p)) => pos < p <= len,
        None => true,
    }
}

fn sign_is(ts: &Vec<Token>, pos: usize, s: Sym) -> (r: bool)
    ensures
        r == sign_at(tokens_model(ts@), pos as int, s),
{
    if pos < ts.len() {
        match &ts[pos] {
            Token::Symbol(x) => *x == s,
            _ => false,
        }
    } else {
        false
    }
}

fn word_is(ts: &Vec<Token>, pos: usize, w: &str) -> (r: bool)
    ensures
        r == word_at(tokens_model(ts@), pos as int, w@),
{
    if pos < ts.len() {
        match &ts[pos] {
            Token::Word(x) => str_eq(x.as_str(), w),
            _ => false,
        }
    } else {
        false
    }
}

fn reserved(w: &str) -> (r: bool)
    ensures
        r == is_reserved(w@),
{
    str_eq(w, "let") || str_eq(w, "local") || str_eq(w, "print") || str_eq(w, "if") || str_eq(
        w,
        "then",
    ) || str_eq(w, "else") || str_eq(w, "end") || str_eq(w, "while") || str_eq(w, "do") || str_eq(
        w,
        "function",
    ) || str_eq(w, "return") || str_eq(w, "true") || str_eq(w, "false") || str_eq(w, "and")
        || str_eq(w, "or") || str_eq(w, "input")
}

fn name_of(ts: &Vec<Token>, pos: usize) -> (r: Option<String>)
    ensures
        match r {
            Some(name) => name_at(tokens_model(ts@), pos as int) == Some(name@) && pos < ts.len(),
            None => name_at(tokens_model(ts@), pos as int) is None,
        },
{
    if pos < ts.len() {
        match &ts[pos] {
            Token::Word(w) => if reserved(w.as_str()) {
                None
            } else {
                Some(w.clone())
            },
            _ => None,
        }
    } else {
        None
    }
}

fn ends_block(ts: &Vec<Token>, pos: usize) -> (r: bool)
    ensures
        r == block_ends(tokens_model(ts@), pos as int),
{
    if pos < ts.len() {
        match &ts[pos] {
            Token::Word(w) => str_eq(w.as_str(), "end") || str_eq(w.as_str(), "else"),
            Token::Symbol(s) => *s == Sym::RBrace,
            _ => false,
        }
    } else {
        true
    }
}

fn operator_of(ts: &Vec<Token>, pos: usize, level: u8) -> (r: Option<&'static str>)
    ensures
        match r {
            Some(op) => operator_at(tokens_model(ts@), pos as int, level as int) == Some(op@),
            None => operator_at(tokens_model(ts@), pos as int, level as int) is None,
        },
{
    if pos >= ts.len() {
        None
    } else if level == 0 {
        if word_is(ts, pos, "or") {
            Some("or")
        } else {
            None
        }
    } else if level == 1 {
        if word_is(ts, pos, "and") {
            Some("and")
        } else {
            None
        }
    } else if level == 2 {
        match &ts[pos] {
            Token::Symbol(Sym::Equal) => Some("=="),
            Token::Symbol(Sym::Less) => Some("<"),
            Token::Symbol(Sym::Greater) => Some(">"),
            _ => None,
        }
    } else if level == 3 {
        match &ts[pos] {
            Token::Symbol(Sym::Plus) => Some("+"),
            Token::Symbol(Sym::Minus) => Some("-"),
            _ => None,
        }
    } else {
        match &ts[pos] {
            Token::Symbol(Sym::Star) => Some("*"),
            Token::Symbol(Sym::Slash) => Some("/"),
            _ => None,
        }
    }
}

/// Reads an expression.
pub fn read_expression(ts: &Vec<Token>, pos: usize) -> (r: Option<(Expr, usize)>)
    ensures
        read_expr(r, parse_expr(tokens_model(ts@), pos as int)),
        moved(r, pos, ts.len()),
    decreases ts.len() - pos, 12nat,
{
    read_binary(ts, pos, 0)
}

fn read_binary(ts: &Vec<Token>, pos: usize, level: u8) -> (r: Option<(Expr, usize)>)
    requires
        level <= LAST_LEVEL,
    ensures
        read_expr(r, parse_binary(tokens_model(ts@), pos as int, level as int)),
        moved(r, pos, ts.len()),
    decreases ts.len() - pos, (11 - 2 * level) as nat,
{
    let ghost m = tokens_model(ts@);
    let (first, after) = match read_operand(ts, pos, level) {
        Some(read) => read,
        None => {
            return None;
        },
    };
    let mut left = first;
    let mut p = after;
    loop
        invariant
            level <= LAST_LEVEL,
            m == tokens_model(ts@),
            pos < p <= ts.len(),
            parse_binary(m, pos as int, level as int) == parse_binary_rest(
                m,
                p as int,
                level as int,
                left@,
            ),
        decreases ts.len() - p,
    {
        let op = match operator_of(ts, p, level) {
            Some(op) => op,
            None => {
                return Some((left, p));
            },
        };
        let (right, q) = match read_operand(ts, p + 1, level) {
            Some(read) => read,
            None => {
                return None;
            },
        };
        left = Expr::Binary(Box::new(left), String::from_str(op), Box::new(right));
        p = q;
    }
}

fn read_operand(ts: &Vec<Token>, pos: usize, level: u8) -> (r: Option<(Expr, usize)>)
    requires
        level <= LAST_LEVEL,
    ensures
        read_expr(r, parse_operand(tokens_model(ts@), pos as int, level as int)),
        moved(r, pos, ts.len()),
    decreases ts.len() - pos, (10 - 2 * level) as nat,
{
    if level == LAST_LEVEL {
        read_primary(ts, pos)
    } else {
        read_binary(ts, pos, level + 1)
    }
}

fn read_primary(ts: &Vec<Token>, pos: usize) -> (r: Option<(Expr, usize)>)
    ensures
        read_expr(r, parse_primary(tokens_model(ts@), pos as int)),
        moved(r, pos, ts.len()),
    decreases ts.len() - pos, 0nat,
{
    if pos >= ts.len() {
        return None;
    }
    match &ts[pos] {
        Token::Number(v) => Some((Expr::Number(*v), pos + 1)),
        Token::Text(s) => Some((Expr::String(s.clone()), pos + 1)),
        Token::Symbol(s) => {
            if *s == Sym::LParen {
                let (e, p) = match read_expression(ts, pos + 1) {
                    Some(read) => read,
                    None => {
                        return None;
                    },
                };
                if sign_is(ts, p, Sym::RParen) {
                    Some((e, p + 1))
                } else {
                    None
                }
            } else if *s == Sym::LBracket {
                match read_list(ts, pos + 1, Sym::RBracket) {
                    Some((elems, p)) => Some((Expr::ArrayLiteral(elems), p)),
                    None => None,
                }
            } else {
                None
            }
        },
        Token::Word(w) => read_word(ts, pos, w),
    }
}

fn read_word(ts: &Vec<Token>, pos: usize, w: &String) -> (r: Option<(Expr, usize)>)
    requires
        pos < ts.len(),
    ensures
        read_expr(r, parse_word(tokens_model(ts@), pos as int, w@)),
        moved(r, pos, ts.len()),
    decreases ts.len() - pos - 1, 15nat,
{
    let word = w.as_str();
    if str_eq(word, "true") {
        Some((Expr::Boolean(true), pos + 1))
    } else if str_eq(word, "false") {
        Some((Expr::Boolean(false), pos + 1))
    } else if str_eq(word, "input") {
        if sign_is(ts, pos + 1, Sym::LParen) && sign_is(ts, pos + 2, Sym::RParen) {
            Some((Expr::Input, pos + 3))
        } else {
            None
        }
    } else if reserved(word) {
        None
    } else if sign_is(ts, pos + 1, Sym::LParen) {
        match read_list(ts, pos + 2, Sym::RParen) {
            Some((args, p)) => Some((Expr::Call(w.clone(), args), p)),
            None => None,
        }
    } else if sign_is(ts, pos + 1, Sym::LBracket) {
        let (index, p) = match read_expression(ts, pos + 2) {
            Some(read) => read,
            None => {
                return None;
            },
        };
        if sign_is(ts, p, Sym::RBracket) {
            Some((Expr::ArrayAccess(w.clone(), Box::new(index)), p + 1))
        } else {
            None
        }
    } else {
        Some((Expr::Identifier(w.clone()), pos + 1))
    }
}

fn read_list(ts: &Vec<Token>, pos: usize, close: Sym) -> (r: Option<(Vec<Expr>, usize)>)
    ensures
        read_exprs(r, parse_list(tokens_model(ts@), pos as int, close)),
        moved(r, pos, ts.len()),
    decreases ts.len() - pos, 14nat,
{
    let ghost m = tokens_model(ts@);
    let mut items: Vec<Expr> = Vec::new();
    if sign_is(ts, pos, close) {
        assert(exprs_model(items@) =~= Seq::<ExprModel>::empty());
        return Some((items, pos + 1));
    }
    let (first, after) = match read_expression(ts, pos) {
        Some(read) => read,
        None => {
            return None;
        },
    };
    items.push(first);
    assert(exprs_model(items@) =~= seq![first@]);
    let mut p = after;
    loop
        invariant
            m == tokens_model(ts@),
            pos < p <= ts.len(),
            parse_list(m, pos as int, close) == parse_items(
                m,
                p as int,
                close,
                exprs_model(items@),
            ),
        decreases ts.len() - p,
    {
        if sign_is(ts, p, close) {
            return Some((items, p + 1));
        }
        if !sign_is(ts, p, Sym::Comma) {
            return None;
        }
        let (next, q) = match read_expression(ts, p + 1) {
            Some(read) => read,
            None => {
                return None;
            },
        };
        let ghost before = exprs_model(items@);
        items.push(next);
        assert(exprs_model(items@) =~= before.push(next@));
        p = q;
    }
}

/// Whether `r` is what the grammar gives for a type.
pub open spec fn read_note(r: Option<(KType, String, usize)>, s: Option<(TypeNote, int)>) -> bool {
    match r {
        Some((ty, text, p)) => s == Some((TypeNote { ty: ty@, text: text@ }, p as int)),
        None => s is None,
    }
}

fn read_type(ts: &Vec<Token>, pos: usize) -> (r: Option<(KType, String, usize)>)
    ensures
        read_note(r, parse_type(tokens_model(ts@), pos as int)),
        r matches Some((_, _, p)) ==> pos < p <= ts.len(),
{
    let ghost m = tokens_model(ts@);
    let name = match name_of(ts, pos) {
        Some(name) => name,
        None => {
            return None;
        },
    };
    let mut ty = if str_eq(name.as_str(), "Int") {
        KType::Int
    } else if str_eq(name.as_str(), "String") {
        KType::String
    } else if str_eq(name.as_str(), "Bool") {
        KType::Bool
    } else {
        KType::Custom(name.clone())
    };
    let mut text = name;
    let mut p = pos + 1;
    while sign_is(ts, p, Sym::LBracket) && sign_is(ts, p + 1, Sym::RBracket)
        invariant
            m == tokens_model(ts@),
            pos < p <= ts.len(),
            parse_type(m, pos as int) == Some(
                parse_dims(m, p as int, TypeNote { ty: ty@, text: text@ }),
            ),
        decreases ts.len() - p,
    {
        ty = KType::Array(Box::new(ty));
        text.append("[]");
        p = p + 2;
    }
    Some((ty, text, p))
}

/// Whether `r` is what the grammar gives for a parameter.
pub open spec fn read_binding(
    r: Option<((String, KType), usize)>,
    s: Option<((Seq<char>, TypeModel), int)>,
) -> bool {
    match r {
        Some((param, p)) => s == Some(((param.0@, param.1@), p as int)),
        None => s is None,
    }
}

fn read_param(ts: &Vec<Token>, pos: usize) -> (r: Option<((String, KType), usize)>)
    ensures
        read_binding(r, parse_param(tokens_model(ts@), pos as int)),
        moved(r, pos, ts.len()),
{
    let name = match name_of(ts, pos) {
        Some(name) => name,
        None => {
            return None;
        },
    };
    if sign_is(ts, pos + 1, Sym::Colon) {
        match read_type(ts, pos + 2) {
            Some((ty, _, p)) => Some(((name, ty), p)),
            None => None,
        }
    } else {
        Some(((name, KType::Int), pos + 1))
    }
}

/// Whether `r` is what the grammar gives for a list of parameters.
pub open spec fn read_bindings(
    r: Option<(Vec<(String, KType)>, usize)>,
    s: Option<(Seq<(Seq<char>, TypeModel)>, int)>,
) -> bool {
    match r {
        Some((params, p)) => s == Some((params_model(params@), p as int)),
        None => s is None,
    }
}

fn read_params(ts: &Vec<Token>, pos: usize) -> (r: Option<(Vec<(String, KType)>, usize)>)
    ensures
        read_bindings(r, parse_params(tokens_model(ts@), pos as int)),
        moved(r, pos, ts.len()),
{
    let ghost m = tokens_model(ts@);
    let mut params: Vec<(String, KType)> = Vec::new();
    if sign_is(ts, pos, Sym::RParen) {
        assert(m.len() == ts.len());
        assert(params_model(params@) =~= Seq::<(Seq<char>, TypeModel)>::empty());
        return Some((params, pos + 1));
    }
    let (first, after) = match read_param(ts, pos) {
        Some(read) => read,
        None => {
            return None;
        },
    };
    let ghost first_model = (first.0@, first.1@);
    params.push(first);
    assert(params_model(params@) =~= seq![first_model]);
    let mut p = after;
    loop
        invariant
            m == tokens_model(ts@),
            pos < p <= ts.len(),
            parse_params(m, pos as int) == parse_more_params(
                m,
                p as int,
                params_model(params@),
            ),
        decreases ts.len() - p,
    {
        if sign_is(ts, p, Sym::RParen) {
            return Some((params, p + 1));
        }
        if !sign_is(ts, p, Sym::Comma) {
            return None;
        }
        let (next, q) = match read_param(ts, p + 1) {
            Some(read) => read,
            None => {
                return None;
            },
        };
        let ghost before = params_model(params@);
        let ghost next_model = (next.0@, next.1@);
        params.push(next);
        assert(params_model(params@) =~= before.push(next_model));
        p = q;
    }
}

/// Whether one of the statements returns a value.
fn has_valued_return(body: &Vec<Stmt>) -> (r: bool)
    ensures
        r == returns_value(stmts_model(body@)),
{
    let ghost models = stmts_model(body@);
    let mut i: usize = 0;
    while i < body.len()
        invariant
            i <= body.len(),
            models == stmts_model(body@),
            forall|k: int| 0 <= k < i ==> !is_valued_return(#[trigger] models[k]),
        decreases body.len() - i,
    {
        let valued = match &body[i] {
            Stmt::Return(Some(_)) => true,
            _ => false,
        };
        assert(valued == is_valued_return(models[i as int]));
        if valued {
            return true;
        }
        i += 1;
    }
    false
}

/// Reads statements up to the end of a block.
fn read_block(ts: &Vec<Token>, pos: usize) -> (r: Option<(Vec<Stmt>, usize)>)
    requires
        pos <= ts.len(),
    ensures
        read_stmts(r, parse_block(tokens_model(ts@), pos as int, Seq::empty())),
        r matches Some((_, p)) ==> pos <= p <= ts.len(),
    decreases ts.len() - pos, 17nat,
{
    let ghost m = tokens_model(ts@);
    let mut body: Vec<Stmt> = Vec::new();
    let mut p = pos;
    assert(stmts_model(body@) =~= Seq::<StmtModel>::empty());
    loop
        invariant
            m == tokens_model(ts@),
            pos <= p <= ts.len(),
            parse_block(m, pos as int, Seq::empty()) == parse_block(
                m,
                p as int,
                stmts_model(body@),
            ),
        decreases ts.len() - p,
    {
        if ends_block(ts, p) {
            return Some((body, p));
        }
        let (s, q) = match read_statement(ts, p) {
            Some(read) => read,
            None => {
                return None;
            },
        };
        let ghost before = stmts_model(body@);
        body.push(s);
        assert(stmts_model(body@) =~= before.push(s@));
        p = q;
    }
}

/// Reads a statement.
pub fn read_statement(ts: &Vec<Token>, pos: usize) -> (r: Option<(Stmt, usize)>)
    ensures
        read_stmt(r, parse_stmt(tokens_model(ts@), pos as int)),
        moved(r, pos, ts.len()),
    decreases ts.len() - pos, 16nat,
{
    if pos >= ts.len() {
        return None;
    }
    match &ts[pos] {
        Token::Word(w) => {
            let word = w.as_str();
            if str_eq(word, "let") || str_eq(word, "local") {
                read_let(ts, pos + 1)
            } else if str_eq(word, "print") {
                match read_expression(ts, pos + 1) {
                    Some((e, p)) => Some((Stmt::Print(e), p)),
                    None => None,
                }
            } else if str_eq(word, "if") {
                read_if(ts, pos + 1)
            } else if str_eq(word, "while") {
                read_while(ts, pos + 1)
            } else if str_eq(word, "function") {
                read_function(ts, pos + 1)
            } else if str_eq(word, "return") {
                if ends_block(ts, pos + 1) {
                    Some((Stmt::Return(None), pos + 1))
                } else {
                    match read_expression(ts, pos + 1) {
                        Some((e, p)) => Some((Stmt::Return(Some(e)), p)),
                        None => None,
                    }
                }
            } else if reserved(word) {
                None
            } else if sign_is(ts, pos + 1, Sym::LParen) {
                match read_list(ts, pos + 2, Sym::RParen) {
                    Some((args, p)) => Some((Stmt::Call(w.clone(), args), p)),
                    None => None,
                }
            } else if sign_is(ts, pos + 1, Sym::LBracket) {
                read_index_assign(ts, pos + 2, w)
            } else {
                None
            }
        },
        _ => None,
    }
}

fn read_let(ts: &Vec<Token>, pos: usize) -> (r: Option<(Stmt, usize)>)
    ensures
        read_stmt(r, parse_let(tokens_model(ts@), pos as int)),
        moved(r, pos, ts.len()),
    decreases ts.len() - pos, 15nat,
{
    let name = match name_of(ts, pos) {
        Some(name) => name,
        None => {
            return None;
        },
    };
    if sign_is(ts, pos + 1, Sym::Colon) {
        let (_, text, p) = match read_type(ts, pos + 2) {
            Some(read) => read,
            None => {
                return None;
            },
        };
        if !sign_is(ts, p, Sym::Assign) {
            return None;
        }
        match read_expression(ts, p + 1) {
            Some((e, q)) => Some((Stmt::Let(name, e, Some(text)), q)),
            None => None,
        }
    } else if sign_is(ts, pos + 1, Sym::Assign) {
        match read_expression(ts, pos + 2) {
            Some((e, q)) => Some((Stmt::Let(name, e, None), q)),
            None => None,
        }
    } else {
        None
    }
}

fn read_index_assign(ts: &Vec<Token>, pos: usize, name: &String) -> (r: Option<(Stmt, usize)>)
    ensures
        read_stmt(r, parse_index_assign(tokens_model(ts@), pos as int, name@)),
        moved(r, pos, ts.len()),
    decreases ts.len() - pos, 15nat,
{
    let (index, p) = match read_expression(ts, pos) {
        Some(read) => read,
        None => {
            return None;
        },
    };
    if !(sign_is(ts, p, Sym::RBracket) && sign_is(ts, p + 1, Sym::Assign)) {
        return None;
    }
    match read_expression(ts, p + 2) {
        Some((value, q)) => Some((Stmt::IndexAssign(name.clone(), index, value), q)),
        None => None,
    }
}

fn read_if(ts: &Vec<Token>, pos: usize) -> (r: Option<(Stmt, usize)>)
    ensures
        read_stmt(r, parse_if(tokens_model(ts@), pos as int)),
        moved(r, pos, ts.len()),
    decreases ts.len() - pos, 15nat,
{
    let (cond, p) = match read_expression(ts, pos) {
        Some(read) => read,
        None => {
            return None;
        },
    };
    if !word_is(ts, p, "then") {
        return None;
    }
    let (then_body, q) = match read_block(ts, p + 1) {
        Some(read) => read,
        None => {
            return None;
        },
    };
    if word_is(ts, q, "else") {
        let (else_body, r) = match read_block(ts, q + 1) {
            Some(read) => read,
            None => {
                return None;
            },
        };
        if word_is(ts, r, "end") {
            Some((Stmt::If(cond, then_body, Some(else_body)), r + 1))
        } else {
            None
        }
    } else if word_is(ts, q, "end") {
        Some((Stmt::If(cond, then_body, None), q + 1))
    } else {
        None
    }
}

fn read_while(ts: &Vec<Token>, pos: usize) -> (r: Option<(Stmt, usize)>)
    ensures
        read_stmt(r, parse_while(tokens_model(ts@), pos as int)),
        moved(r, pos, ts.len()),
    decreases ts.len() - pos, 15nat,
{
    let (cond, p) = match read_expression(ts, pos) {
        Some(read) => read,
        None => {
            return None;
        },
    };
    if !word_is(ts, p, "do") {
        return None;
    }
    let (body, q) = match read_block(ts, p + 1) {
        Some(read) => read,
        None => {
            return None;
        },
    };
    if word_is(ts, q, "end") {
        Some((Stmt::While(cond, body), q + 1))
    } else {
        None
    }
}

/// The head of a function definition as it was read.
pub struct Head {
    pub name: String,
    pub params: Vec<(String, KType)>,
    pub declared: Option<KType>,
}

impl View for Head {
    type V = FunctionHead;

    open spec fn view(&self) -> FunctionHead {
        FunctionHead {
            name: self.name@,
            params: params_model(self.params@),
            declared: match self.declared {
                Some(t) => Some(t@),
                None => None,
            },
        }
    }
}

fn read_head(ts: &Vec<Token>, pos: usize) -> (r: Option<(Head, usize)>)
    ensures
        match r {
            Some((head, p)) => parse_head(tokens_model(ts@), pos as int) == Some((head@, p as int)),
            None => parse_head(tokens_model(ts@), pos as int) is None,
        },
        moved(r, pos, ts.len()),
{
    let name = match name_of(ts, pos) {
        Some(name) => name,
        None => {
            return None;
        },
    };
    if !sign_is(ts, pos + 1, Sym::LParen) {
        return None;
    }
    let (params, p) = match read_params(ts, pos + 2) {
        Some(read) => read,
        None => {
            return None;
        },
    };
    if sign_is(ts, p, Sym::Colon) {
        match read_type(ts, p + 1) {
            Some((ty, _, q)) => Some((Head { name, params, declared: Some(ty) }, q)),
            None => None,
        }
    } else {
        Some((Head { name, params, declared: None }, p))
    }
}

/// The function with the given head and body.
fn make_function(head: Head, body: Vec<Stmt>) -> (s: Stmt)
    ensures
        s@ == function_of(head@, stmts_model(body@)),
{
    let ret = match head.declared {
        Some(t) => t,
        None => if has_valued_return(&body) {
            KType::Int
        } else {
            KType::Void
        },
    };
    Stmt::Function(head.name, head.params, body, ret)
}

fn read_function(ts: &Vec<Token>, pos: usize) -> (r: Option<(Stmt, usize)>)
    ensures
        read_stmt(r, parse_function(tokens_model(ts@), pos as int)),
        moved(r, pos, ts.len()),
    decreases ts.len() - pos, 15nat,
{
    let (head, p) = match read_head(ts, pos) {
        Some(read) => read,
        None => {
            return None;
        },
    };
    if sign_is(ts, p, Sym::LBrace) {
        let (body, q) = match read_block(ts, p + 1) {
            Some(read) => read,
            None => {
                return None;
            },
        };
        if sign_is(ts, q, Sym::RBrace) {
            Some((make_function(head, body), q + 1))
        } else {
            None
        }
    } else {
        let (body, q) = match read_block(ts, p) {
            Some(read) => read,
            None => {
                return None;
            },
        };
        if word_is(ts, q, "end") {
            Some((make_function(head, body), q + 1))
        } else {
            None
        }
    }
}

/// The parser of Kujav programs.
pub struct KujavParser;

impl KujavParser {
    /// The program that the tokens make up.
    pub fn parse(ts: &Vec<Token>) -> (r: Option<Vec<Stmt>>)
        ensures
            match r {
                Some(program) => parse_program(tokens_model(ts@)) == Some(stmts_model(program@)),
                None => parse_program(tokens_model(ts@)) is None,
            },
    {
        match read_block(ts, 0) {
            Some((program, p)) => if p == ts.len() {
                Some(program)
            } else {
                None
            },
            None => None,
        }
    }
}

/// The syntax tree of a source text.
pub fn parse_to_ast(input: &str) -> (r: Result<Vec<Stmt>, KujavError>)
    ensures
        match r {
            Ok(program) => parse_source(input@) == Ok::<Seq<StmtModel>, ErrorModel>(
                stmts_model(program@),
            ),
            Err(e) => parse_source(input@) == Err::<Seq<StmtModel>, ErrorModel>(e@),
        },
{
    let tokens = tokenize(input)?;
    match KujavParser::parse(&tokens) {
        Some(program) => Ok(program),
        None => Err(KujavError::syntax("invalid syntax")),
    }
}

} // verus!
