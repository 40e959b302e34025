//! The grammar of Kujav, stated as functions from tokens to syntax trees.
//!
//! Each function takes the tokens and a position, and gives back what it
//! read together with the position behind it, or nothing where the tokens
//! do not fit.
use vstd::prelude::*;
use crate::ast::{ExprModel, StmtModel};
use crate::lexer::{Sym, TokenModel};
use crate::types::TypeModel;

verus! {

/// Whether the token at `pos` is the word `w`.
pub open spec fn word_at(ts: Seq<TokenModel>, pos: int, w: Seq<char>) -> bool {
    0 <= pos < ts.len() && ts[pos] == TokenModel::Word(w)
}

/// Whether the token at `pos` is the sign `s`.
pub open spec fn sign_at(ts: Seq<TokenModel>, pos: int, s: Sym) -> bool {
    0 <= pos < ts.len() && ts[pos] == TokenModel::Symbol(s)
}

/// Whether a word has a meaning of its own and cannot be a name.
pub open spec fn is_reserved(w: Seq<char>) -> bool {
    w == "let"@ || w == "local"@ || w == "print"@ || w == "if"@ || w == "then"@ || w == "else"@
        || w == "end"@ || w == "while"@ || w == "do"@ || w == "function"@ || w == "return"@ || w
        == "true"@ || w == "false"@ || w == "and"@ || w == "or"@ || w == "input"@
}

/// The name at `pos`: a word that is not reserved.
pub open spec fn name_at(ts: Seq<TokenModel>, pos: int) -> Option<Seq<char>> {
    if 0 <= pos < ts.len() {
        match ts[pos] {
            TokenModel::Word(w) => if is_reserved(w) {
                None
            } else {
                Some(w)
            },
            _ => None,
        }
    } else {
        None
    }
}

/// Whether a token ends a block: `end`, `else` or a closing brace.
pub open spec fn is_block_end(t: TokenModel) -> bool {
    t == TokenModel::Word("end"@) || t == TokenModel::Word("else"@) || t == TokenModel::Symbol(
        Sym::RBrace,
    )
}

/// Whether a block ends at `pos`: with one of the tokens that end a block,
/// or with the tokens themselves.
pub open spec fn block_ends(ts: Seq<TokenModel>, pos: int) -> bool {
    !(0 <= pos < ts.len()) || is_block_end(ts[pos])
}

/// The operator at `pos`, if it is one of the given level. Level 0 holds
/// `or`, level 1 `and`, level 2 the comparisons, level 3 sum and
/// difference, level 4 product and quotient; a higher level binds tighter.
pub open spec fn operator_at(ts: Seq<TokenModel>, pos: int, level: int) -> Option<Seq<char>> {
    if !(0 <= pos < ts.len()) {
        None
    } else if level == 0 {
        if ts[pos] == TokenModel::Word("or"@) {
            Some("or"@)
        } else {
            None
        }
    } else if level == 1 {
        if ts[pos] == TokenModel::Word("and"@) {
            Some("and"@)
        } else {
            None
        }
    } else if level == 2 {
        match ts[pos] {
            TokenModel::Symbol(Sym::Equal) => Some("=="@),
            TokenModel::Symbol(Sym::Less) => Some("<"@),
            TokenModel::Symbol(Sym::Greater) => Some(">"@),
            _ => None,
        }
    } else if level == 3 {
        match ts[pos] {
            TokenModel::Symbol(Sym::Plus) => Some("+"@),
            TokenModel::Symbol(Sym::Minus) => Some("-"@),
            _ => None,
        }
    } else {
        match ts[pos] {
            TokenModel::Symbol(Sym::Star) => Some("*"@),
            TokenModel::Symbol(Sym::Slash) => Some("/"@),
            _ => None,
        }
    }
}

/// The level of the operators that bind tightest.
pub const LAST_LEVEL: u8 = 4;

/// An expression.
pub open spec fn parse_expr(ts: Seq<TokenModel>, pos: int) -> Option<(ExprModel, int)>
    decreases ts.len() - pos, 12nat,
{
    parse_binary(ts, pos, 0)
}

/// Operands of the given level with operators of that level between them,
/// grouped from the left.
pub open spec fn parse_binary(ts: Seq<TokenModel>, pos: int, level: int) -> Option<
    (ExprModel, int),
>
    decreases ts.len() - pos, (11 - 2 * level) as nat,
{
    if !(0 <= level <= LAST_LEVEL) {
        None
    } else {
        match parse_operand(ts, pos, level) {
            Some((left, p)) => if pos < p <= ts.len() {
                parse_binary_rest(ts, p, level, left)
            } else {
                None
            },
            None => None,
        }
    }
}

/// An operand of the given level: an expression of the next level, or a
/// primary expression at the last one.
pub open spec fn parse_operand(ts: Seq<TokenModel>, pos: int, level: int) -> Option<
    (ExprModel, int),
>
    decreases ts.len() - pos, (10 - 2 * level) as nat,
{
    if !(0 <= level <= LAST_LEVEL) {
        None
    } else if level == LAST_LEVEL {
        parse_primary(ts, pos)
    } else {
        parse_binary(ts, pos, level + 1)
    }
}

/// What follows the operands read so far, which make up `left`.
pub open spec fn parse_binary_rest(
    ts: Seq<TokenModel>,
    pos: int,
    level: int,
    left: ExprModel,
) -> Option<(ExprModel, int)>
    decreases ts.len() - pos, (11 - 2 * level) as nat,
{
    if !(0 <= level <= LAST_LEVEL) {
        None
    } else {
        match operator_at(ts, pos, level) {
            None => Some((left, pos)),
            Some(op) => match parse_operand(ts, pos + 1, level) {
                Some((right, p)) => if pos + 1 < p <= ts.len() {
                    parse_binary_rest(
                        ts,
                        p,
                        level,
                        ExprModel::Binary(Box::new(left), op, Box::new(right)),
                    )
                } else {
                    None
                },
                None => None,
            },
        }
    }
}

/// A literal, a name, a call, an input read, an element of an array, an
/// array literal or an expression in parentheses.
pub open spec fn parse_primary(ts: Seq<TokenModel>, pos: int) -> Option<(ExprModel, int)>
    decreases ts.len() - pos, 0nat,
{
    if !(0 <= pos < ts.len()) {
        None
    } else {
        match ts[pos] {
            TokenModel::Number(v) => Some((ExprModel::Number(v), pos + 1)),
            TokenModel::Text(s) => Some((ExprModel::Text(s), pos + 1)),
            TokenModel::Symbol(s) => if s == Sym::LParen {
                match parse_expr(ts, pos + 1) {
                    Some((e, p)) => if sign_at(ts, p, Sym::RParen) {
                        Some((e, p + 1))
                    } else {
                        None
                    },
                    None => None,
                }
            } else if s == Sym::LBracket {
                match parse_list(ts, pos + 1, Sym::RBracket) {
                    Some((elems, p)) => Some((ExprModel::ArrayLiteral(elems), p)),
                    None => None,
                }
            } else {
                None
            },
            TokenModel::Word(w) => parse_word(ts, pos, w),
        }
    }
}

/// A primary expression that starts with the word `w` at `pos`.
pub open spec fn parse_word(ts: Seq<TokenModel>, pos: int, w: Seq<char>) -> Option<
    (ExprModel, int),
>
    decreases ts.len() - pos - 1, 15nat,
{
    if !(0 <= pos < ts.len()) {
        None
    } else if w == "true"@ {
        Some((ExprModel::Boolean(true), pos + 1))
    } else if w == "false"@ {
        Some((ExprModel::Boolean(false), pos + 1))
    } else if w == "input"@ {
        if sign_at(ts, pos + 1, Sym::LParen) && sign_at(ts, pos + 2, Sym::RParen) {
            Some((ExprModel::Input, pos + 3))
        } else {
            None
        }
    } else if is_reserved(w) {
        None
    } else if sign_at(ts, pos + 1, Sym::LParen) {
        match parse_list(ts, pos + 2, Sym::RParen) {
            Some((args, p)) => Some((ExprModel::Call(w, args), p)),
            None => None,
        }
    } else if sign_at(ts, pos + 1, Sym::LBracket) {
        match parse_expr(ts, pos + 2) {
            Some((index, p)) => if sign_at(ts, p, Sym::RBracket) {
                Some((ExprModel::ArrayAccess(w, Box::new(index)), p + 1))
            } else {
                None
            },
            None => None,
        }
    } else {
        Some((ExprModel::Identifier(w), pos + 1))
    }
}

/// Expressions with commas between them, up to and including the sign
/// `close`.
pub open spec fn parse_list(ts: Seq<TokenModel>, pos: int, close: Sym) -> Option<
    (Seq<ExprModel>, int),
>
    decreases ts.len() - pos, 14nat,
{
    if sign_at(ts, pos, close) {
        Some((Seq::empty(), pos + 1))
    } else {
        match parse_expr(ts, pos) {
            Some((first, p)) => if pos < p <= ts.len() {
                parse_items(ts, p, close, seq![first])
            } else {
                None
            },
            None => None,
        }
    }
}

/// What follows the expressions of a list read so far, which are `acc`.
pub open spec fn parse_items(
    ts: Seq<TokenModel>,
    pos: int,
    close: Sym,
    acc: Seq<ExprModel>,
) -> Option<(Seq<ExprModel>, int)>
    decreases ts.len() - pos, 13nat,
{
    if sign_at(ts, pos, close) {
        Some((acc, pos + 1))
    } else if sign_at(ts, pos, Sym::Comma) {
        match parse_expr(ts, pos + 1) {
            Some((next, p)) => if pos + 1 < p <= ts.len() {
                parse_items(ts, p, close, acc.push(next))
            } else {
                None
            },
            None => None,
        }
    } else {
        None
    }
}

/// The type that a type name stands for.
pub open spec fn base_type(name: Seq<char>) -> TypeModel {
    if name == "Int"@ {
        TypeModel::Int
    } else if name == "String"@ {
        TypeModel::Text
    } else if name == "Bool"@ {
        TypeModel::Bool
    } else {
        TypeModel::Custom(name)
    }
}

/// A type as it was read: the type itself, and the way it was written.
pub struct TypeNote {
    pub ty: TypeModel,
    pub text: Seq<char>,
}

/// The pairs of brackets behind a type name: each makes an array of what
/// is in front of it.
pub open spec fn parse_dims(ts: Seq<TokenModel>, pos: int, note: TypeNote) -> (TypeNote, int)
    decreases ts.len() - pos,
{
    if sign_at(ts, pos, Sym::LBracket) && sign_at(ts, pos + 1, Sym::RBracket) {
        parse_dims(
            ts,
            pos + 2,
            TypeNote { ty: TypeModel::Array(Box::new(note.ty)), text: note.text + "[]"@ },
        )
    } else {
        (note, pos)
    }
}

/// A type: a name, and behind it any number of pairs of brackets.
pub open spec fn parse_type(ts: Seq<TokenModel>, pos: int) -> Option<(TypeNote, int)> {
    match name_at(ts, pos) {
        Some(name) => Some(parse_dims(ts, pos + 1, TypeNote { ty: base_type(name), text: name })),
        None => None,
    }
}

/// A parameter: a name, and behind it a colon and a type, or no type, in
/// which case it is an `Int`.
pub open spec fn parse_param(ts: Seq<TokenModel>, pos: int) -> Option<
    ((Seq<char>, TypeModel), int),
> {
    match name_at(ts, pos) {
        None => None,
        Some(name) => if sign_at(ts, pos + 1, Sym::Colon) {
            match parse_type(ts, pos + 2) {
                Some((note, p)) => Some(((name, note.ty), p)),
                None => None,
            }
        } else {
            Some(((name, TypeModel::Int), pos + 1))
        },
    }
}

/// What follows the parameters read so far, which are `acc`, up to and
/// including the closing parenthesis.
pub open spec fn parse_more_params(
    ts: Seq<TokenModel>,
    pos: int,
    acc: Seq<(Seq<char>, TypeModel)>,
) -> Option<(Seq<(Seq<char>, TypeModel)>, int)>
    decreases ts.len() - pos,
{
    if sign_at(ts, pos, Sym::RParen) {
        Some((acc, pos + 1))
    } else if sign_at(ts, pos, Sym::Comma) {
        match parse_param(ts, pos + 1) {
            Some((param, p)) => if pos + 1 < p <= ts.len() {
                parse_more_params(ts, p, acc.push(param))
            } else {
                None
            },
            None => None,
        }
    } else {
        None
    }
}

/// Parameters with commas between them, up to and including the closing
/// parenthesis.
pub open spec fn parse_params(ts: Seq<TokenModel>, pos: int) -> Option<
    (Seq<(Seq<char>, TypeModel)>, int),
> {
    if sign_at(ts, pos, Sym::RParen) {
        Some((Seq::empty(), pos + 1))
    } else {
        match parse_param(ts, pos) {
            Some((first, p)) => parse_more_params(ts, p, seq![first]),
            None => None,
        }
    }
}

/// Whether one of the statements returns a value.
pub open spec fn returns_value(body: Seq<StmtModel>) -> bool {
    exists|i: int| 0 <= i < body.len() && #[trigger] is_valued_return(body[i])
}

/// Whether a statement is a return with a value.
pub open spec fn is_valued_return(s: StmtModel) -> bool {
    s matches StmtModel::Return(Some(_))
}

/// The return type of a function: the declared one, or, where none is
/// declared, `Int` if the body returns a value and `Void` if not.
pub open spec fn return_type(declared: Option<TypeModel>, body: Seq<StmtModel>) -> TypeModel {
    match declared {
        Some(t) => t,
        None => if returns_value(body) {
            TypeModel::Int
        } else {
            TypeModel::Void
        },
    }
}

/// Statements up to a token that ends a block, or up to the end of the
/// tokens; `acc` holds those read so far.
pub open spec fn parse_block(ts: Seq<TokenModel>, pos: int, acc: Seq<StmtModel>) -> Option<
    (Seq<StmtModel>, int),
>
    decreases ts.len() - pos, 17nat,
{
    if block_ends(ts, pos) {
        Some((acc, pos))
    } else {
        match parse_stmt(ts, pos) {
            Some((s, p)) => if pos < p <= ts.len() {
                parse_block(ts, p, acc.push(s))
            } else {
                None
            },
            None => None,
        }
    }
}

/// A statement.
pub open spec fn parse_stmt(ts: Seq<TokenModel>, pos: int) -> Option<(StmtModel, int)>
    decreases ts.len() - pos, 16nat,
{
    if !(0 <= pos < ts.len()) {
        None
    } else {
        match ts[pos] {
            TokenModel::Word(w) => if w == "let"@ || w == "local"@ {
                parse_let(ts, pos + 1)
            } else if w == "print"@ {
                match parse_expr(ts, pos + 1) {
                    Some((e, p)) => Some((StmtModel::Print(e), p)),
                    None => None,
                }
            } else if w == "if"@ {
                parse_if(ts, pos + 1)
            } else if w == "while"@ {
                parse_while(ts, pos + 1)
            } else if w == "function"@ {
                parse_function(ts, pos + 1)
            } else if w == "return"@ {
                if block_ends(ts, pos + 1) {
                    Some((StmtModel::Return(None), pos + 1))
                } else {
                    match parse_expr(ts, pos + 1) {
                        Some((e, p)) => Some((StmtModel::Return(Some(e)), p)),
                        None => None,
                    }
                }
            } else if is_reserved(w) {
                None
            } else if sign_at(ts, pos + 1, Sym::LParen) {
                match parse_list(ts, pos + 2, Sym::RParen) {
                    Some((args, p)) => Some((StmtModel::Call(w, args), p)),
                    None => None,
                }
            } else if sign_at(ts, pos + 1, Sym::LBracket) {
                parse_index_assign(ts, pos + 2, w)
            } else {
                None
            },
            _ => None,
        }
    }
}

/// What follows `let`: a name, a colon and a type if the type is declared,
/// an equals sign and the value.
pub open spec fn parse_let(ts: Seq<TokenModel>, pos: int) -> Option<(StmtModel, int)>
    decreases ts.len() - pos, 15nat,
{
    match name_at(ts, pos) {
        None => None,
        Some(name) => if sign_at(ts, pos + 1, Sym::Colon) {
            match parse_type(ts, pos + 2) {
                Some((note, p)) => if sign_at(ts, p, Sym::Assign) && pos < p {
                    match parse_expr(ts, p + 1) {
                        Some((e, q)) => Some((StmtModel::Let(name, e, Some(note.text)), q)),
                        None => None,
                    }
                } else {
                    None
                },
                None => None,
            }
        } else if sign_at(ts, pos + 1, Sym::Assign) {
            match parse_expr(ts, pos + 2) {
                Some((e, q)) => Some((StmtModel::Let(name, e, None), q)),
                None => None,
            }
        } else {
            None
        },
    }
}

/// What follows the opening bracket of an assignment to an element of the
/// array `name`: the index, the closing bracket, an equals sign and the
/// value.
pub open spec fn parse_index_assign(ts: Seq<TokenModel>, pos: int, name: Seq<char>) -> Option<
    (StmtModel, int),
>
    decreases ts.len() - pos, 15nat,
{
    match parse_expr(ts, pos) {
        Some((index, p)) => if pos < p && sign_at(ts, p, Sym::RBracket) && sign_at(
            ts,
            p + 1,
            Sym::Assign,
        ) {
            match parse_expr(ts, p + 2) {
                Some((value, q)) => Some((StmtModel::IndexAssign(name, index, value), q)),
                None => None,
            }
        } else {
            None
        },
        None => None,
    }
}

/// What follows `if`: the condition, `then`, the statements to run if it
/// holds, `else` and the statements to run if it does not, if there are
/// any, and `end`.
pub open spec fn parse_if(ts: Seq<TokenModel>, pos: int) -> Option<(StmtModel, int)>
    decreases ts.len() - pos, 15nat,
{
    match parse_expr(ts, pos) {
        Some((cond, p)) => if pos < p && word_at(ts, p, "then"@) {
            match parse_block(ts, p + 1, Seq::empty()) {
                Some((then_body, q)) => if p < q && word_at(ts, q, "else"@) {
                    match parse_block(ts, q + 1, Seq::empty()) {
                        Some((else_body, r)) => if word_at(ts, r, "end"@) {
                            Some((StmtModel::If(cond, then_body, Some(else_body)), r + 1))
                        } else {
                            None
                        },
                        None => None,
                    }
                } else if word_at(ts, q, "end"@) {
                    Some((StmtModel::If(cond, then_body, None), q + 1))
                } else {
                    None
                },
                None => None,
            }
        } else {
            None
        },
        None => None,
    }
}

/// What follows `while`: the condition, `do`, the statements to repeat,
/// and `end`.
pub open spec fn parse_while(ts: Seq<TokenModel>, pos: int) -> Option<(StmtModel, int)>
    decreases ts.len() - pos, 15nat,
{
    match parse_expr(ts, pos) {
        Some((cond, p)) => if pos < p && word_at(ts, p, "do"@) {
            match parse_block(ts, p + 1, Seq::empty()) {
                Some((body, q)) => if word_at(ts, q, "end"@) {
                    Some((StmtModel::While(cond, body), q + 1))
                } else {
                    None
                },
                None => None,
            }
        } else {
            None
        },
        None => None,
    }
}

/// The head of a function definition: its name, its parameters and the
/// return type it declares, if it declares one.
pub struct FunctionHead {
    pub name: Seq<char>,
    pub params: Seq<(Seq<char>, TypeModel)>,
    pub declared: Option<TypeModel>,
}

/// What follows `function` up to the body: the name, the parameters in
/// parentheses, and a colon and the return type if one is declared.
pub open spec fn parse_head(ts: Seq<TokenModel>, pos: int) -> Option<(FunctionHead, int)> {
    match name_at(ts, pos) {
        None => None,
        Some(name) => if sign_at(ts, pos + 1, Sym::LParen) {
            match parse_params(ts, pos + 2) {
                None => None,
                Some((params, p)) => if sign_at(ts, p, Sym::Colon) {
                    match parse_type(ts, p + 1) {
                        Some((note, q)) => Some(
                            (FunctionHead { name, params, declared: Some(note.ty) }, q),
                        ),
                        None => None,
                    }
                } else {
                    Some((FunctionHead { name, params, declared: None }, p))
                },
            }
        } else {
            None
        },
    }
}

/// What follows `function`: the head, and the body either between braces
/// or up to `end`.
pub open spec fn parse_function(ts: Seq<TokenModel>, pos: int) -> Option<(StmtModel, int)>
    decreases ts.len() - pos, 15nat,
{
    match parse_head(ts, pos) {
        None => None,
        Some((head, p)) => if !(pos < p <= ts.len()) {
            None
        } else if sign_at(ts, p, Sym::LBrace) {
            match parse_block(ts, p + 1, Seq::empty()) {
                Some((body, q)) => if sign_at(ts, q, Sym::RBrace) {
                    Some((function_of(head, body), q + 1))
                } else {
                    None
                },
                None => None,
            }
        } else {
            match parse_block(ts, p, Seq::empty()) {
                Some((body, q)) => if word_at(ts, q, "end"@) {
                    Some((function_of(head, body), q + 1))
                } else {
                    None
                },
                None => None,
            }
        },
    }
}

/// The function with the given head and body.
pub open spec fn function_of(head: FunctionHead, body: Seq<StmtModel>) -> StmtModel {
    StmtModel::Function(head.name, head.params, body, return_type(head.declared, body))
}

/// A program: statements up to the end of the tokens.
pub open spec fn parse_program(ts: Seq<TokenModel>) -> Option<Seq<StmtModel>> {
    match parse_block(ts, 0, Seq::empty()) {
        Some((program, p)) => if p == ts.len() {
            Some(program)
        } else {
            None
        },
        None => None,
    }
}

} // verus!
