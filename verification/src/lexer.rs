//! The tokens of Kujav source text.
use vstd::prelude::*;
use crate::errors::{ErrorKind, ErrorModel, KujavError};
use crate::text::{chars_of, string_of};

verus! {

/// A punctuation mark or an operator sign.
#[derive(Clone, Copy, Debug, PartialEq, Eq, Structural)]
pub enum Sym {
    LParen,
    RParen,
    LBracket,
    RBracket,
    LBrace,
    RBrace,
    Comma,
    Colon,
    Assign,
    Equal,
    Less,
    Greater,
    Plus,
    Minus,
    Star,
    Slash,
}

/// A token. Keywords are words like any other; the parser tells them
/// apart.
#[derive(Debug)]
pub enum Token {
    Word(String),
    Number(i32),
    Text(String),
    Symbol(Sym),
}

/// A token as a mathematical value.
pub enum TokenModel {
    Word(Seq<char>),
    Number(int),
    Text(Seq<char>),
    Symbol(Sym),
}

impl View for Token {
    type V = TokenModel;

    open spec fn view(&self) -> TokenModel {
        match self {
            Token::Word(w) => TokenModel::Word(w@),
            Token::Number(n) => TokenModel::Number(*n as int),
            Token::Text(t) => TokenModel::Text(t@),
            Token::Symbol(s) => TokenModel::Symbol(*s),
        }
    }
}

/// The mathematical values of a list of tokens.
pub open spec fn tokens_model(ts: Seq<Token>) -> Seq<TokenModel> {
    Seq::new(ts.len(), |i: int| ts[i]@)
}

/// A syntax error with the given message.
pub open spec fn syntax_error(message: Seq<char>) -> ErrorModel {
    ErrorModel { kind: ErrorKind::Syntax, message }
}

/// White space separates tokens and means nothing else.
pub open spec fn is_space(c: char) -> bool {
    c == ' ' || c == '\t' || c == '\n' || c == '\r'
}

/// A decimal digit.
pub open spec fn is_digit(c: char) -> bool {
    '0' <= c <= '9'
}

/// A word starts with a letter or an underscore.
pub open spec fn is_word_start(c: char) -> bool {
    ('a' <= c <= 'z') || ('A' <= c <= 'Z') || c == '_'
}

/// A word goes on with letters, underscores, digits and dots.
pub open spec fn is_word_part(c: char) -> bool {
    is_word_start(c) || is_digit(c) || c == '.'
}

/// The sign that a single character stands for.
pub open spec fn sign_of(c: char) -> Option<Sym> {
    if c == '(' {
        Some(Sym::LParen)
    } else if c == ')' {
        Some(Sym::RParen)
    } else if c == '[' {
        Some(Sym::LBracket)
    } else if c == ']' {
        Some(Sym::RBracket)
    } else if c == '{' {
        Some(Sym::LBrace)
    } else if c == '}' {
        Some(Sym::RBrace)
    } else if c == ',' {
        Some(Sym::Comma)
    } else if c == ':' {
        Some(Sym::Colon)
    } else if c == '=' {
        Some(Sym::Assign)
    } else if c == '<' {
        Some(Sym::Less)
    } else if c == '>' {
        Some(Sym::Greater)
    } else if c == '+' {
        Some(Sym::Plus)
    } else if c == '-' {
        Some(Sym::Minus)
    } else if c == '*' {
        Some(Sym::Star)
    } else if c == '/' {
        Some(Sym::Slash)
    } else {
        None
    }
}

/// Where the word that runs through `pos` ends.
pub open spec fn word_end(src: Seq<char>, pos: int) -> int
    decreases src.len() - pos,
{
    if 0 <= pos < src.len() && is_word_part(src[pos]) {
        word_end(src, pos + 1)
    } else {
        pos
    }
}

/// Where the digits that run through `pos` end.
pub open spec fn digits_end(src: Seq<char>, pos: int) -> int
    decreases src.len() - pos,
{
    if 0 <= pos < src.len() && is_digit(src[pos]) {
        digits_end(src, pos + 1)
    } else {
        pos
    }
}

/// The first double quote at or behind `pos`, or the end of the text.
pub open spec fn quote_from(src: Seq<char>, pos: int) -> int
    decreases src.len() - pos,
{
    if 0 <= pos < src.len() && src[pos] != '"' {
        quote_from(src, pos + 1)
    } else {
        pos
    }
}

/// The number that decimal digits stand for.
pub open spec fn decimal(digits: Seq<char>) -> int
    decreases digits.len(),
{
    if digits.len() == 0 {
        0
    } else {
        decimal(digits.drop_last()) * 10 + (digits.last() as int - '0' as int)
    }
}

/// A word ends at or behind where it is looked for, and within the text.
pub proof fn lemma_word_end(src: Seq<char>, pos: int)
    requires
        0 <= pos <= src.len(),
    ensures
        pos <= word_end(src, pos) <= src.len(),
    decreases src.len() - pos,
{
    if pos < src.len() && is_word_part(src[pos]) {
        lemma_word_end(src, pos + 1);
    }
}

/// Digits end at or behind where they are looked for, and within the text.
pub proof fn lemma_digits_end(src: Seq<char>, pos: int)
    requires
        0 <= pos <= src.len(),
    ensures
        pos <= digits_end(src, pos) <= src.len(),
    decreases src.len() - pos,
{
    if pos < src.len() && is_digit(src[pos]) {
        lemma_digits_end(src, pos + 1);
    }
}

/// A double quote is found at or behind where it is looked for, or the
/// text ends.
pub proof fn lemma_quote_from(src: Seq<char>, pos: int)
    requires
        0 <= pos <= src.len(),
    ensures
        pos <= quote_from(src, pos) <= src.len(),
    decreases src.len() - pos,
{
    if pos < src.len() && src[pos] != '"' {
        lemma_quote_from(src, pos + 1);
    }
}

/// `token`, then what `rest` gives unless it fails.
pub open spec fn token_then(token: TokenModel, rest: Result<Seq<TokenModel>, ErrorModel>) -> Result<
    Seq<TokenModel>,
    ErrorModel,
> {
    match rest {
        Ok(ts) => Ok(seq![token] + ts),
        Err(e) => Err(e),
    }
}

/// The tokens of `src` from `pos` on.
///
/// White space is skipped. A word runs as far as letters, digits,
/// underscores and dots go; a number as far as digits go, and has to fit in
/// 32 signed bits; a text from one double quote to the next, without the
/// quotes. `==` is one sign, and every other sign is one character.
pub open spec fn tokens_from(src: Seq<char>, pos: int) -> Result<Seq<TokenModel>, ErrorModel>
    decreases src.len() - pos,
{
    if !(0 <= pos < src.len()) {
        Ok(Seq::empty())
    } else if is_space(src[pos]) {
        tokens_from(src, pos + 1)
    } else if is_word_start(src[pos]) {
        proof {
            lemma_word_end(src, pos + 1);
        }
        token_then(
            TokenModel::Word(src.subrange(pos, word_end(src, pos + 1))),
            tokens_from(src, word_end(src, pos + 1)),
        )
    } else if is_digit(src[pos]) {
        proof {
            lemma_digits_end(src, pos + 1);
        }
        if decimal(src.subrange(pos, digits_end(src, pos + 1))) > i32::MAX {
            Err(syntax_error("number out of range"@))
        } else {
            token_then(
                TokenModel::Number(decimal(src.subrange(pos, digits_end(src, pos + 1)))),
                tokens_from(src, digits_end(src, pos + 1)),
            )
        }
    } else if src[pos] == '"' {
        proof {
            lemma_quote_from(src, pos + 1);
        }
        if quote_from(src, pos + 1) >= src.len() {
            Err(syntax_error("unterminated text"@))
        } else {
            token_then(
                TokenModel::Text(src.subrange(pos + 1, quote_from(src, pos + 1))),
                tokens_from(src, quote_from(src, pos + 1) + 1),
            )
        }
    } else if src[pos] == '=' && pos + 1 < src.len() && src[pos + 1] == '=' {
        token_then(TokenModel::Symbol(Sym::Equal), tokens_from(src, pos + 2))
    } else {
        match sign_of(src[pos]) {
            Some(sign) => token_then(TokenModel::Symbol(sign), tokens_from(src, pos + 1)),
            None => Err(syntax_error("unexpected character"@)),
        }
    }
}

/// The tokens of `src`.
pub open spec fn tokens_of(src: Seq<char>) -> Result<Seq<TokenModel>, ErrorModel> {
    tokens_from(src, 0)
}

fn space(c: char) -> (r: bool)
    ensures
        r == is_space(c),
{
    c == ' ' || c == '\t' || c == '\n' || c == '\r'
}

fn digit(c: char) -> (r: bool)
    ensures
        r == is_digit(c),
{
    '0' <= c && c <= '9'
}

fn word_start(c: char) -> (r: bool)
    ensures
        r == is_word_start(c),
{
    ('a' <= c && c <= 'z') || ('A' <= c && c <= 'Z') || c == '_'
}

fn word_part(c: char) -> (r: bool)
    ensures
        r == is_word_part(c),
{
    word_start(c) || digit(c) || c == '.'
}

fn sign(c: char) -> (r: Option<Sym>)
    ensures
        r == sign_of(c),
{
    if c == '(' {
        Some(Sym::LParen)
    } else if c == ')' {
        Some(Sym::RParen)
    } else if c == '[' {
        Some(Sym::LBracket)
    } else if c == ']' {
        Some(Sym::RBracket)
    } else if c == '{' {
        Some(Sym::LBrace)
    } else if c == '}' {
        Some(Sym::RBrace)
    } else if c == ',' {
        Some(Sym::Comma)
    } else if c == ':' {
        Some(Sym::Colon)
    } else if c == '=' {
        Some(Sym::Assign)
    } else if c == '<' {
        Some(Sym::Less)
    } else if c == '>' {
        Some(Sym::Greater)
    } else if c == '+' {
        Some(Sym::Plus)
    } else if c == '-' {
        Some(Sym::Minus)
    } else if c == '*' {
        Some(Sym::Star)
    } else if c == '/' {
        Some(Sym::Slash)
    } else {
        None
    }
}

/// The tokens `ts`, then what `rest` gives unless it fails.
pub open spec fn tokens_then(ts: Seq<TokenModel>, rest: Result<Seq<TokenModel>, ErrorModel>) -> Result<
    Seq<TokenModel>,
    ErrorModel,
> {
    match rest {
        Ok(more) => Ok(ts + more),
        Err(e) => Err(e),
    }
}

proof fn lemma_tokens_then_push(
    ts: Seq<TokenModel>,
    token: TokenModel,
    rest: Result<Seq<TokenModel>, ErrorModel>,
)
    ensures
        tokens_then(ts, token_then(token, rest)) == tokens_then(ts.push(token), rest),
{
    match rest {
        Ok(more) => {
            assert(ts + (seq![token] + more) =~= ts.push(token) + more);
        },
        Err(_) => {},
    }
}

/// Whether every character is a digit.
pub open spec fn all_digits(s: Seq<char>) -> bool {
    forall|i: int| 0 <= i < s.len() ==> is_digit(#[trigger] s[i])
}

proof fn lemma_decimal_prefix(s: Seq<char>, k: int)
    requires
        all_digits(s),
        0 <= k <= s.len(),
    ensures
        0 <= decimal(s.take(k)) <= decimal(s),
    decreases s.len(),
{
    if k == s.len() {
        assert(s.take(k) =~= s);
        if s.len() > 0 {
            lemma_decimal_prefix(s.drop_last(), k - 1);
            assert(s.drop_last().take(k - 1) =~= s.drop_last());
            assert(is_digit(s[s.len() - 1]));
        }
    } else {
        lemma_decimal_prefix(s.drop_last(), k);
        assert(s.drop_last().take(k) =~= s.take(k));
        assert(is_digit(s[s.len() - 1]));
    }
}

proof fn lemma_digits_run(src: Seq<char>, from: int, i: int)
    requires
        0 <= from <= i <= digits_end(src, from),
        from <= src.len(),
    ensures
        i < digits_end(src, from) ==> i < src.len() && is_digit(src[i]),
        digits_end(src, i) == digits_end(src, from),
    decreases i - from,
{
    lemma_digits_end(src, from);
    if from < i {
        lemma_digits_run(src, from + 1, i);
    }
}

fn scan_word(src: &Vec<char>, from: usize) -> (end: usize)
    requires
        from <= src.len(),
    ensures
        end == word_end(src@, from as int),
        from <= end <= src.len(),
{
    let mut i = from;
    while i < src.len() && word_part(src[i])
        invariant
            from <= i <= src.len(),
            word_end(src@, from as int) == word_end(src@, i as int),
        decreases src.len() - i,
    {
        i += 1;
    }
    i
}

fn scan_digits(src: &Vec<char>, from: usize) -> (end: usize)
    requires
        from <= src.len(),
    ensures
        end == digits_end(src@, from as int),
        from <= end <= src.len(),
{
    let mut i = from;
    while i < src.len() && digit(src[i])
        invariant
            from <= i <= src.len(),
            digits_end(src@, from as int) == digits_end(src@, i as int),
        decreases src.len() - i,
    {
        i += 1;
    }
    i
}

fn scan_quote(src: &Vec<char>, from: usize) -> (end: usize)
    requires
        from <= src.len(),
    ensures
        end == quote_from(src@, from as int),
        from <= end <= src.len(),
{
    let mut i = from;
    while i < src.len() && src[i] != '"'
        invariant
            from <= i <= src.len(),
            quote_from(src@, from as int) == quote_from(src@, i as int),
        decreases src.len() - i,
    {
        i += 1;
    }
    i
}

/// The value of the digits `src[from..to]`, if it fits in 32 signed bits.
fn number_of(src: &Vec<char>, from: usize, to: usize) -> (value: Option<i32>)
    requires
        from <= to <= src.len(),
        all_digits(src@.subrange(from as int, to as int)),
    ensures
        match value {
            Some(v) => v == decimal(src@.subrange(from as int, to as int)),
            None => decimal(src@.subrange(from as int, to as int)) > i32::MAX,
        },
{
    let ghost digits = src@.subrange(from as int, to as int);
    let mut value: u64 = 0;
    let mut i = from;
    assert(digits.take(0) =~= Seq::<char>::empty());
    while i < to
        invariant
            from <= i <= to <= src.len(),
            digits == src@.subrange(from as int, to as int),
            all_digits(digits),
            value == decimal(digits.take(i - from)),
            value <= i32::MAX,
        decreases to - i,
    {
        let c = src[i];
        proof {
            assert(digits.take(i - from + 1).drop_last() =~= digits.take(i - from));
            assert(digits.take(i - from + 1).last() == digits[i - from]);
            assert(is_digit(digits[i - from]));
            lemma_decimal_prefix(digits, i - from + 1);
        }
        let d: u64 = (c as u32 - '0' as u32) as u64;
        value = value * 10 + d;
        if value > 2147483647 {
            return None;
        }
        i += 1;
    }
    assert(digits.take(to - from) =~= digits);
    Some(value as i32)
}

/// The tokens of `input`.
pub fn tokenize(input: &str) -> (r: Result<Vec<Token>, KujavError>)
    ensures
        match r {
            Ok(ts) => tokens_of(input@) == Ok::<Seq<TokenModel>, ErrorModel>(tokens_model(ts@)),
            Err(e) => tokens_of(input@) == Err::<Seq<TokenModel>, ErrorModel>(e@),
        },
{
    let src = chars_of(input);
    let mut tokens: Vec<Token> = Vec::new();
    let mut pos: usize = 0;
    assert(tokens_model(tokens@) + tokens_from(src@, 0)->Ok_0 =~= tokens_from(src@, 0)->Ok_0);
    while pos < src.len()
        invariant
            pos <= src.len(),
            src@ == input@,
            tokens_of(src@) == tokens_then(tokens_model(tokens@), tokens_from(src@, pos as int)),
        decreases src.len() - pos,
    {
        let ghost before = tokens_model(tokens@);
        let c = src[pos];
        if space(c) {
            pos += 1;
        } else if word_start(c) {
            let end = scan_word(&src, pos + 1);
            let word = string_of(&src, pos, end);
            proof {
                lemma_tokens_then_push(
                    before,
                    TokenModel::Word(word@),
                    tokens_from(src@, end as int),
                );
            }
            tokens.push(Token::Word(word));
            assert(tokens_model(tokens@) =~= before.push(TokenModel::Word(word@)));
            pos = end;
        } else if digit(c) {
            let end = scan_digits(&src, pos + 1);
            proof {
                assert forall|i: int| 0 <= i < end - pos implies is_digit(
                    #[trigger] src@.subrange(pos as int, end as int)[i],
                ) by {
                    if i > 0 {
                        lemma_digits_run(src@, pos as int + 1, pos + i);
                    }
                }
            }
            match number_of(&src, pos, end) {
                None => {
                    return Err(KujavError::syntax("number out of range"));
                },
                Some(value) => {
                    proof {
                        lemma_tokens_then_push(
                            before,
                            TokenModel::Number(value as int),
                            tokens_from(src@, end as int),
                        );
                    }
                    tokens.push(Token::Number(value));
                    assert(tokens_model(tokens@) =~= before.push(
                        TokenModel::Number(value as int),
                    ));
                    pos = end;
                },
            }
        } else if c == '"' {
            let end = scan_quote(&src, pos + 1);
            if end >= src.len() {
                return Err(KujavError::syntax("unterminated text"));
            }
            let text = string_of(&src, pos + 1, end);
            proof {
                lemma_tokens_then_push(
                    before,
                    TokenModel::Text(text@),
                    tokens_from(src@, end as int + 1),
                );
            }
            tokens.push(Token::Text(text));
            assert(tokens_model(tokens@) =~= before.push(TokenModel::Text(text@)));
            pos = end + 1;
        } else if c == '=' && pos + 1 < src.len() && src[pos + 1] == '=' {
            proof {
                lemma_tokens_then_push(
                    before,
                    TokenModel::Symbol(Sym::Equal),
                    tokens_from(src@, pos as int + 2),
                );
            }
            tokens.push(Token::Symbol(Sym::Equal));
            assert(tokens_model(tokens@) =~= before.push(TokenModel::Symbol(Sym::Equal)));
            pos += 2;
        } else {
            match sign(c) {
                None => {
                    return Err(KujavError::syntax("unexpected character"));
                },
                Some(s) => {
                    proof {
                        lemma_tokens_then_push(
                            before,
                            TokenModel::Symbol(s),
                            tokens_from(src@, pos as int + 1),
                        );
                    }
                    tokens.push(Token::Symbol(s));
                    assert(tokens_model(tokens@) =~= before.push(TokenModel::Symbol(s)));
                    pos += 1;
                },
            }
        }
    }
    assert(tokens_model(tokens@) + Seq::<TokenModel>::empty() =~= tokens_model(tokens@));
    Ok(tokens)
}

} // verus!
