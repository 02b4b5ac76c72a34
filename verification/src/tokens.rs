//! SQL tokens as the library reads them, produced by `sqlparser`'s
//! tokenizer.
use vstd::prelude::*;

use sqlparser::dialect::{AnsiDialect, Dialect, GenericDialect};
use sqlparser::tokenizer::{Token, Tokenizer, Whitespace};

use crate::config::DialectKind;

verus! {

/// The kind of a token. A word carries its value (without quotes), whether
/// it was quoted, and the name of the keyword it matched (`NoKeyword` when
/// none).
pub enum TokKind {
    Space,
    Comment,
    Word { value: String, quoted: bool, keyword: String },
    Number,
    Comma,
    SemiColon,
    LParen,
    RParen,
    Period,
    DoubleColon,
    Other,
}

/// A token and its text as the tokenizer writes it back.
pub struct Tok {
    pub kind: TokKind,
    pub text: String,
}

/// `sqlparser`'s token type, opaque here.
#[verifier::external_type_specification]
#[verifier::external_body]
pub struct ExToken(sqlparser::tokenizer::Token);

/// `sqlparser`'s whitespace token type, opaque here.
#[verifier::external_type_specification]
#[verifier::external_body]
pub struct ExWhitespace(sqlparser::tokenizer::Whitespace);

/// What `sqlparser`'s tokenizer yields for a text under a dialect, `None`
/// when it reports an error.
pub uninterp spec fn sql_tokens(dialect: DialectKind, input: Seq<char>) -> Option<Seq<Tok>>;

/// One `sqlparser` token in the library's terms: the variant is mapped one
/// for one and the token's `Display` text is kept.
#[verifier::external_body]
fn convert_token(t: &Token) -> Tok {
    let kind = match t {
        Token::Whitespace(w) => whitespace_kind(w),
        Token::Word(w) => TokKind::Word {
            value: w.value.clone(),
            quoted: w.quote_style.is_some(),
            keyword: format!("{:?}", w.keyword),
        },
        other => punctuation_kind(other),
    };
    Tok { kind, text: t.to_string() }
}

/// Reads `sqlparser`'s `Whitespace` into the library's model, one for one;
/// nothing is claimed of the result.
#[verifier::external_body]
fn whitespace_kind(w: &Whitespace) -> TokKind {
    match w {
        Whitespace::SingleLineComment { .. } | Whitespace::MultiLineComment(_) => TokKind::Comment,
        _ => TokKind::Space,
    }
}

/// Reads `sqlparser`'s `Token` into the library's model, one for one;
/// nothing is claimed of the result.
#[verifier::external_body]
fn punctuation_kind(t: &Token) -> TokKind {
    match t {
        Token::Number(..) => TokKind::Number,
        Token::Comma => TokKind::Comma,
        Token::SemiColon => TokKind::SemiColon,
        Token::LParen => TokKind::LParen,
        Token::RParen => TokKind::RParen,
        Token::Period => TokKind::Period,
        Token::DoubleColon => TokKind::DoubleColon,
        _ => TokKind::Other,
    }
}

/// `sqlparser::tokenizer::Tokenizer::tokenize` under the dialect's
/// `sqlparser` dialect (ANSI, or the generic one for Dremio). Claims: the
/// result is the named token sequence; an error is reported by its message.
#[verifier::external_body]
pub(crate) fn tokenize(dialect: DialectKind, input: &str) -> (r: Result<Vec<Tok>, String>)
    ensures
        r is Ok <==> sql_tokens(dialect, input@) is Some,
        r matches Ok(v) ==> sql_tokens(dialect, input@) == Some(v@),
{
    let d: Box<dyn Dialect> = match dialect {
        DialectKind::Ansi => Box::new(AnsiDialect {}),
        DialectKind::Dremio => Box::new(GenericDialect {}),
    };
    let tokens = Tokenizer::new(d.as_ref(), input).tokenize().map_err(|e| e.to_string())?;
    Ok(tokens.iter().map(convert_token).collect())
}

} // verus!
