//! Tokens of the Calvin language and the classification of words into
//! keywords and identifiers. Floating-point literals keep their text.

use vstd::prelude::*;
use super::lexical::{is_upper, char_is_uppercase};
use crate::text::{chars_of, owned, str_eq, push_str, push_char, push_signed_decimal, push_decimal, decimal,
    signed_decimal};

verus! {

/// Token types for the Calvin language.
#[derive(Debug, Clone, PartialEq)]
pub enum Token {
    // Literals
    IntLit(i32),
    LongLit(i64),
    ShortLit(i16),
    ByteLit(u8),
    /// A 32-bit floating-point literal, by its text (without the `f`).
    FloatLit(String),
    /// A 64-bit floating-point literal, by its text.
    DoubleLit(String),
    StringLit(String),
    CharLit(char),
    BoolLit(bool),
    UnitLit,
    // Identifiers and operators
    Ident(String),
    UpperIdent(String),
    Operator(String),
    // Keywords
    Let,
    In,
    If,
    Then,
    Else,
    Match,
    With,
    Fn,
    Do,
    Type,
    Class,
    Instance,
    Data,
    Import,
    Where,
    Forall,
    Exists,
    Mu,
    LetRec,
    Pack,
    Unpack,
    // Delimiters
    LParen,
    RParen,
    LBrace,
    RBrace,
    LBracket,
    RBracket,
    Pipe,
    // Punctuation
    Comma,
    Semicolon,
    Dot,
    Colon,
    ColonColon,
    Arrow,
    FatArrow,
    Backslash,
    Equals,
    At,
    Underscore,
    // Special
    Eof,
}

/// The token a keyword (or `true`, `false`) stands for; none for other
/// words.
pub open spec fn keyword_token(s: Seq<char>) -> Option<Token> {
    if s == "let"@ {
        Some(Token::Let)
    } else if s == "in"@ {
        Some(Token::In)
    } else if s == "if"@ {
        Some(Token::If)
    } else if s == "then"@ {
        Some(Token::Then)
    } else if s == "else"@ {
        Some(Token::Else)
    } else if s == "match"@ {
        Some(Token::Match)
    } else if s == "with"@ {
        Some(Token::With)
    } else if s == "fn"@ {
        Some(Token::Fn)
    } else if s == "true"@ {
        Some(Token::BoolLit(true))
    } else if s == "false"@ {
        Some(Token::BoolLit(false))
    } else if s == "do"@ {
        Some(Token::Do)
    } else if s == "type"@ {
        Some(Token::Type)
    } else if s == "class"@ {
        Some(Token::Class)
    } else if s == "instance"@ {
        Some(Token::Instance)
    } else if s == "data"@ {
        Some(Token::Data)
    } else if s == "import"@ {
        Some(Token::Import)
    } else if s == "where"@ {
        Some(Token::Where)
    } else if s == "forall"@ {
        Some(Token::Forall)
    } else if s == "exists"@ {
        Some(Token::Exists)
    } else if s == "mu"@ {
        Some(Token::Mu)
    } else if s == "letrec"@ {
        Some(Token::LetRec)
    } else if s == "pack"@ {
        Some(Token::Pack)
    } else if s == "unpack"@ {
        Some(Token::Unpack)
    } else {
        None
    }
}

/// The textual form of a token.
pub open spec fn token_text(t: Token) -> Seq<char> {
    match t {
        Token::IntLit(n) => signed_decimal(n as int),
        Token::LongLit(n) => signed_decimal(n as int) + "L"@,
        Token::ShortLit(n) => signed_decimal(n as int) + "s"@,
        Token::ByteLit(n) => decimal(n as nat) + "b"@,
        Token::FloatLit(x) => x@ + "f"@,
        Token::DoubleLit(x) => x@,
        Token::StringLit(x) => seq!['"'] + x@ + seq!['"'],
        Token::CharLit(c) => seq!['\'', c, '\''],
        Token::BoolLit(b) => if b { "true"@ } else { "false"@ },
        Token::UnitLit => "()"@,
        Token::Ident(x) => x@,
        Token::UpperIdent(x) => x@,
        Token::Operator(x) => x@,
        Token::Let => "let"@,
        Token::In => "in"@,
        Token::If => "if"@,
        Token::Then => "then"@,
        Token::Else => "else"@,
        Token::Match => "match"@,
        Token::With => "with"@,
        Token::Fn => "fn"@,
        Token::Do => "do"@,
        Token::Type => "type"@,
        Token::Class => "class"@,
        Token::Instance => "instance"@,
        Token::Data => "data"@,
        Token::Import => "import"@,
        Token::Where => "where"@,
        Token::Forall => "forall"@,
        Token::Exists => "exists"@,
        Token::Mu => "mu"@,
        Token::LetRec => "letrec"@,
        Token::Pack => "pack"@,
        Token::Unpack => "unpack"@,
        Token::LParen => "("@,
        Token::RParen => ")"@,
        Token::LBrace => "{"@,
        Token::RBrace => "}"@,
        Token::LBracket => "["@,
        Token::RBracket => "]"@,
        Token::Pipe => "|"@,
        Token::Comma => ","@,
        Token::Semicolon => ";"@,
        Token::Dot => "."@,
        Token::Colon => ":"@,
        Token::ColonColon => "::"@,
        Token::Arrow => "->"@,
        Token::FatArrow => "=>"@,
        Token::Backslash => "\\"@,
        Token::Equals => "="@,
        Token::At => "@"@,
        Token::Underscore => "_"@,
        Token::Eof => "<EOF>"@,
    }
}

/// Classifies a word: a keyword's token, else an identifier, capitalized
/// (`UpperIdent`) when its first character is uppercase.
pub fn keyword_or_ident(s: &str) -> (r: Token)
    ensures
        keyword_token(s@) matches Some(t) ==> r == t,
        keyword_token(s@) is None && s@.len() > 0 && is_upper(s@[0]) ==> (r matches Token::UpperIdent(x) && x@ == s@),
        keyword_token(s@) is None && !(s@.len() > 0 && is_upper(s@[0])) ==> (r matches Token::Ident(x) && x@ == s@),
{
    if str_eq(s, "let") {
        return Token::Let;
    }
    if str_eq(s, "in") {
        return Token::In;
    }
    if str_eq(s, "if") {
        return Token::If;
    }
    if str_eq(s, "then") {
        return Token::Then;
    }
    if str_eq(s, "else") {
        return Token::Else;
    }
    if str_eq(s, "match") {
        return Token::Match;
    }
    if str_eq(s, "with") {
        return Token::With;
    }
    if str_eq(s, "fn") {
        return Token::Fn;
    }
    if str_eq(s, "true") {
        return Token::BoolLit(true);
    }
    if str_eq(s, "false") {
        return Token::BoolLit(false);
    }
    if str_eq(s, "do") {
        return Token::Do;
    }
    if str_eq(s, "type") {
        return Token::Type;
    }
    if str_eq(s, "class") {
        return Token::Class;
    }
    if str_eq(s, "instance") {
        return Token::Instance;
    }
    if str_eq(s, "data") {
        return Token::Data;
    }
    if str_eq(s, "import") {
        return Token::Import;
    }
    if str_eq(s, "where") {
        return Token::Where;
    }
    if str_eq(s, "forall") {
        return Token::Forall;
    }
    if str_eq(s, "exists") {
        return Token::Exists;
    }
    if str_eq(s, "mu") {
        return Token::Mu;
    }
    if str_eq(s, "letrec") {
        return Token::LetRec;
    }
    if str_eq(s, "pack") {
        return Token::Pack;
    }
    if str_eq(s, "unpack") {
        return Token::Unpack;
    }
    let cs = chars_of(s);
    if cs.len() > 0 && char_is_uppercase(cs[0]) {
        Token::UpperIdent(owned(s))
    } else {
        Token::Ident(owned(s))
    }
}

impl Token {
    /// The textual form of this token (see `token_text`).
    pub fn to_string(&self) -> (r: String)
        ensures
            r@ == token_text(*self),
    {
        let mut r = String::new();
        match self {
            Token::IntLit(n) => push_signed_decimal(&mut r, *n as i64),
            Token::LongLit(n) => {
                push_signed_decimal(&mut r, *n);
                push_str(&mut r, "L");
            }
            Token::ShortLit(n) => {
                push_signed_decimal(&mut r, *n as i64);
                push_str(&mut r, "s");
            }
            Token::ByteLit(n) => {
                push_decimal(&mut r, *n as u64);
                push_str(&mut r, "b");
            }
            Token::FloatLit(x) => {
                push_str(&mut r, x.as_str());
                push_str(&mut r, "f");
            }
            Token::DoubleLit(x) => push_str(&mut r, x.as_str()),
            Token::StringLit(x) => {
                push_char(&mut r, '"');
                push_str(&mut r, x.as_str());
                push_char(&mut r, '"');
            }
            Token::CharLit(c) => {
                push_char(&mut r, '\'');
                push_char(&mut r, *c);
                push_char(&mut r, '\'');
            }
            Token::BoolLit(b) => push_str(&mut r, if *b { "true" } else { "false" }),
            Token::UnitLit => push_str(&mut r, "()"),
            Token::Ident(x) => push_str(&mut r, x.as_str()),
            Token::UpperIdent(x) => push_str(&mut r, x.as_str()),
            Token::Operator(x) => push_str(&mut r, x.as_str()),
            Token::Let => push_str(&mut r, "let"),
            Token::In => push_str(&mut r, "in"),
            Token::If => push_str(&mut r, "if"),
            Token::Then => push_str(&mut r, "then"),
            Token::Else => push_str(&mut r, "else"),
            Token::Match => push_str(&mut r, "match"),
            Token::With => push_str(&mut r, "with"),
            Token::Fn => push_str(&mut r, "fn"),
            Token::Do => push_str(&mut r, "do"),
            Token::Type => push_str(&mut r, "type"),
            Token::Class => push_str(&mut r, "class"),
            Token::Instance => push_str(&mut r, "instance"),
            Token::Data => push_str(&mut r, "data"),
            Token::Import => push_str(&mut r, "import"),
            Token::Where => push_str(&mut r, "where"),
            Token::Forall => push_str(&mut r, "forall"),
            Token::Exists => push_str(&mut r, "exists"),
            Token::Mu => push_str(&mut r, "mu"),
            Token::LetRec => push_str(&mut r, "letrec"),
            Token::Pack => push_str(&mut r, "pack"),
            Token::Unpack => push_str(&mut r, "unpack"),
            Token::LParen => push_str(&mut r, "("),
            Token::RParen => push_str(&mut r, ")"),
            Token::LBrace => push_str(&mut r, "{"),
            Token::RBrace => push_str(&mut r, "}"),
            Token::LBracket => push_str(&mut r, "["),
            Token::RBracket => push_str(&mut r, "]"),
            Token::Pipe => push_str(&mut r, "|"),
            Token::Comma => push_str(&mut r, ","),
            Token::Semicolon => push_str(&mut r, ";"),
            Token::Dot => push_str(&mut r, "."),
            Token::Colon => push_str(&mut r, ":"),
            Token::ColonColon => push_str(&mut r, "::"),
            Token::Arrow => push_str(&mut r, "->"),
            Token::FatArrow => push_str(&mut r, "=>"),
            Token::Backslash => push_str(&mut r, "\\"),
            Token::Equals => push_str(&mut r, "="),
            Token::At => push_str(&mut r, "@"),
            Token::Underscore => push_str(&mut r, "_"),
            Token::Eof => push_str(&mut r, "<EOF>"),
        }
        proof {
            assert(r@ =~= token_text(*self));
        }
        r
    }
}

} // verus!
