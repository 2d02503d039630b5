//! Tokens of the language, and the unescaping of string literals.

use vstd::prelude::*;

verus! {

/// A lexical token. Operator tokens double as the operator tags of the
/// syntax tree.
#[derive(Debug)]
pub enum Token {
    /// A number literal, as the bits of its binary64 value.
    Number(u64),
    StringLiteral(String),
    TypeName(String),
    PlusEq,
    MinusEq,
    MultEq,
    DivEq,
    ModEq,
    PowEq,
    Plus,
    Minus,
    Mult,
    Div,
    Mod,
    Pow,
    LParen,
    RParen,
    LesserEq,
    GreaterEq,
    Lesser,
    Greater,
    NotEq,
    Not,
    LBracket,
    RBracket,
    LSqBracket,
    RSqBracket,
    Eol,
    Comma,
    LocalAssign,
    Colon,
    Eq,
    Assign,
    Or,
    Pipe,
    And,
    Range,
    Dot,
    True,
    False,
    Null,
    If,
    Elif,
    Else,
    While,
    As,
    Identifier(String),
    Error,
    Eof,
}

impl Clone for Token {
    fn clone(&self) -> (res: Self)
        ensures
            res == *self,
    {
        match self {
            Token::Number(bits) => Token::Number(*bits),
            Token::StringLiteral(text) => Token::StringLiteral(text.clone()),
            Token::TypeName(name) => Token::TypeName(name.clone()),
            Token::PlusEq => Token::PlusEq,
            Token::MinusEq => Token::MinusEq,
            Token::MultEq => Token::MultEq,
            Token::DivEq => Token::DivEq,
            Token::ModEq => Token::ModEq,
            Token::PowEq => Token::PowEq,
            Token::Plus => Token::Plus,
            Token::Minus => Token::Minus,
            Token::Mult => Token::Mult,
            Token::Div => Token::Div,
            Token::Mod => Token::Mod,
            Token::Pow => Token::Pow,
            Token::LParen => Token::LParen,
            Token::RParen => Token::RParen,
            Token::LesserEq => Token::LesserEq,
            Token::GreaterEq => Token::GreaterEq,
            Token::Lesser => Token::Lesser,
            Token::Greater => Token::Greater,
            Token::NotEq => Token::NotEq,
            Token::Not => Token::Not,
            Token::LBracket => Token::LBracket,
            Token::RBracket => Token::RBracket,
            Token::LSqBracket => Token::LSqBracket,
            Token::RSqBracket => Token::RSqBracket,
            Token::Eol => Token::Eol,
            Token::Comma => Token::Comma,
            Token::LocalAssign => Token::LocalAssign,
            Token::Colon => Token::Colon,
            Token::Eq => Token::Eq,
            Token::Assign => Token::Assign,
            Token::Or => Token::Or,
            Token::Pipe => Token::Pipe,
            Token::And => Token::And,
            Token::Range => Token::Range,
            Token::Dot => Token::Dot,
            Token::True => Token::True,
            Token::False => Token::False,
            Token::Null => Token::Null,
            Token::If => Token::If,
            Token::Elif => Token::Elif,
            Token::Else => Token::Else,
            Token::While => Token::While,
            Token::As => Token::As,
            Token::Identifier(name) => Token::Identifier(name.clone()),
            Token::Error => Token::Error,
            Token::Eof => Token::Eof,
        }
    }
}

/// The text `s` with every occurrence of `from` replaced by `to`, scanning
/// from the left and never re-reading replaced text.
pub open spec fn replaced(s: Seq<char>, from: Seq<char>, to: Seq<char>) -> Seq<char>
    decreases s.len(),
{
    if from.len() == 0 || s.len() < from.len() {
        s
    } else if s.subrange(0, from.len() as int) == from {
        to + replaced(s.subrange(from.len() as int, s.len() as int), from, to)
    } else {
        seq![s[0]] + replaced(s.subrange(1, s.len() as int), from, to)
    }
}

/// Calls `str::replace` of the standard library with a non-empty pattern:
/// every non-overlapping match of `from`, found from the left, becomes `to`.
#[verifier::external_body]
fn replace_all(s: &str, from: &str, to: &str) -> (res: String)
    requires
        from@.len() > 0,
    ensures
        res@ == replaced(s@, from@, to@),
{
    s.replace(from, to)
}

/// What a string literal's body denotes: carriage returns dropped, then the
/// escapes `\n`, `\r`, `\"` and `\'` resolved, in that order.
pub open spec fn unescaped(s: Seq<char>) -> Seq<char> {
    replaced(
        replaced(
            replaced(
                replaced(replaced(s, seq!['\r'], Seq::empty()), seq!['\\', 'n'], seq!['\n']),
                seq!['\\', 'r'],
                seq!['\r'],
            ),
            seq!['\\', '"'],
            seq!['"'],
        ),
        seq!['\\', '\''],
        seq!['\''],
    )
}

/// Resolves the escapes of a string literal's body.
pub fn convert_string(s: &str) -> (res: String)
    ensures
        res@ == unescaped(s@),
{
    proof {
        reveal_strlit("\r");
        reveal_strlit("");
        reveal_strlit("\\n");
        reveal_strlit("\n");
        reveal_strlit("\\r");
        reveal_strlit("\\\"");
        reveal_strlit("\"");
        reveal_strlit("\\'");
        reveal_strlit("'");
        assert("\r"@ =~= seq!['\r']);
        assert(""@ =~= Seq::<char>::empty());
        assert("\\n"@ =~= seq!['\\', 'n']);
        assert("\n"@ =~= seq!['\n']);
        assert("\\r"@ =~= seq!['\\', 'r']);
        assert("\\\""@ =~= seq!['\\', '"']);
        assert("\""@ =~= seq!['"']);
        assert("\\'"@ =~= seq!['\\', '\'']);
        assert("'"@ =~= seq!['\'']);
    }
    let a = replace_all(s, "\r", "");
    let b = replace_all(a.as_str(), "\\n", "\n");
    let c = replace_all(b.as_str(), "\\r", "\r");
    let d = replace_all(c.as_str(), "\\\"", "\"");
    replace_all(d.as_str(), "\\'", "'")
}

} // verus!
