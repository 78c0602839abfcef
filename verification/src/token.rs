//! Tokens of the Ji query language.
use vstd::prelude::*;
use crate::text::{chars_of, push_chars};

verus! {

/// A lexical token.
///
/// Numeric literals keep the exact text that was read (`Float`), so that the
/// library never handles floating-point values itself.
#[derive(Debug, PartialEq)]
pub enum Token {
    Connect,
    Add,
    Link,
    Get,
    Detach,
    Ident(String),
    Str(String),
    Float(String),
    StartEdge,
    Arrow,
    DoubleColon,
    Not,
    Star,
    Question,
    Pipe,
    Dot,
    Colon,
    Comma,
    OpenParen,
    CloseParen,
    OpenBracket,
    CloseBracket,
    OpenBrace,
    CloseBrace,
    GreaterThan,
    LessThan,
    Equal,
}

/// The mathematical model of a [`Token`]: text payloads become character sequences.
pub enum SpecToken {
    Connect,
    Add,
    Link,
    Get,
    Detach,
    Ident(Seq<char>),
    Str(Seq<char>),
    Float(Seq<char>),
    StartEdge,
    Arrow,
    DoubleColon,
    Not,
    Star,
    Question,
    Pipe,
    Dot,
    Colon,
    Comma,
    OpenParen,
    CloseParen,
    OpenBracket,
    CloseBracket,
    OpenBrace,
    CloseBrace,
    GreaterThan,
    LessThan,
    Equal,
}

impl View for Token {
    type V = SpecToken;

    open spec fn view(&self) -> SpecToken {
        match self {
            Token::Connect => SpecToken::Connect,
            Token::Add => SpecToken::Add,
            Token::Link => SpecToken::Link,
            Token::Get => SpecToken::Get,
            Token::Detach => SpecToken::Detach,
            Token::Ident(s) => SpecToken::Ident(s@),
            Token::Str(s) => SpecToken::Str(s@),
            Token::Float(s) => SpecToken::Float(s@),
            Token::StartEdge => SpecToken::StartEdge,
            Token::Arrow => SpecToken::Arrow,
            Token::DoubleColon => SpecToken::DoubleColon,
            Token::Not => SpecToken::Not,
            Token::Star => SpecToken::Star,
            Token::Question => SpecToken::Question,
            Token::Pipe => SpecToken::Pipe,
            Token::Dot => SpecToken::Dot,
            Token::Colon => SpecToken::Colon,
            Token::Comma => SpecToken::Comma,
            Token::OpenParen => SpecToken::OpenParen,
            Token::CloseParen => SpecToken::CloseParen,
            Token::OpenBracket => SpecToken::OpenBracket,
            Token::CloseBracket => SpecToken::CloseBracket,
            Token::OpenBrace => SpecToken::OpenBrace,
            Token::CloseBrace => SpecToken::CloseBrace,
            Token::GreaterThan => SpecToken::GreaterThan,
            Token::LessThan => SpecToken::LessThan,
            Token::Equal => SpecToken::Equal,
        }
    }
}

impl DeepView for Token {
    type V = SpecToken;

    open spec fn deep_view(&self) -> SpecToken {
        self@
    }
}

impl Clone for Token {
    fn clone(&self) -> (r: Self)
        ensures
            r == *self,
    {
        match self {
            Token::Connect => Token::Connect,
            Token::Add => Token::Add,
            Token::Link => Token::Link,
            Token::Get => Token::Get,
            Token::Detach => Token::Detach,
            Token::Ident(s) => Token::Ident(s.clone()),
            Token::Str(s) => Token::Str(s.clone()),
            Token::Float(s) => Token::Float(s.clone()),
            Token::StartEdge => Token::StartEdge,
            Token::Arrow => Token::Arrow,
            Token::DoubleColon => Token::DoubleColon,
            Token::Not => Token::Not,
            Token::Star => Token::Star,
            Token::Question => Token::Question,
            Token::Pipe => Token::Pipe,
            Token::Dot => Token::Dot,
            Token::Colon => Token::Colon,
            Token::Comma => Token::Comma,
            Token::OpenParen => Token::OpenParen,
            Token::CloseParen => Token::CloseParen,
            Token::OpenBracket => Token::OpenBracket,
            Token::CloseBracket => Token::CloseBracket,
            Token::OpenBrace => Token::OpenBrace,
            Token::CloseBrace => Token::CloseBrace,
            Token::GreaterThan => Token::GreaterThan,
            Token::LessThan => Token::LessThan,
            Token::Equal => Token::Equal,
        }
    }
}

/// What `char::escape_debug` writes for `c`.
pub uninterp spec fn debug_escape(c: char) -> Seq<char>;

/// `char::escape_debug`, collected into its characters; what it writes is named, not restated.
#[verifier::external_body]
fn escape_debug(c: char) -> (r: Vec<char>)
    ensures
        r@ == debug_escape(c),
{
    c.escape_debug().collect()
}

/// How a character is written inside a quoted token text, as `str`'s `Debug` writes it: the
/// escape of `char::escape_debug`, except that a single quote stands as it is.
pub open spec fn escape_char(c: char) -> Seq<char> {
    if c == '\'' {
        seq![c]
    } else {
        debug_escape(c)
    }
}

/// The text `s` with each character escaped by [`escape_char`].
pub open spec fn escaped(s: Seq<char>) -> Seq<char>
    decreases s.len(),
{
    if s.len() == 0 {
        Seq::empty()
    } else {
        escaped(s.drop_last()) + escape_char(s.last())
    }
}

/// The name of a token kind.
pub open spec fn variant_name(t: SpecToken) -> Seq<char> {
    match t {
        SpecToken::Ident(_) => "Ident"@,
        SpecToken::Str(_) => "Str"@,
        SpecToken::Float(_) => "Float"@,
        SpecToken::Connect => "Connect"@,
        SpecToken::Add => "Add"@,
        SpecToken::Link => "Link"@,
        SpecToken::Get => "Get"@,
        SpecToken::Detach => "Detach"@,
        SpecToken::StartEdge => "StartEdge"@,
        SpecToken::Arrow => "Arrow"@,
        SpecToken::DoubleColon => "DoubleColon"@,
        SpecToken::Not => "Not"@,
        SpecToken::Star => "Star"@,
        SpecToken::Question => "Question"@,
        SpecToken::Pipe => "Pipe"@,
        SpecToken::Dot => "Dot"@,
        SpecToken::Colon => "Colon"@,
        SpecToken::Comma => "Comma"@,
        SpecToken::OpenParen => "OpenParen"@,
        SpecToken::CloseParen => "CloseParen"@,
        SpecToken::OpenBracket => "OpenBracket"@,
        SpecToken::CloseBracket => "CloseBracket"@,
        SpecToken::OpenBrace => "OpenBrace"@,
        SpecToken::CloseBrace => "CloseBrace"@,
        SpecToken::GreaterThan => "GreaterThan"@,
        SpecToken::LessThan => "LessThan"@,
        SpecToken::Equal => "Equal"@,
    }
}

/// How a token is written in messages: its kind, then a text payload in quotes (escaped) or a
/// numeric literal as it was read, in parentheses: `Ident("ville")`, `Float(0.85)`, `Arrow`.
pub open spec fn token_text(t: SpecToken) -> Seq<char> {
    match t {
        SpecToken::Ident(s) => "Ident"@ + seq!['(', '"'] + escaped(s) + seq!['"', ')'],
        SpecToken::Str(s) => "Str"@ + seq!['(', '"'] + escaped(s) + seq!['"', ')'],
        SpecToken::Float(s) => "Float"@ + seq!['('] + s + seq![')'],
        _ => variant_name(t),
    }
}

/// How a possibly missing token is written in messages: `None`, or `Some(...)` around it.
pub open spec fn option_token_text(t: Option<SpecToken>) -> Seq<char> {
    match t {
        None => "None"@,
        Some(x) => "Some"@ + seq!['('] + token_text(x) + seq![')'],
    }
}

/// Appends `s` escaped as in [`escaped`].
fn push_escaped(out: &mut Vec<char>, s: &str)
    ensures
        final(out)@ == old(out)@ + escaped(s@),
{
    let cs = chars_of(s);
    let ghost o0 = out@;
    let mut i: usize = 0;
    proof {
        assert(cs@.take(0) =~= Seq::<char>::empty());
        assert(o0 + escaped(Seq::<char>::empty()) =~= o0);
    }
    while i < cs.len()
        invariant
            i <= cs@.len(),
            out@ == o0 + escaped(cs@.take(i as int)),
        decreases cs@.len() - i,
    {
        let c = cs[i];
        let ghost before = out@;
        if c == '\'' {
            out.push(c);
        } else {
            let mut e = escape_debug(c);
            out.append(&mut e);
        }
        proof {
            assert(out@ =~= before + escape_char(c));
            assert(cs@.take(i + 1).drop_last() =~= cs@.take(i as int));
            assert(o0 + escaped(cs@.take(i as int)) + escape_char(c) =~= o0 + (escaped(cs@.take(i as int)) + escape_char(c)));
        }
        i += 1;
    }
    proof {
        assert(cs@.take(cs@.len() as int) =~= s@);
    }
}

/// Appends a quoted, escaped payload: `("...")`.
fn push_quoted(out: &mut Vec<char>, s: &str)
    ensures
        final(out)@ == old(out)@ + seq!['(', '"'] + escaped(s@) + seq!['"', ')'],
{
    out.push('(');
    out.push('"');
    push_escaped(out, s);
    out.push('"');
    out.push(')');
    proof {
        assert(out@ =~= old(out)@ + seq!['(', '"'] + escaped(s@) + seq!['"', ')']);
    }
}

/// Appends how `t` is written in messages ([`token_text`]).
fn push_token(out: &mut Vec<char>, t: &Token)
    ensures
        final(out)@ == old(out)@ + token_text(t@),
{
    let ghost o0 = out@;
    match t {
        Token::Ident(s) => {
            push_chars(out, "Ident");
            push_quoted(out, s.as_str());
            proof {
                assert(out@ =~= o0 + token_text(t@));
            }
        },
        Token::Str(s) => {
            push_chars(out, "Str");
            push_quoted(out, s.as_str());
            proof {
                assert(out@ =~= o0 + token_text(t@));
            }
        },
        Token::Float(s) => {
            push_chars(out, "Float");
            out.push('(');
            push_chars(out, s.as_str());
            out.push(')');
            proof {
                assert(out@ =~= o0 + token_text(t@));
            }
        },
        Token::Connect => push_chars(out, "Connect"),
        Token::Add => push_chars(out, "Add"),
        Token::Link => push_chars(out, "Link"),
        Token::Get => push_chars(out, "Get"),
        Token::Detach => push_chars(out, "Detach"),
        Token::StartEdge => push_chars(out, "StartEdge"),
        Token::Arrow => push_chars(out, "Arrow"),
        Token::DoubleColon => push_chars(out, "DoubleColon"),
        Token::Not => push_chars(out, "Not"),
        Token::Star => push_chars(out, "Star"),
        Token::Question => push_chars(out, "Question"),
        Token::Pipe => push_chars(out, "Pipe"),
        Token::Dot => push_chars(out, "Dot"),
        Token::Colon => push_chars(out, "Colon"),
        Token::Comma => push_chars(out, "Comma"),
        Token::OpenParen => push_chars(out, "OpenParen"),
        Token::CloseParen => push_chars(out, "CloseParen"),
        Token::OpenBracket => push_chars(out, "OpenBracket"),
        Token::CloseBracket => push_chars(out, "CloseBracket"),
        Token::OpenBrace => push_chars(out, "OpenBrace"),
        Token::CloseBrace => push_chars(out, "CloseBrace"),
        Token::GreaterThan => push_chars(out, "GreaterThan"),
        Token::LessThan => push_chars(out, "LessThan"),
        Token::Equal => push_chars(out, "Equal"),
    }
}

/// Appends how a possibly missing token is written in messages ([`option_token_text`]).
pub(crate) fn push_option_token(out: &mut Vec<char>, t: &Option<Token>)
    ensures
        final(out)@ == old(out)@ + option_token_text(t.deep_view()),
{
    let ghost o0 = out@;
    match t {
        None => push_chars(out, "None"),
        Some(x) => {
            push_chars(out, "Some");
            out.push('(');
            push_token(out, x);
            out.push(')');
            proof {
                assert(out@ =~= o0 + option_token_text(t.deep_view()));
            }
        },
    }
}

} // verus!
