//! Tokens of the language.

use std::ops::Range;
use vstd::prelude::*;

verus! {

/// A floating-point number that the language carries around without computing on it.
#[derive(Debug)]
pub struct RantFloat {
    /// The IEEE 754 bit pattern of the number.
    pub bits: u64,
    /// The number as it is printed.
    pub text: String,
}

/// The view of a [`RantFloat`].
pub struct FloatView {
    pub bits: u64,
    pub text: Seq<char>,
}

impl View for RantFloat {
    type V = FloatView;

    open spec fn view(&self) -> FloatView {
        FloatView { bits: self.bits, text: self.text@ }
    }
}

impl Clone for RantFloat {
    fn clone(&self) -> (copy: Self)
        ensures
            copy == *self,
    {
        RantFloat { bits: self.bits, text: self.text.clone() }
    }
}

/// A token.
#[derive(Debug)]
pub enum RantToken {
    /// An escape sequence that stands for a character.
    Escape(char),
    Fragment,
    Whitespace,
    Integer(i64),
    Float(RantFloat),
    True,
    False,
    EmptyValue,
    /// A verbatim string literal, with the text it stands for.
    StringLiteral(String),
    UnterminatedStringLiteral,
    Hint,
    Sink,
    Star,
    Bang,
    Question,
    Slash,
    Plus,
    Dollar,
    Equals,
    At,
    Caret,
    Colon,
    Semi,
    Pipe,
    Compose,
    ComposeValue,
    LeftBrace,
    RightBrace,
    LeftParen,
    RightParen,
    LeftBracket,
    RightBracket,
    LeftAngle,
    RightAngle,
    /// Text that no other token matches.
    Error,
}

impl Clone for RantToken {
    fn clone(&self) -> (copy: Self)
        ensures
            copy == *self,
    {
        match self {
            RantToken::Escape(c) => RantToken::Escape(*c),
            RantToken::Fragment => RantToken::Fragment,
            RantToken::Whitespace => RantToken::Whitespace,
            RantToken::Integer(n) => RantToken::Integer(*n),
            RantToken::Float(n) => RantToken::Float(n.clone()),
            RantToken::True => RantToken::True,
            RantToken::False => RantToken::False,
            RantToken::EmptyValue => RantToken::EmptyValue,
            RantToken::StringLiteral(s) => RantToken::StringLiteral(s.clone()),
            RantToken::UnterminatedStringLiteral => RantToken::UnterminatedStringLiteral,
            RantToken::Hint => RantToken::Hint,
            RantToken::Sink => RantToken::Sink,
            RantToken::Star => RantToken::Star,
            RantToken::Bang => RantToken::Bang,
            RantToken::Question => RantToken::Question,
            RantToken::Slash => RantToken::Slash,
            RantToken::Plus => RantToken::Plus,
            RantToken::Dollar => RantToken::Dollar,
            RantToken::Equals => RantToken::Equals,
            RantToken::At => RantToken::At,
            RantToken::Caret => RantToken::Caret,
            RantToken::Colon => RantToken::Colon,
            RantToken::Semi => RantToken::Semi,
            RantToken::Pipe => RantToken::Pipe,
            RantToken::Compose => RantToken::Compose,
            RantToken::ComposeValue => RantToken::ComposeValue,
            RantToken::LeftBrace => RantToken::LeftBrace,
            RantToken::RightBrace => RantToken::RightBrace,
            RantToken::LeftParen => RantToken::LeftParen,
            RantToken::RightParen => RantToken::RightParen,
            RantToken::LeftBracket => RantToken::LeftBracket,
            RantToken::RightBracket => RantToken::RightBracket,
            RantToken::LeftAngle => RantToken::LeftAngle,
            RantToken::RightAngle => RantToken::RightAngle,
            RantToken::Error => RantToken::Error,
        }
    }
}

/// A token with its place in the source and the source text it covers.
#[derive(Debug)]
pub struct Lexeme {
    pub token: RantToken,
    /// The byte range of the token in the source.
    pub span: Range<usize>,
    /// The source text of the token.
    pub text: String,
}

/// A copy of a range.
pub fn copy_span(span: &Range<usize>) -> (copy: Range<usize>)
    ensures
        copy == *span,
{
    span.start..span.end
}

impl Clone for Lexeme {
    fn clone(&self) -> (copy: Self)
        ensures
            copy == *self,
    {
        Lexeme {
            token: self.token.clone(),
            span: copy_span(&self.span),
            text: self.text.clone(),
        }
    }
}

} // verus!
