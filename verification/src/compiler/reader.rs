//! Reading tokens one after the other.

use std::ops::Range;
use vstd::prelude::*;
use crate::compiler::lexer::{copy_span, Lexeme, RantToken};

verus! {

/// Whether the token at `pos` is whitespace.
pub open spec fn ws_at(lexemes: Seq<Lexeme>, pos: nat) -> bool {
    pos < lexemes.len() && lexemes[pos as int].token is Whitespace
}

/// The first position from `pos` on that holds no whitespace.
pub open spec fn after_ws(lexemes: Seq<Lexeme>, pos: nat) -> nat
    decreases lexemes.len() - pos,
{
    if ws_at(lexemes, pos) {
        after_ws(lexemes, pos + 1)
    } else {
        pos
    }
}

/// The byte range of the token read last: the one before `pos`.
pub open spec fn last_span(lexemes: Seq<Lexeme>, pos: nat) -> Range<usize> {
    if 0 < pos <= lexemes.len() {
        lexemes[pos - 1].span
    } else {
        0usize..0usize
    }
}

/// The source text of the token read last.
pub open spec fn last_text(lexemes: Seq<Lexeme>, pos: nat) -> Seq<char> {
    if 0 < pos <= lexemes.len() {
        lexemes[pos - 1].text@
    } else {
        Seq::empty()
    }
}

/// Whitespace ends at the first token that is none, and everything skipped is whitespace.
pub broadcast proof fn lemma_after_ws(lexemes: Seq<Lexeme>, pos: nat)
    ensures
        pos <= #[trigger] after_ws(lexemes, pos),
        pos <= lexemes.len() ==> after_ws(lexemes, pos) <= lexemes.len(),
        !ws_at(lexemes, after_ws(lexemes, pos)),
        forall|i: int|
            pos <= i < after_ws(lexemes, pos) ==> (#[trigger] lexemes[i]).token is Whitespace,
    decreases lexemes.len() - pos,
{
    if ws_at(lexemes, pos) {
        lemma_after_ws(lexemes, pos + 1);
    }
}

/// The tokens that the parser asks for by name.
#[derive(Debug, Clone, Copy, PartialEq, Eq, Structural)]
pub enum TokenKind {
    Bang,
    Question,
    Slash,
    Star,
    Plus,
    Dollar,
    Equals,
    Caret,
    ComposeValue,
    LeftBrace,
    RightParen,
    RightAngle,
}

/// Whether `token` is of kind `kind`.
pub open spec fn is_kind(token: RantToken, kind: TokenKind) -> bool {
    match kind {
        TokenKind::Bang => token is Bang,
        TokenKind::Question => token is Question,
        TokenKind::Slash => token is Slash,
        TokenKind::Star => token is Star,
        TokenKind::Plus => token is Plus,
        TokenKind::Dollar => token is Dollar,
        TokenKind::Equals => token is Equals,
        TokenKind::Caret => token is Caret,
        TokenKind::ComposeValue => token is ComposeValue,
        TokenKind::LeftBrace => token is LeftBrace,
        TokenKind::RightParen => token is RightParen,
        TokenKind::RightAngle => token is RightAngle,
    }
}

/// Whether the token at `pos` is of kind `kind`.
pub open spec fn kind_at(lexemes: Seq<Lexeme>, pos: nat, kind: TokenKind) -> bool {
    pos < lexemes.len() && is_kind(lexemes[pos as int].token, kind)
}

fn matches_kind(token: &RantToken, kind: TokenKind) -> (found: bool)
    ensures
        found == is_kind(*token, kind),
{
    match (token, kind) {
        (RantToken::Bang, TokenKind::Bang) => true,
        (RantToken::Question, TokenKind::Question) => true,
        (RantToken::Slash, TokenKind::Slash) => true,
        (RantToken::Star, TokenKind::Star) => true,
        (RantToken::Plus, TokenKind::Plus) => true,
        (RantToken::Dollar, TokenKind::Dollar) => true,
        (RantToken::Equals, TokenKind::Equals) => true,
        (RantToken::Caret, TokenKind::Caret) => true,
        (RantToken::ComposeValue, TokenKind::ComposeValue) => true,
        (RantToken::LeftBrace, TokenKind::LeftBrace) => true,
        (RantToken::RightParen, TokenKind::RightParen) => true,
        (RantToken::RightAngle, TokenKind::RightAngle) => true,
        _ => false,
    }
}

/// Reads a list of tokens.
#[derive(Debug)]
pub struct RantTokenReader {
    lexemes: Vec<Lexeme>,
    pos: usize,
}

impl RantTokenReader {
    pub closed spec fn lexemes(&self) -> Seq<Lexeme> {
        self.lexemes@
    }

    /// How many tokens have been read.
    pub closed spec fn pos(&self) -> nat {
        self.pos as nat
    }

    /// No more tokens have been read than there are.
    pub open spec fn wf(&self) -> bool {
        self.pos() <= self.lexemes().len()
    }

    pub fn new(lexemes: Vec<Lexeme>) -> (reader: Self)
        ensures
            reader.wf(),
            reader.lexemes() == lexemes@,
            reader.pos() == 0,
    {
        RantTokenReader { lexemes, pos: 0 }
    }

    /// Reads the next token.
    pub fn next(&mut self) -> (lexeme: Option<Lexeme>)
        requires
            old(self).wf(),
        ensures
            final(self).wf(),
            final(self).lexemes() == old(self).lexemes(),
            match lexeme {
                Some(lexeme) => {
                    &&& old(self).pos() < old(self).lexemes().len()
                    &&& lexeme == old(self).lexemes()[old(self).pos() as int]
                    &&& final(self).pos() == old(self).pos() + 1
                },
                None => {
                    &&& old(self).pos() == old(self).lexemes().len()
                    &&& final(self).pos() == old(self).pos()
                },
            },
    {
        if self.pos < self.lexemes.len() {
            let lexeme = self.lexemes[self.pos].clone();
            self.pos = self.pos + 1;
            Some(lexeme)
        } else {
            None
        }
    }

    /// Reads past the whitespace that comes next, if any.
    pub fn skip_ws(&mut self)
        requires
            old(self).wf(),
        ensures
            final(self).wf(),
            final(self).lexemes() == old(self).lexemes(),
            final(self).pos() == after_ws(old(self).lexemes(), old(self).pos()),
    {
        while self.pos < self.lexemes.len() && matches!(
            self.lexemes[self.pos].token,
            RantToken::Whitespace
        )
            invariant
                self.wf(),
                self.lexemes() == old(self).lexemes(),
                after_ws(self.lexemes(), self.pos()) == after_ws(
                    old(self).lexemes(),
                    old(self).pos(),
                ),
            decreases self.lexemes().len() - self.pos(),
        {
            self.pos = self.pos + 1;
        }
    }

    /// Reads the next token that is no whitespace.
    pub fn next_solid(&mut self) -> (lexeme: Option<Lexeme>)
        requires
            old(self).wf(),
        ensures
            final(self).wf(),
            final(self).lexemes() == old(self).lexemes(),
            ({
                let start = after_ws(old(self).lexemes(), old(self).pos());
                match lexeme {
                    Some(lexeme) => {
                        &&& start < old(self).lexemes().len()
                        &&& lexeme == old(self).lexemes()[start as int]
                        &&& final(self).pos() == start + 1
                    },
                    None => {
                        &&& start == old(self).lexemes().len()
                        &&& final(self).pos() == start
                    },
                }
            }),
    {
        self.skip_ws();
        self.next()
    }

    /// Reads the next token if it is of the given kind, and says whether it was.
    pub fn eat(&mut self, kind: TokenKind) -> (eaten: bool)
        requires
            old(self).wf(),
        ensures
            final(self).wf(),
            final(self).lexemes() == old(self).lexemes(),
            eaten == kind_at(old(self).lexemes(), old(self).pos(), kind),
            final(self).pos() == old(self).pos() + if eaten {
                1nat
            } else {
                0
            },
    {
        if self.pos < self.lexemes.len() && matches_kind(&self.lexemes[self.pos].token, kind) {
            self.pos = self.pos + 1;
            true
        } else {
            false
        }
    }

    /// The next token, which stays unread.
    pub fn peek(&self) -> (lexeme: Option<&Lexeme>)
        requires
            self.wf(),
        ensures
            match lexeme {
                Some(lexeme) => {
                    &&& self.pos() < self.lexemes().len()
                    &&& *lexeme == self.lexemes()[self.pos() as int]
                },
                None => self.pos() == self.lexemes().len(),
            },
    {
        if self.pos < self.lexemes.len() {
            Some(&self.lexemes[self.pos])
        } else {
            None
        }
    }

    /// The byte range of the token read last.
    pub fn last_token_span(&self) -> (span: Range<usize>)
        requires
            self.wf(),
        ensures
            span == last_span(self.lexemes(), self.pos()),
    {
        if self.pos > 0 {
            copy_span(&self.lexemes[self.pos - 1].span)
        } else {
            0..0
        }
    }

    /// The byte offset of the token read last.
    pub fn last_token_pos(&self) -> (start: usize)
        requires
            self.wf(),
        ensures
            start == last_span(self.lexemes(), self.pos()).start,
    {
        self.last_token_span().start
    }

    /// The source text of the token read last.
    pub fn last_token_string(&self) -> (text: String)
        requires
            self.wf(),
        ensures
            text@ == last_text(self.lexemes(), self.pos()),
    {
        if self.pos > 0 {
            self.lexemes[self.pos - 1].text.clone()
        } else {
            String::new()
        }
    }
}

} // verus!
