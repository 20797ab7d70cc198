//! Messages that the compiler reports.

use std::ops::Range;
use vstd::prelude::*;

verus! {

/// How serious a message is.
#[derive(Debug, Clone, Copy, PartialEq, Eq, Structural)]
pub enum Severity {
    Warning,
    Error,
}

/// A place in the source.
#[derive(Debug, PartialEq, Eq)]
pub struct Position {
    /// The line, counted from 1.
    pub line: usize,
    /// The byte column, counted from 1.
    pub col: usize,
    /// The byte range that the message is about.
    pub span: Range<usize>,
}

impl Position {
    pub fn new(line: usize, col: usize, span: Range<usize>) -> (pos: Self)
        ensures
            pos.line == line,
            pos.col == col,
            pos.span == span,
    {
        Position { line, col, span }
    }
}

/// What a message says.
#[derive(Debug, PartialEq, Eq)]
pub enum Problem {
    UnexpectedToken(String),
    ExpectedToken(String),
    MissingIdentifier,
    InvalidIdentifier(String),
    InvalidHint,
    InvalidSink,
    InvalidHintOn(&'static str),
    InvalidSinkOn(&'static str),
    DynamicKeyBlockMultiElement,
    FunctionBodyBlockMultiElement,
    UnclosedBlock,
    UnclosedFunctionCall,
    UnclosedFunctionSignature,
    UnclosedVariableAccess,
    UnclosedStringLiteral,
    UnclosedList,
    UnclosedMap,
    LocalPathStartsWithIndex,
    DuplicateParameter(String),
    MultipleVariadicParams,
    InvalidParamOrder(String, String),
    NothingToCompose,
    ComposeValueReused,
    AnonValueAssignment,
}

/// The view of a [`Problem`].
pub enum ProblemView {
    UnexpectedToken(Seq<char>),
    ExpectedToken(Seq<char>),
    MissingIdentifier,
    InvalidIdentifier(Seq<char>),
    InvalidHint,
    InvalidSink,
    InvalidHintOn(Seq<char>),
    InvalidSinkOn(Seq<char>),
    DynamicKeyBlockMultiElement,
    FunctionBodyBlockMultiElement,
    UnclosedBlock,
    UnclosedFunctionCall,
    UnclosedFunctionSignature,
    UnclosedVariableAccess,
    UnclosedStringLiteral,
    UnclosedList,
    UnclosedMap,
    LocalPathStartsWithIndex,
    DuplicateParameter(Seq<char>),
    MultipleVariadicParams,
    InvalidParamOrder(Seq<char>, Seq<char>),
    NothingToCompose,
    ComposeValueReused,
    AnonValueAssignment,
}

impl View for Problem {
    type V = ProblemView;

    open spec fn view(&self) -> ProblemView {
        match self {
            Problem::UnexpectedToken(s) => ProblemView::UnexpectedToken(s@),
            Problem::ExpectedToken(s) => ProblemView::ExpectedToken(s@),
            Problem::MissingIdentifier => ProblemView::MissingIdentifier,
            Problem::InvalidIdentifier(s) => ProblemView::InvalidIdentifier(s@),
            Problem::InvalidHint => ProblemView::InvalidHint,
            Problem::InvalidSink => ProblemView::InvalidSink,
            Problem::InvalidHintOn(s) => ProblemView::InvalidHintOn(s@),
            Problem::InvalidSinkOn(s) => ProblemView::InvalidSinkOn(s@),
            Problem::DynamicKeyBlockMultiElement => ProblemView::DynamicKeyBlockMultiElement,
            Problem::FunctionBodyBlockMultiElement => ProblemView::FunctionBodyBlockMultiElement,
            Problem::UnclosedBlock => ProblemView::UnclosedBlock,
            Problem::UnclosedFunctionCall => ProblemView::UnclosedFunctionCall,
            Problem::UnclosedFunctionSignature => ProblemView::UnclosedFunctionSignature,
            Problem::UnclosedVariableAccess => ProblemView::UnclosedVariableAccess,
            Problem::UnclosedStringLiteral => ProblemView::UnclosedStringLiteral,
            Problem::UnclosedList => ProblemView::UnclosedList,
            Problem::UnclosedMap => ProblemView::UnclosedMap,
            Problem::LocalPathStartsWithIndex => ProblemView::LocalPathStartsWithIndex,
            Problem::DuplicateParameter(s) => ProblemView::DuplicateParameter(s@),
            Problem::MultipleVariadicParams => ProblemView::MultipleVariadicParams,
            Problem::InvalidParamOrder(s, t) => ProblemView::InvalidParamOrder(s@, t@),
            Problem::NothingToCompose => ProblemView::NothingToCompose,
            Problem::ComposeValueReused => ProblemView::ComposeValueReused,
            Problem::AnonValueAssignment => ProblemView::AnonValueAssignment,
        }
    }
}

/// A message about a problem in the source.
#[derive(Debug, PartialEq, Eq)]
pub struct CompilerMessage {
    pub info: Problem,
    pub severity: Severity,
    pub pos: Option<Position>,
}

/// The view of a [`CompilerMessage`].
pub struct MessageView {
    pub info: ProblemView,
    pub severity: Severity,
    pub pos: Option<Position>,
}

impl View for CompilerMessage {
    type V = MessageView;

    open spec fn view(&self) -> MessageView {
        MessageView { info: self.info@, severity: self.severity, pos: self.pos }
    }
}

impl CompilerMessage {
    pub fn new(info: Problem, severity: Severity, pos: Option<Position>) -> (message: Self)
        ensures
            message.info == info,
            message.severity == severity,
            message.pos == pos,
    {
        CompilerMessage { info, severity, pos }
    }

    pub fn is_error(&self) -> (error: bool)
        ensures
            error == (self@.severity == Severity::Error),
    {
        match self.severity {
            Severity::Error => true,
            Severity::Warning => false,
        }
    }
}

} // verus!
