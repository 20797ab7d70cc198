//! Errors that occur while a program runs.

use vstd::prelude::*;
use crate::text::opt_text;
use crate::value::RantValue;

verus! {

/// Why a value cannot be read or written at an index.
#[derive(Debug, PartialEq, Eq)]
pub enum IndexError {
    OutOfRange,
    /// The value has no indices; the type of the value.
    CannotIndexType(&'static str),
}

/// Why a value cannot be read or written at a key.
#[derive(Debug, PartialEq, Eq)]
pub enum KeyError {
    KeyNotFound(String),
    /// The value has no keys; the type of the value.
    CannotKeyType(&'static str),
}

pub type ValueIndexResult = Result<RantValue, IndexError>;

pub type ValueIndexSetResult = Result<(), IndexError>;

pub type ValueKeyResult = Result<RantValue, KeyError>;

pub type ValueKeySetResult = Result<(), KeyError>;

/// What kind of error occurred.
#[derive(Debug, PartialEq, Eq)]
pub enum RuntimeErrorType {
    StackOverflow,
    StackUnderflow,
    /// A variable does not exist.
    InvalidAccess,
    ArgumentMismatch,
    CannotInvokeValue,
    IndexError(IndexError),
    KeyError(KeyError),
}

/// An error of the stack or of a function.
#[derive(Debug, PartialEq, Eq)]
pub struct RuntimeError {
    pub error_type: RuntimeErrorType,
    pub description: String,
    pub stack_trace: Option<String>,
}

pub type RuntimeResult<T> = Result<T, RuntimeError>;

/// An error of the virtual machine.
#[derive(Debug, PartialEq, Eq)]
pub enum RantError {
    RuntimeError { error_type: RuntimeErrorType, description: Option<String> },
}

pub type RantResult<T> = Result<T, RantError>;

pub enum IndexErrorView {
    OutOfRange,
    CannotIndexType(Seq<char>),
}

pub enum KeyErrorView {
    KeyNotFound(Seq<char>),
    CannotKeyType(Seq<char>),
}

pub enum ErrorTypeView {
    StackOverflow,
    StackUnderflow,
    InvalidAccess,
    ArgumentMismatch,
    CannotInvokeValue,
    IndexError(IndexErrorView),
    KeyError(KeyErrorView),
}

impl View for IndexError {
    type V = IndexErrorView;

    open spec fn view(&self) -> IndexErrorView {
        match self {
            IndexError::OutOfRange => IndexErrorView::OutOfRange,
            IndexError::CannotIndexType(s) => IndexErrorView::CannotIndexType(s@),
        }
    }
}

impl View for KeyError {
    type V = KeyErrorView;

    open spec fn view(&self) -> KeyErrorView {
        match self {
            KeyError::KeyNotFound(s) => KeyErrorView::KeyNotFound(s@),
            KeyError::CannotKeyType(s) => KeyErrorView::CannotKeyType(s@),
        }
    }
}

impl View for RuntimeErrorType {
    type V = ErrorTypeView;

    open spec fn view(&self) -> ErrorTypeView {
        match self {
            RuntimeErrorType::StackOverflow => ErrorTypeView::StackOverflow,
            RuntimeErrorType::StackUnderflow => ErrorTypeView::StackUnderflow,
            RuntimeErrorType::InvalidAccess => ErrorTypeView::InvalidAccess,
            RuntimeErrorType::ArgumentMismatch => ErrorTypeView::ArgumentMismatch,
            RuntimeErrorType::CannotInvokeValue => ErrorTypeView::CannotInvokeValue,
            RuntimeErrorType::IndexError(e) => ErrorTypeView::IndexError(e@),
            RuntimeErrorType::KeyError(e) => ErrorTypeView::KeyError(e@),
        }
    }
}

/// The view of a [`RantError`].
pub struct ErrorView {
    pub error_type: ErrorTypeView,
    pub description: Option<Seq<char>>,
}

impl View for RantError {
    type V = ErrorView;

    open spec fn view(&self) -> ErrorView {
        match self {
            RantError::RuntimeError { error_type, description } => ErrorView {
                error_type: error_type@,
                description: opt_text(*description),
            },
        }
    }
}

impl RuntimeError {
    /// The error as the virtual machine reports it.
    pub fn into_rant_error(self) -> (error: RantError)
        ensures
            error@ == (ErrorView {
                error_type: self.error_type@,
                description: Some(self.description@),
            }),
    {
        RantError::RuntimeError {
            error_type: self.error_type,
            description: Some(self.description),
        }
    }
}

/// An error without a description.
pub open spec fn bare_error(error_type: ErrorTypeView) -> ErrorView {
    ErrorView { error_type, description: None }
}

/// The value that was read, or an index error.
pub fn convert_index_result(result: ValueIndexResult) -> (converted: RantResult<RantValue>)
    ensures
        match (result, converted) {
            (Ok(val), Ok(same)) => same == val,
            (Err(err), Err(error)) => error@ == bare_error(ErrorTypeView::IndexError(err@)),
            _ => false,
        },
{
    match result {
        Ok(val) => Ok(val),
        Err(err) => Err(
            RantError::RuntimeError {
                error_type: RuntimeErrorType::IndexError(err),
                description: None,
            },
        ),
    }
}

/// The value that was read, or a key error.
pub fn convert_key_result(result: ValueKeyResult) -> (converted: RantResult<RantValue>)
    ensures
        match (result, converted) {
            (Ok(val), Ok(same)) => same == val,
            (Err(err), Err(error)) => error@ == bare_error(ErrorTypeView::KeyError(err@)),
            _ => false,
        },
{
    match result {
        Ok(val) => Ok(val),
        Err(err) => Err(
            RantError::RuntimeError {
                error_type: RuntimeErrorType::KeyError(err),
                description: None,
            },
        ),
    }
}

/// Whether the value was written, or an index error.
pub fn convert_index_set_result(result: ValueIndexSetResult) -> (converted: RantResult<()>)
    ensures
        match (result, converted) {
            (Ok(_), Ok(_)) => true,
            (Err(err), Err(error)) => error@ == bare_error(ErrorTypeView::IndexError(err@)),
            _ => false,
        },
{
    match result {
        Ok(_) => Ok(()),
        Err(err) => Err(
            RantError::RuntimeError {
                error_type: RuntimeErrorType::IndexError(err),
                description: None,
            },
        ),
    }
}

/// Whether the value was written, or a key error.
pub fn convert_key_set_result(result: ValueKeySetResult) -> (converted: RantResult<()>)
    ensures
        match (result, converted) {
            (Ok(_), Ok(_)) => true,
            (Err(err), Err(error)) => error@ == bare_error(ErrorTypeView::KeyError(err@)),
            _ => false,
        },
{
    match result {
        Ok(_) => Ok(()),
        Err(err) => Err(
            RantError::RuntimeError {
                error_type: RuntimeErrorType::KeyError(err),
                description: None,
            },
        ),
    }
}

} // verus!
