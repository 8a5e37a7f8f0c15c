//! The library's error type.

use vstd::prelude::*;

verus! {

/// Errors the library reports. Each carries a human-readable message.
#[derive(Debug, Clone)]
pub enum AppError {
    /// The caller supplied a value that the integration cannot accept.
    InvalidInput(String),
    /// Stored or discovered configuration cannot be used.
    Config(String),
    /// A managed resource was changed outside the library.
    Conflict(String),
}

/// Model of [`AppError`].
pub enum ErrView {
    InvalidInput(Seq<char>),
    Config(Seq<char>),
    Conflict(Seq<char>),
}

impl View for AppError {
    type V = ErrView;

    open spec fn view(&self) -> ErrView {
        match self {
            AppError::InvalidInput(m) => ErrView::InvalidInput(m@),
            AppError::Config(m) => ErrView::Config(m@),
            AppError::Conflict(m) => ErrView::Conflict(m@),
        }
    }
}

impl ErrView {
    pub open spec fn message(self) -> Seq<char> {
        match self {
            ErrView::InvalidInput(m) => m,
            ErrView::Config(m) => m,
            ErrView::Conflict(m) => m,
        }
    }
}

impl AppError {
    /// A copy of the error.
    pub fn clone_error(&self) -> (r: AppError)
        ensures
            r@ == self@,
    {
        match self {
            AppError::InvalidInput(m) => AppError::InvalidInput(m.clone()),
            AppError::Config(m) => AppError::Config(m.clone()),
            AppError::Conflict(m) => AppError::Conflict(m.clone()),
        }
    }

    /// The message, as the error's `Display` shows it.
    pub fn message(&self) -> (r: String)
        ensures
            r@ == self@.message(),
    {
        match self {
            AppError::InvalidInput(m) => m.clone(),
            AppError::Config(m) => m.clone(),
            AppError::Conflict(m) => m.clone(),
        }
    }
}

/// Model of a unit result.
pub open spec fn unit_result_view(r: Result<(), AppError>) -> Result<(), ErrView> {
    match r {
        Ok(()) => Ok(()),
        Err(e) => Err(e@),
    }
}

} // verus!
