//! The errors that inventory operations report.

use vstd::prelude::*;

verus! {

/// What went wrong, as reported to the caller.
#[derive(Debug)]
pub enum AppError {
    /// The item or category does not exist for the requesting account.
    ItemNotFound,
    /// The request was refused; the text says why.
    BadRequest(String),
    /// The store could not complete the operation.
    StoreUnavailable(String),
    /// A page could not be rendered.
    TemplateError(String),
    /// Any other failure, with its description.
    InternalServerError(String),
}

pub open spec fn status_of(e: AppError) -> u16 {
    match e {
        AppError::ItemNotFound => 404,
        AppError::BadRequest(_) => 400,
        _ => 500,
    }
}

impl AppError {
    /// The HTTP status that reports this error: 404, 400 or 500.
    pub fn status_code(&self) -> (r: u16)
        ensures
            r == status_of(*self),
    {
        match self {
            AppError::ItemNotFound => 404,
            AppError::BadRequest(_) => 400,
            _ => 500,
        }
    }

    /// The message shown to the client. Store and template failures are not described
    /// beyond their kind.
    pub fn message(&self) -> (r: String)
        ensures
            match *self {
                AppError::ItemNotFound => r@ == "Item not found"@,
                AppError::BadRequest(m) => r@ == m@,
                AppError::StoreUnavailable(_) => r@ == "Database error"@,
                AppError::TemplateError(_) => r@ == "Template rendering error"@,
                AppError::InternalServerError(m) => r@ == m@,
            },
    {
        match self {
            AppError::ItemNotFound => String::from_str("Item not found"),
            AppError::BadRequest(m) => m.clone(),
            AppError::StoreUnavailable(_) => String::from_str("Database error"),
            AppError::TemplateError(_) => String::from_str("Template rendering error"),
            AppError::InternalServerError(m) => m.clone(),
        }
    }
}

} // verus!
