//! The crate's error type. Variants carry a human-readable detail string;
//! [`AppError::message`] renders the full display form.
use vstd::prelude::*;

verus! {

use crate::chars::chars_to_string;
use crate::chars::push_lit;
use crate::chars::push_chars;
use crate::chars::str_to_chars;

#[derive(Debug, Clone)]
pub enum AppError {
    Io(String),
    Template(String),
    Config(String),
    BlogParsing(String),
    NotFound(String),
    Internal(String),
}

/// The display form of an error: a fixed prefix naming the kind, then the
/// detail string.
pub open spec fn error_message(e: AppError) -> Seq<char> {
    match e {
        AppError::Io(s) => "IO error: "@ + s@,
        AppError::Template(s) => "Template error: "@ + s@,
        AppError::Config(s) => "Configuration error: "@ + s@,
        AppError::BlogParsing(s) => "Blog post parsing error: "@ + s@,
        AppError::NotFound(s) => "Not found: "@ + s@,
        AppError::Internal(s) => "Internal server error: "@ + s@,
    }
}

impl AppError {
    pub fn message(&self) -> (r: String)
        ensures
            r@ == error_message(*self),
    {
        let mut v: Vec<char> = Vec::new();
        match self {
            AppError::Io(s) => {
                push_lit(&mut v, "IO error: ");
                let d = str_to_chars(s.as_str());
                push_chars(&mut v, &d);
            },
            AppError::Template(s) => {
                push_lit(&mut v, "Template error: ");
                let d = str_to_chars(s.as_str());
                push_chars(&mut v, &d);
            },
            AppError::Config(s) => {
                push_lit(&mut v, "Configuration error: ");
                let d = str_to_chars(s.as_str());
                push_chars(&mut v, &d);
            },
            AppError::BlogParsing(s) => {
                push_lit(&mut v, "Blog post parsing error: ");
                let d = str_to_chars(s.as_str());
                push_chars(&mut v, &d);
            },
            AppError::NotFound(s) => {
                push_lit(&mut v, "Not found: ");
                let d = str_to_chars(s.as_str());
                push_chars(&mut v, &d);
            },
            AppError::Internal(s) => {
                push_lit(&mut v, "Internal server error: ");
                let d = str_to_chars(s.as_str());
                push_chars(&mut v, &d);
            },
        }
        chars_to_string(&v)
    }
}

} // verus!
