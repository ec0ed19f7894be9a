//! The errors that the HTTP API answers with.
use vstd::prelude::*;
use crate::validation::{ValidationErrors, format_validator_errors, formatted_errors};

verus! {

/// Why an API request failed. The texts of I/O and integer parsing errors are kept as the
/// errors display them.
pub enum APIError {
    Custom(String),
    IO(String),
    ParseInt(String),
    Validator(ValidationErrors),
}

/// What an error reply says: a text, or for failed checks each field with its failures.
pub enum ErrorMessage {
    Text(String),
    Fields(Vec<(String, String)>),
}

impl APIError {
    /// The code of every error reply.
    pub fn code(&self) -> (r: i32)
        ensures
            r == -2,
    {
        -2
    }

    /// The "msg" of the error reply.
    pub fn message(&self) -> (r: ErrorMessage)
        ensures
            match self {
                APIError::Validator(e) => r matches ErrorMessage::Fields(f)
                    && f@.map_values(|p: (String, String)| (p.0@, p.1@)) == formatted_errors(e@),
                APIError::Custom(s) => r matches ErrorMessage::Text(t) && t@ == s@,
                APIError::IO(s) => r matches ErrorMessage::Text(t) && t@ == s@,
                APIError::ParseInt(s) => r matches ErrorMessage::Text(t) && t@ == s@,
            },
    {
        match self {
            APIError::Validator(e) => ErrorMessage::Fields(format_validator_errors(e)),
            APIError::Custom(s) => ErrorMessage::Text(s.clone()),
            APIError::IO(s) => ErrorMessage::Text(s.clone()),
            APIError::ParseInt(s) => ErrorMessage::Text(s.clone()),
        }
    }
}

}
