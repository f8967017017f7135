//! The error kinds that the control plane reports.
use vstd::prelude::*;

verus! {

/// An error of the control plane, by meaning.
#[derive(Debug)]
pub enum CCError {
    /// An invariant was broken: a bug.
    InternalError { msg: String },
    /// A collaborator failed: a device write, a file write.
    ExternalError { msg: String },
    /// An unknown uid or channel.
    NotFound { msg: String },
    /// A request failed validation.
    UserError { msg: String },
}

impl CCError {
    pub fn not_found(msg: &str) -> (r: CCError)
        ensures
            r is NotFound,
    {
        CCError::NotFound { msg: msg.to_string() }
    }

    pub fn user_error(msg: &str) -> (r: CCError)
        ensures
            r is UserError,
    {
        CCError::UserError { msg: msg.to_string() }
    }

    pub fn internal(msg: &str) -> (r: CCError)
        ensures
            r is InternalError,
    {
        CCError::InternalError { msg: msg.to_string() }
    }

    pub fn external(msg: &str) -> (r: CCError)
        ensures
            r is ExternalError,
    {
        CCError::ExternalError { msg: msg.to_string() }
    }

    /// The HTTP status code that the API answers this error with.
    pub fn status_code(&self) -> (r: u16)
        ensures
            self is InternalError ==> r == 500,
            self is ExternalError ==> r == 502,
            self is NotFound ==> r == 404,
            self is UserError ==> r == 400,
    {
        match self {
            CCError::InternalError { .. } => 500,
            CCError::ExternalError { .. } => 502,
            CCError::NotFound { .. } => 404,
            CCError::UserError { .. } => 400,
        }
    }

    /// The error's message.
    pub fn message(&self) -> (r: &String)
        ensures
            match self {
                CCError::InternalError { msg } => r == msg,
                CCError::ExternalError { msg } => r == msg,
                CCError::NotFound { msg } => r == msg,
                CCError::UserError { msg } => r == msg,
            },
    {
        match self {
            CCError::InternalError { msg } => msg,
            CCError::ExternalError { msg } => msg,
            CCError::NotFound { msg } => msg,
            CCError::UserError { msg } => msg,
        }
    }
}

} // verus!
