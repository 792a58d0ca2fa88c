//! A path-addressed store of directories, files and boilerplates (named
//! sets of client-path to file mappings), with the HTTP conditional-request
//! rules that arbitrate reads and writes of them.
use vstd::prelude::*;

pub mod boilerplate;
pub mod conditional;
pub mod database;
pub mod dir;
pub mod file;
pub mod path;
pub mod request_handlers;

verus! {

/// The ways an operation of the store or of a request can fail.
#[derive(Debug, Clone, PartialEq, Eq)]
pub enum CabinetError {
    /// The request cannot be carried out as asked; the text says why.
    BadRequest(String),
    NotFound,
    NotModified,
    PreconditionFailed,
    PayloadTooLarge,
    /// A failure of the store itself, not of the request.
    InternalError(String),
}

pub type CabinetResult<T> = Result<T, CabinetError>;

} // verus!
