//! Error types for the scene graph and the GPU backend.

use vstd::prelude::*;
use vstd::string::*;

verus! {

/// Cause of a scene-graph failure.
#[derive(Debug, Clone, Copy, PartialEq, Eq, Structural)]
pub enum ErrorCause {
    /// A node looked up by name or index does not exist.
    NotFound,
    /// Inserting a child whose name collides with a sibling's.
    DuplicateName,
    /// An operation drove the graph into a state it cannot represent,
    /// such as a transform product leaving the representable range.
    InvalidState,
    /// The graph has no root.
    Empty,
}

/// A recoverable scene-graph error: a cause plus a human-readable message.
#[derive(Debug, Clone)]
pub struct SceneGraphError {
    message: String,
    cause: ErrorCause,
}

impl SceneGraphError {
    pub closed spec fn spec_cause(&self) -> ErrorCause {
        self.cause
    }

    pub closed spec fn spec_message(&self) -> Seq<char> {
        self.message@
    }

    pub fn new(msg: &str, cause: &ErrorCause) -> (r: SceneGraphError)
        ensures
            r.spec_cause() == *cause,
            r.spec_message() == msg@,
    {
        SceneGraphError { message: String::from_str(msg), cause: *cause }
    }

    pub fn err_empty(msg: &str) -> (r: SceneGraphError)
        ensures
            r.spec_cause() == ErrorCause::Empty,
            r.spec_message() == msg@,
    {
        SceneGraphError { message: String::from_str(msg), cause: ErrorCause::Empty }
    }

    pub fn cause(&self) -> (r: ErrorCause)
        ensures
            r == self.spec_cause(),
    {
        self.cause
    }

    pub fn message(&self) -> (r: &str)
        ensures
            r@ == self.spec_message(),
    {
        self.message.as_str()
    }
}

/// Kind of a GPU backend failure.
#[derive(Debug, Clone, Copy, PartialEq, Eq, Structural)]
pub enum DxErrorType {
    /// A draw submission or frame presentation failed.
    Draw,
    /// No usable device could be created.
    Device,
    /// An unclassified failure.
    Generic,
    /// A shader program could not be created.
    ShaderCreate,
    /// A shader source could not be compiled.
    ShaderCompile,
    /// Uploading new contents into an existing resource failed.
    ResourceUpdate,
    /// Allocating a buffer, texture or view failed.
    ResourceCreation,
    /// The presentation surface could not be bound to the window handle.
    SurfaceCreation,
}

/// A GPU backend error: a kind plus a human-readable message.
#[derive(Debug, Clone)]
pub struct DxError {
    message: String,
    err_type: DxErrorType,
}

impl DxError {
    pub closed spec fn spec_err_type(&self) -> DxErrorType {
        self.err_type
    }

    pub closed spec fn spec_message(&self) -> Seq<char> {
        self.message@
    }

    pub fn new(msg: &str, err_type: DxErrorType) -> (r: DxError)
        ensures
            r.spec_err_type() == err_type,
            r.spec_message() == msg@,
    {
        DxError { message: String::from_str(msg), err_type }
    }

    pub fn err_type(&self) -> (r: DxErrorType)
        ensures
            r == self.spec_err_type(),
    {
        self.err_type
    }

    pub fn message(&self) -> (r: &str)
        ensures
            r@ == self.spec_message(),
    {
        self.message.as_str()
    }
}

} // verus!
