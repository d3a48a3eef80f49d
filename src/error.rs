use vstd::prelude::*;

verus! {

/// Why a setup or prediction call was refused.
#[derive(Clone, Copy, Debug, PartialEq, Eq, Structural)]
pub enum ServiceError {
    /// The project string does not start with a project id.
    InvalidProjectId,
    /// No model has been set up for the project.
    ModelNotLoaded { project_id: u32 },
    /// The project's model file is missing.
    ModelNotFound { project_id: u32 },
    /// The project's model file could not be loaded.
    ModelLoad { project_id: u32 },
    /// A task's image could not be decoded.
    ImageDecode,
}

impl ServiceError {
    /// The HTTP status that reports this error.
    pub fn status(&self) -> (r: u16)
        ensures
            r == match *self {
                ServiceError::InvalidProjectId => 400u16,
                ServiceError::ModelNotLoaded { .. } => 404u16,
                ServiceError::ModelNotFound { .. } => 404u16,
                ServiceError::ModelLoad { .. } => 500u16,
                ServiceError::ImageDecode => 400u16,
            },
    {
        match self {
            ServiceError::InvalidProjectId => 400,
            ServiceError::ModelNotLoaded { .. } => 404,
            ServiceError::ModelNotFound { .. } => 404,
            ServiceError::ModelLoad { .. } => 500,
            ServiceError::ImageDecode => 400,
        }
    }
}

} // verus!
