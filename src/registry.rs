use std::collections::HashMap;

use vstd::prelude::*;

use crate::api::SetupResponse;
use crate::error::ServiceError;
use crate::pipeline::MODEL_VERSION;
use crate::text::{decimal, decimal_text, join};
use crate::project::{get_project_id, project_id_of};

verus! {

broadcast use vstd::std_specs::hash::group_hash_axioms;

/// How loading a model file from disk went wrong.
#[derive(Clone, Copy, Debug, PartialEq, Eq, Structural)]
pub enum LoadFailure {
    Missing,
    Malformed,
}

/// What a setup call has to do for its project.
#[derive(Clone, Copy, Debug, PartialEq, Eq, Structural)]
pub enum SetupAction {
    /// A model is loaded already: nothing to do.
    Ready,
    /// The model must be loaded from disk and handed to `finish_setup`.
    Load { project_id: u32 },
}

/// The loaded model of each project. Models are only ever added.
pub struct ModelRegistry<S> {
    models: HashMap<u32, S>,
}

/// The path of a project's model file: `models/<id>.onnx`, with the id in
/// decimal.
pub fn model_path(project_id: u32) -> (r: String)
    ensures
        r@ == "models/"@ + decimal(project_id as nat) + ".onnx"@,
{
    let id = decimal_text(project_id as u64);
    let head = join("models/", id.as_str());
    join(head.as_str(), ".onnx")
}

/// The action that a setup call for `project` takes on a registry holding
/// `models`.
pub open spec fn setup_plan<S>(models: Map<u32, S>, project: Seq<char>) -> Result<
    SetupAction,
    ServiceError,
> {
    match project_id_of(project) {
        None => Err(ServiceError::InvalidProjectId),
        Some(id) => if models.contains_key(id) {
            Ok(SetupAction::Ready)
        } else {
            Ok(SetupAction::Load { project_id: id })
        },
    }
}

/// The answer of every successful setup call.
pub open spec fn setup_answered(r: SetupResponse) -> bool {
    &&& r.model_version is Some
    &&& r.model_version->0@ == MODEL_VERSION@
}

impl<S> View for ModelRegistry<S> {
    type V = Map<u32, S>;

    closed spec fn view(&self) -> Map<u32, S> {
        self.models@
    }
}

impl<S> ModelRegistry<S> {
    /// A registry without models.
    pub fn new() -> (r: Self)
        ensures
            r@ == Map::<u32, S>::empty(),
    {
        ModelRegistry { models: HashMap::new() }
    }

    /// The model loaded for `project_id`, if any.
    pub fn get(&self, project_id: u32) -> (r: Option<&S>)
        ensures
            r matches Some(s) ==> self@.contains_key(project_id) && *s == self@[project_id],
            r is None ==> !self@.contains_key(project_id),
    {
        self.models.get(&project_id)
    }

    /// The model that a prediction call for `project` runs on.
    pub fn lookup(&self, project: &String) -> (r: Result<&S, ServiceError>)
        ensures
            match project_id_of(project@) {
                None => r == Err::<&S, ServiceError>(ServiceError::InvalidProjectId),
                Some(id) => if self@.contains_key(id) {
                    r matches Ok(s) && *s == self@[id]
                } else {
                    r == Err::<&S, ServiceError>(ServiceError::ModelNotLoaded { project_id: id })
                },
            },
    {
        match get_project_id(project) {
            None => Err(ServiceError::InvalidProjectId),
            Some(id) => match self.get(id) {
                Some(s) => Ok(s),
                None => Err(ServiceError::ModelNotLoaded { project_id: id }),
            },
        }
    }

    /// The first step of a setup call for `project`: whether a model has
    /// to be loaded.
    pub fn setup_action(&self, project: &String) -> (r: Result<SetupAction, ServiceError>)
        ensures
            r == setup_plan(self@, project@),
    {
        match get_project_id(project) {
            None => Err(ServiceError::InvalidProjectId),
            Some(id) => if self.models.contains_key(&id) {
                Ok(SetupAction::Ready)
            } else {
                Ok(SetupAction::Load { project_id: id })
            },
        }
    }

    /// The last step of a setup call whose action was to load the model of
    /// `project_id`: keeps the model that was loaded, or reports why none was.
    /// A model already present stays as it is.
    pub fn finish_setup(&mut self, project_id: u32, loaded: Result<S, LoadFailure>) -> (r: Result<
        SetupResponse,
        ServiceError,
    >)
        ensures
            match loaded {
                Ok(s) => {
                    &&& r matches Ok(resp) && setup_answered(resp)
                    &&& final(self)@ == if old(self)@.contains_key(project_id) {
                        old(self)@
                    } else {
                        old(self)@.insert(project_id, s)
                    }
                },
                Err(LoadFailure::Missing) => {
                    &&& r == Err::<SetupResponse, ServiceError>(
                        ServiceError::ModelNotFound { project_id },
                    )
                    &&& final(self)@ == old(self)@
                },
                Err(LoadFailure::Malformed) => {
                    &&& r == Err::<SetupResponse, ServiceError>(ServiceError::ModelLoad { project_id })
                    &&& final(self)@ == old(self)@
                },
            },
    {
        match loaded {
            Ok(s) => {
                if !self.models.contains_key(&project_id) {
                    self.models.insert(project_id, s);
                }
                Ok(ready_response())
            },
            Err(LoadFailure::Missing) => Err(ServiceError::ModelNotFound { project_id }),
            Err(LoadFailure::Malformed) => Err(ServiceError::ModelLoad { project_id }),
        }
    }
}

/// The answer of a setup call.
pub fn ready_response() -> (r: SetupResponse)
    ensures
        setup_answered(r),
{
    SetupResponse { model_version: Some(MODEL_VERSION.to_owned()) }
}

/// Once a setup call has loaded a project's model, a second setup call for
/// the same project loads nothing.
pub proof fn lemma_setup_loads_once<S>(models: Map<u32, S>, project: Seq<char>, s: S)
    requires
        project_id_of(project) is Some,
    ensures
        setup_plan(models.insert(project_id_of(project)->0, s), project) == Ok::<
            SetupAction,
            ServiceError,
        >(SetupAction::Ready),
{
}

} // verus!
