use vstd::prelude::*;

verus! {

/// Answer of the health check.
pub struct HealthResponse {
    pub status: String,
}

/// Body of a setup call.
pub struct SetupRequest {
    pub project: String,
    pub schema: String,
    pub hostname: String,
    pub access_token: String,
    pub model_version: Option<String>,
}

/// Answer of a setup call.
pub struct SetupResponse {
    pub model_version: Option<String>,
}

/// The part of a task that the pipeline reads: the path of its image.
pub struct TaskData {
    pub image: String,
}

/// Free-form parameters of a prediction call.
pub struct Params {
    pub login: Option<String>,
    pub password: Option<String>,
    pub context: Option<String>,
}

/// Settings read once at start-up.
pub struct Config {
    pub label_studio_url: String,
    pub label_studio_token: String,
    pub ml_backend_addr: String,
    pub ml_backend_port: u16,
    pub ml_provider: String,
    pub ml_labels: Vec<String>,
}

/// The box of one prediction: its top-left corner and size, in millionths
/// of a percent of the image.
pub struct PredValue {
    pub rotation: u32,
    pub x: i64,
    pub y: i64,
    pub width: i32,
    pub height: i32,
    pub rectanglelabels: Vec<String>,
}

/// One prediction of a task, with its confidence in millionths.
pub struct Pred {
    pub id: String,
    pub from_name: String,
    pub to_name: String,
    pub t: String,
    pub score: u32,
    pub original_width: u32,
    pub original_height: u32,
    pub image_rotation: u32,
    pub value: PredValue,
    pub readonly: bool,
}

/// The predictions of one task and its score in millionths.
pub struct PredictResponse {
    pub result: Vec<Pred>,
    pub score: u32,
    pub model_version: Option<String>,
}

} // verus!
