use detect_backend::project::get_project_id;
use detect_backend::error::ServiceError;
use detect_backend::registry::{model_path, LoadFailure, ModelRegistry, SetupAction};

#[test]
fn project_id_before_dot() {
    assert_eq!(get_project_id(&"123.v2".to_string()), Some(123));
}

#[test]
fn project_id_not_numeric() {
    assert_eq!(get_project_id(&"abc".to_string()), None);
}

#[test]
fn project_id_empty() {
    assert_eq!(get_project_id(&"".to_string()), None);
}

#[test]
fn project_id_without_dot() {
    assert_eq!(get_project_id(&"7".to_string()), Some(7));
}

#[test]
fn project_id_edges() {
    assert_eq!(get_project_id(&"+5.x".to_string()), Some(5));
    assert_eq!(get_project_id(&"+".to_string()), None);
    assert_eq!(get_project_id(&"-5".to_string()), None);
    assert_eq!(get_project_id(&".5".to_string()), None);
    assert_eq!(get_project_id(&"4294967295".to_string()), Some(u32::MAX));
    assert_eq!(get_project_id(&"4294967296".to_string()), None);
    assert_eq!(get_project_id(&"12a.3".to_string()), None);
}

#[test]
fn model_path_has_decimal_id() {
    assert_eq!(model_path(42), "models/42.onnx");
    assert_eq!(model_path(0), "models/0.onnx");
}

#[test]
fn setup_twice_loads_once() {
    let mut reg: ModelRegistry<u32> = ModelRegistry::new();
    let project = "3.abc".to_string();
    let first = reg.setup_action(&project);
    assert_eq!(first, Ok(SetupAction::Load { project_id: 3 }));
    let resp = reg.finish_setup(3, Ok(99)).unwrap();
    assert_eq!(resp.model_version, Some("1".to_string()));
    let second = reg.setup_action(&project);
    assert_eq!(second, Ok(SetupAction::Ready));
    assert_eq!(reg.get(3), Some(&99));
    let again = reg.finish_setup(3, Ok(7)).unwrap();
    assert_eq!(again.model_version, Some("1".to_string()));
    assert_eq!(reg.get(3), Some(&99));
}

#[test]
fn setup_errors() {
    let mut reg: ModelRegistry<u32> = ModelRegistry::new();
    assert_eq!(reg.setup_action(&"x".to_string()), Err(ServiceError::InvalidProjectId));
    let missing = reg.finish_setup(4, Err(LoadFailure::Missing));
    assert_eq!(missing.err(), Some(ServiceError::ModelNotFound { project_id: 4 }));
    let bad = reg.finish_setup(4, Err(LoadFailure::Malformed));
    assert_eq!(bad.err(), Some(ServiceError::ModelLoad { project_id: 4 }));
    assert_eq!(reg.get(4), None);
}

#[test]
fn lookup_errors_and_hits() {
    let mut reg: ModelRegistry<u32> = ModelRegistry::new();
    assert_eq!(reg.lookup(&"abc".to_string()), Err(ServiceError::InvalidProjectId));
    assert_eq!(
        reg.lookup(&"8.v".to_string()),
        Err(ServiceError::ModelNotLoaded { project_id: 8 })
    );
    reg.finish_setup(8, Ok(1)).unwrap();
    assert_eq!(reg.lookup(&"8.v".to_string()), Ok(&1));
}

#[test]
fn error_statuses() {
    assert_eq!(ServiceError::InvalidProjectId.status(), 400);
    assert_eq!(ServiceError::ModelNotLoaded { project_id: 1 }.status(), 404);
    assert_eq!(ServiceError::ModelNotFound { project_id: 1 }.status(), 404);
    assert_eq!(ServiceError::ModelLoad { project_id: 1 }.status(), 500);
    assert_eq!(ServiceError::ImageDecode.status(), 400);
}
