use seedling::error::SeedlingError;
use seedling::param::PatchError;

#[test]
fn patch_error_message() {
    let error = SeedlingError::PatchError { ty: "VolumeNode", error: PatchError::InvalidData };
    assert_eq!(error.to_string(), "Failed to apply audio patch to `VolumeNode`: InvalidData");
}

#[test]
fn connection_error_message() {
    let error = SeedlingError::ConnectionError {
        source: 1,
        dest: 2,
        error: String::from("cycle detected"),
    };
    assert_eq!(error.to_string(), "Failed to connect audio nodes: cycle detected");
}

#[test]
fn missing_effect_message() {
    let error = SeedlingError::MissingEffect { empty_entity: 3 };
    assert_eq!(error.to_string(), "Expected audio node in `SampleEffects` relationship");
}
