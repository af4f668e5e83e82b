use seedling::context::SeedlingContextError;

#[test]
fn context_error_displays_its_message() {
    let error = SeedlingContextError::new(String::from("stream stopped"));
    assert_eq!(error.to_string(), "stream stopped");
}
