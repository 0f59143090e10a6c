use bidir_event::error::SkiaError;

#[test]
fn skia_error_messages() {
    let invalid_target = SkiaError::InvalidTarget(String::from("window"));
    assert_eq!(invalid_target.message(), "the OpenGL target `window` is invalid");
    let invalid_context = SkiaError::InvalidContext;
    assert_eq!(invalid_context.message(), "invalid OpenGL context");
}
