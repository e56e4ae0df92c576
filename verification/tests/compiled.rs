use mdbook_nvim_treesitter::query::compiled::{role_of, CaptureRole};

#[test]
fn classifies_capture_names() {
    assert_eq!(
        role_of("keyword.function"),
        CaptureRole::Group("keyword.function".into())
    );
    assert_eq!(role_of("none"), CaptureRole::Cleared);
    assert_eq!(role_of("_helper"), CaptureRole::Ignored);
    assert_eq!(role_of("spell"), CaptureRole::Ignored);
    assert_eq!(role_of("nospell"), CaptureRole::Ignored);
    assert_eq!(role_of("conceal"), CaptureRole::Ignored);
    assert_eq!(role_of("injection.content"), CaptureRole::Ignored);
}
