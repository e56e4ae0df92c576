use mdbook_nvim_treesitter::store::platform::release_platform;

#[test]
fn release_slugs_name_the_system_then_the_architecture() {
    assert_eq!(release_platform("linux", "x86_64").as_deref(), Some("linux-x64"));
    assert_eq!(release_platform("linux", "aarch64").as_deref(), Some("linux-arm64"));
    assert_eq!(release_platform("macos", "aarch64").as_deref(), Some("macos-arm64"));
    assert_eq!(release_platform("windows", "x86_64").as_deref(), Some("windows-x64"));
}

#[test]
fn other_platforms_have_no_prebuilt_cli() {
    assert_eq!(release_platform("freebsd", "x86_64"), None);
    assert_eq!(release_platform("linux", "riscv64"), None);
}
