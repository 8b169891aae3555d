use bevy_editor::install::{
    assets_repo, descriptor_url, join_path, repository_dir, select_source, templates_dir, Asset,
    TemplateSource, BEVY_ASSETS_REPO, BEVY_TEMPLATE_DIR, DEFAULT_BEVY_ASSETS_REPO,
};

#[test]
fn the_names_of_the_environment_variables() {
    assert_eq!(BEVY_TEMPLATE_DIR, "BEVY_TEMPLATE_DIR");
    assert_eq!(BEVY_ASSETS_REPO, "BEVY_ASSETS_REPO");
}

#[test]
fn the_template_directory_can_be_overridden() {
    assert_eq!(
        templates_dir(Some("/tmp/t".to_string()), Some("/home/u/.local/share/bevy".to_string())),
        Some("/tmp/t".to_string())
    );
    assert_eq!(
        templates_dir(None, Some("/home/u/.local/share/bevy".to_string())),
        Some("/home/u/.local/share/bevy/templates".to_string())
    );
    assert_eq!(templates_dir(Some("/tmp/t".to_string()), None), Some("/tmp/t".to_string()));
    assert_eq!(templates_dir(None, None), None);
}

#[test]
fn the_address_of_descriptors_can_be_overridden() {
    assert_eq!(assets_repo(Some("http://localhost:8000".to_string())), "http://localhost:8000");
    assert_eq!(assets_repo(None), DEFAULT_BEVY_ASSETS_REPO);
    assert_eq!(
        assets_repo(None),
        "https://raw.githubusercontent.com/bevyengine/bevy-assets/main/Assets/Templates"
    );
}

#[test]
fn the_descriptor_of_a_template_lies_below_the_base() {
    assert_eq!(descriptor_url("http://localhost:8000", "platformer"), "http://localhost:8000/platformer.toml");
    assert_eq!(
        descriptor_url(&assets_repo(None), "simple"),
        "https://raw.githubusercontent.com/bevyengine/bevy-assets/main/Assets/Templates/simple.toml"
    );
}

#[test]
fn a_repository_is_tried_before_an_archive() {
    let chosen = Some("simple".to_string());
    assert!(matches!(select_source(&None, "/t", false), TemplateSource::Embedded));
    assert!(matches!(select_source(&None, "/t", true), TemplateSource::Embedded));
    assert!(
        matches!(select_source(&chosen, "/t", true), TemplateSource::Repository(p) if p == "/t/simple")
    );
    assert!(
        matches!(select_source(&chosen, "/t", false), TemplateSource::Archive(p) if p == "/t/simple.zip")
    );
    assert_eq!(repository_dir("/t", "simple"), "/t/simple");
    assert_eq!(join_path("a", "b"), "a/b");
}

#[test]
fn a_descriptor_names_a_template_and_its_repository() {
    let asset = Asset { name: "simple".to_string(), link: "https://example.org/simple.git".to_string() };
    assert_eq!(repository_dir("/cache", &asset.name), "/cache/simple");
    assert_eq!(asset.link, "https://example.org/simple.git");
}
