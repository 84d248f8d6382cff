use ambient_ember::manifest::{
    check_manifest_source, Build, BuildRust, Category, Dependency, Ember, EmberType,
    ManifestParseError,
};

#[test]
fn will_fail_on_legacy_project_toml() {
    const TOML: &str = r#"
        [project]
        id = "test"
        name = "Test"
        version = "0.0.1"
        "#;
    assert_eq!(
        check_manifest_source(TOML),
        Err(ManifestParseError::ProjectRenamedToEmberError)
    );
}

#[test]
fn minimal_manifest_passes_the_check() {
    const TOML: &str = r#"
        [ember]
        id = "test"
        name = "Test"
        version = "0.0.1"
        "#;
    assert_eq!(check_manifest_source(TOML), Ok(()));
}

#[test]
fn project_key_inside_a_section_is_not_legacy() {
    const TOML: &str = r#"
        [ember]
        id = "test"
        project = "not a section"
        "#;
    assert_eq!(check_manifest_source(TOML), Ok(()));
}

#[test]
fn invalid_toml_is_refused() {
    let res = check_manifest_source("[ember\nid = ");
    assert!(matches!(res, Err(ManifestParseError::TomlError(_))));
}

#[test]
fn build_rust_defaults_to_client_and_server() {
    let b = BuildRust::default();
    assert_eq!(
        b.feature_multibuild,
        vec!["client".to_string(), "server".to_string()]
    );
    let build = Build::default();
    assert_eq!(build.rust, b);
}

#[test]
fn ember_type_defaults_to_game() {
    assert_eq!(EmberType::default(), EmberType::Game);
    assert_ne!(EmberType::Mod, EmberType::Game);
}

#[test]
fn display_name_prefers_the_name() {
    let mut ember = Ember {
        id: "tictactoe".to_string(),
        ..Default::default()
    };
    assert_eq!(ember.display_name(), "tictactoe");
    ember.name = Some("Tic Tac Toe".to_string());
    assert_eq!(ember.display_name(), "Tic Tac Toe");
    ember.categories.push(Category::Example);
    assert_eq!(ember.categories, vec![Category::Example]);
}

#[test]
fn dependencies_hold_their_path() {
    let d = Dependency::Path {
        path: "deps/assets".to_string(),
    };
    assert_eq!(
        d,
        Dependency::Path {
            path: "deps/assets".to_string()
        }
    );
}
