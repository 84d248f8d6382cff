use ambient_ember::paths::{
    classify_project_path, component_paths, ember_file_location, file_extension, file_name,
    file_stem, has_extension, has_prefix, has_suffix, import_kind, join_path, FileLocation,
    ImportKind, ProjectPathSource,
};

#[test]
fn joining_paths_follows_path_join() {
    assert_eq!(join_path("build", "ember"), "build/ember");
    assert_eq!(join_path("build/", "ember"), "build/ember");
    assert_eq!(join_path("", "ember"), "ember");
    assert_eq!(join_path("build", "/abs"), "/abs");
    assert_eq!(join_path("..", "deps"), "../deps");
}

#[test]
fn prefixes_and_suffixes() {
    assert!(has_prefix("https://x", "https://"));
    assert!(!has_prefix("http", "https://"));
    assert!(has_suffix("module_client", "client"));
    assert!(!has_suffix("client_module", "client"));
}

#[test]
fn extensions_follow_path_extension() {
    assert!(has_extension("a.wasm", "wasm"));
    assert!(has_extension("a.b.wasm", "wasm"));
    assert!(!has_extension(".wasm", "wasm"));
    assert!(!has_extension("wasm", "wasm"));
    assert!(!has_extension("a.wasmx", "wasm"));
    assert!(has_extension("a.", ""));
    assert!(!has_extension("..", ""));
}

#[test]
fn component_paths_keep_wasm_files_in_order() {
    let names = vec![
        "server.wasm".to_string(),
        "notes.txt".to_string(),
        ".wasm".to_string(),
        "extra.wasm".to_string(),
    ];
    assert_eq!(
        component_paths("client", &names),
        vec!["client/server.wasm".to_string(), "client/extra.wasm".to_string()]
    );
    assert_eq!(component_paths("server", &vec![]), Vec::<String>::new());
}

#[test]
fn project_paths_are_classified() {
    assert_eq!(
        classify_project_path(Some("https://example.com/p".to_string())),
        ProjectPathSource::Url("https://example.com/p".to_string())
    );
    assert_eq!(
        classify_project_path(Some("http://example.com/p".to_string())),
        ProjectPathSource::Url("http://example.com/p".to_string())
    );
    assert_eq!(
        classify_project_path(Some("file:/tmp/p".to_string())),
        ProjectPathSource::Url("file:/tmp/p".to_string())
    );
    assert_eq!(
        classify_project_path(Some("guest/rust".to_string())),
        ProjectPathSource::Local("guest/rust".to_string())
    );
    assert_eq!(classify_project_path(None), ProjectPathSource::CurrentDirectory);
}

#[test]
fn ember_files_are_located_under_their_url() {
    let urls = vec![
        ("game".to_string(), "https://assets.example/game".to_string()),
        ("other".to_string(), "https://assets.example/other".to_string()),
    ];
    assert_eq!(
        ember_file_location(&urls, "game", "assets/a.png"),
        FileLocation::Url("https://assets.example/game/assets/a.png".to_string())
    );
    assert_eq!(
        ember_file_location(&urls, "missing", "assets/a.png"),
        FileLocation::AssetKey("assets/a.png".to_string())
    );
}

#[test]
fn file_names_and_stems_follow_path() {
    assert_eq!(file_name("client/module.wasm"), Some("module.wasm".to_string()));
    assert_eq!(file_name("client/module.wasm/"), Some("module.wasm".to_string()));
    assert_eq!(file_name("a/."), Some("a".to_string()));
    assert_eq!(file_name("a/.."), None);
    assert_eq!(file_name("/"), None);
    assert_eq!(file_name(""), None);
    assert_eq!(file_stem("client/module.wasm"), Some("module".to_string()));
    assert_eq!(file_stem("client/a.b.wasm"), Some("a.b".to_string()));
    assert_eq!(file_stem("client/.hidden"), Some(".hidden".to_string()));
    assert_eq!(file_stem("plain"), Some("plain".to_string()));
    for p in ["client/module.wasm", "a/.", "x/y/", ".hidden", "a.b.c", "..", "a/..", "/"] {
        let path = std::path::Path::new(p);
        assert_eq!(
            file_stem(p),
            path.file_stem().map(|s| s.to_string_lossy().to_string()),
            "{p}"
        );
    }
}

#[test]
fn imports_are_classified_by_extension() {
    assert_eq!(import_kind("sounds/ping.wav"), ImportKind::Audio);
    assert_eq!(import_kind("music.ogg"), ImportKind::Audio);
    assert_eq!(import_kind("models/ship.glb"), ImportKind::Model);
    assert_eq!(import_kind("ship.gltf"), ImportKind::Model);
    assert_eq!(import_kind("tex/a.webp"), ImportKind::Texture);
    assert_eq!(import_kind("notes.txt"), ImportKind::Unsupported);
    assert_eq!(import_kind("Makefile"), ImportKind::Unknown);
    assert_eq!(import_kind(".wav"), ImportKind::Unknown);
    assert_eq!(file_extension("a.tar.gz"), Some("gz".to_string()));
    assert_eq!(file_extension("a."), Some("".to_string()));
    assert_eq!(file_extension(".bashrc"), None);
}
