use ambient_ember::asset::{asset_file_location, ok_wrap};
use ambient_ember::paths::FileLocation;

#[test]
fn ok_wrap_calls_once_and_wraps() {
    let mut calls = 0;
    let r = ok_wrap(|| {
        calls += 1;
        calls * 10
    });
    assert_eq!(r.unwrap(), 10);
    assert_eq!(calls, 1);
}

#[test]
fn assets_live_under_the_assets_directory() {
    let urls = vec![("game".to_string(), "https://cdn/game".to_string())];
    assert_eq!(
        asset_file_location(&urls, "game", "models/a.glb"),
        FileLocation::Url("https://cdn/game/assets/models/a.glb".to_string())
    );
    assert_eq!(
        asset_file_location(&urls, "other", "a.png"),
        FileLocation::AssetKey("assets/a.png".to_string())
    );
}
