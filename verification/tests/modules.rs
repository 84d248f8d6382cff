use ambient_ember::modules::{
    module_base_name, module_log_line, module_pairing_name, pair_modules, LogLevel, MessageType,
    Target,
};

#[test]
fn base_names_drop_the_target_and_underscores() {
    assert_eq!(module_base_name("client", "client_module"), "module");
    assert_eq!(module_base_name("client", "module_client"), "module");
    assert_eq!(module_base_name("client", "module"), "module");
    assert_eq!(module_base_name("server", "__x__"), "x");
    assert_eq!(module_base_name("server", "server"), "");
    assert_eq!(module_base_name("client", "clientclient"), "client");
}

#[test]
fn pairing_names_come_from_file_stems() {
    assert_eq!(
        module_pairing_name(Target::Client, "client/client_game.wasm"),
        Some("game".to_string())
    );
    assert_eq!(
        module_pairing_name(Target::Server, "server/game_server.wasm"),
        Some("game".to_string())
    );
    assert_eq!(module_pairing_name(Target::Server, "server/.."), None);
}

#[test]
fn modules_pair_with_their_counterparts() {
    let entries = vec![
        (Target::Client, "game".to_string(), 1u128),
        (Target::Client, "ui".to_string(), 2u128),
        (Target::Server, "game".to_string(), 3u128),
        (Target::Server, "physics".to_string(), 4u128),
    ];
    let mut pairs = pair_modules(&entries);
    pairs.sort();
    assert_eq!(pairs, vec![(1, 3), (3, 1)]);
}

#[test]
fn later_modules_replace_earlier_ones() {
    let entries = vec![
        (Target::Client, "game".to_string(), 1u128),
        (Target::Server, "game".to_string(), 3u128),
        (Target::Client, "game".to_string(), 5u128),
    ];
    let mut pairs = pair_modules(&entries);
    pairs.sort();
    assert_eq!(pairs, vec![(3, 5), (5, 3)]);
}

#[test]
fn module_messages_become_log_lines() {
    assert_eq!(
        module_log_line("game", MessageType::Stdout, "hello\n"),
        (LogLevel::Info, "[game] stdout: hello".to_string())
    );
    assert_eq!(
        module_log_line("game", MessageType::Error, "bad\n\n"),
        (LogLevel::Error, "[game] error: bad\n".to_string())
    );
    assert_eq!(
        module_log_line("m", MessageType::Warn, "w"),
        (LogLevel::Warn, "[m] warn: w".to_string())
    );
    assert_eq!(
        module_log_line("m", MessageType::Info, ""),
        (LogLevel::Info, "[m] info: ".to_string())
    );
    assert_eq!(
        module_log_line("m", MessageType::Stderr, "e"),
        (LogLevel::Info, "[m] stderr: e".to_string())
    );
}
