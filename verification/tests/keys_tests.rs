use mpdox::actions::{
    AlbumsActions, CommonAction, GlobalAction, LogsActions, QueueActions, ResolvedAction, resolve,
};
use mpdox::config::{Config, ConfigError, ConfigFile, KeyConfig, KeyConfigFile};
use mpdox::keys::{
    invert_map, lookup, merge_bindings, Key, KeyCode, MODIFIER_CONTROL, MODIFIER_NONE,
    MODIFIER_SHIFT,
};

fn key(c: u8) -> Key {
    Key { key: KeyCode::Char(c), modifiers: MODIFIER_NONE }
}

#[test]
fn lookup_takes_the_last_binding_for_a_key() {
    let t = vec![(key(b'q'), 1u32), (key(b'w'), 2u32), (key(b'q'), 3u32)];
    assert_eq!(lookup(&t, key(b'q')), Some(3));
    assert_eq!(lookup(&t, key(b'w')), Some(2));
    assert_eq!(lookup(&t, key(b'x')), None);
}

#[test]
fn invert_map_flattens_rows_in_order() {
    let m = vec![
        (GlobalAction::Quit, vec![key(b'q')]),
        (GlobalAction::Stop, vec![key(b's'), key(b'S')]),
    ];
    let t = invert_map(&m);
    assert_eq!(t.len(), 3);
    assert_eq!(t[0], (key(b'q'), GlobalAction::Quit));
    assert_eq!(t[1], (key(b's'), GlobalAction::Stop));
    assert_eq!(t[2], (key(b'S'), GlobalAction::Stop));
}

#[test]
fn user_bindings_replace_defaults_for_the_exact_pair() {
    let defaults = vec![(key(b'q'), GlobalAction::Quit), (key(b'p'), GlobalAction::TogglePause)];
    let user = vec![(key(b'q'), GlobalAction::Stop)];
    let merged = merge_bindings(&defaults, &user);
    assert_eq!(lookup(&merged, key(b'q')), Some(GlobalAction::Stop));
    assert_eq!(lookup(&merged, key(b'p')), Some(GlobalAction::TogglePause));
}

#[test]
fn resolve_prefers_screen_over_global() {
    // The same key deliberately bound in the screen table and the global
    // table: the screen-specific action wins.
    let screen = vec![(key(b'x'), AlbumsActions::Noop)];
    let navigation: Vec<(Key, CommonAction)> = Vec::new();
    let global = vec![(key(b'x'), GlobalAction::Quit)];
    assert_eq!(
        resolve(&screen, &navigation, &global, key(b'x')),
        ResolvedAction::Screen(AlbumsActions::Noop)
    );
}

#[test]
fn resolve_prefers_navigation_over_global() {
    let screen: Vec<(Key, AlbumsActions)> = Vec::new();
    let navigation = vec![(key(b'x'), CommonAction::Down)];
    let global = vec![(key(b'x'), GlobalAction::Quit)];
    assert_eq!(
        resolve(&screen, &navigation, &global, key(b'x')),
        ResolvedAction::Common(CommonAction::Down)
    );
}

#[test]
fn resolve_falls_back_to_global_then_unhandled() {
    let screen: Vec<(Key, AlbumsActions)> = Vec::new();
    let navigation: Vec<(Key, CommonAction)> = Vec::new();
    let global = vec![(key(b'q'), GlobalAction::Quit)];
    assert_eq!(
        resolve(&screen, &navigation, &global, key(b'q')),
        ResolvedAction::Global(GlobalAction::Quit)
    );
    assert_eq!(
        resolve(&screen, &navigation, &global, key(b'z')),
        ResolvedAction::<AlbumsActions>::Unhandled
    );
}

#[test]
fn default_bindings_hold_the_documented_keys() {
    let kc = KeyConfig::from(KeyConfigFile::default());
    assert_eq!(lookup(&kc.global, key(b'q')), Some(GlobalAction::Quit));
    assert_eq!(lookup(&kc.global, key(b'p')), Some(GlobalAction::TogglePause));
    assert_eq!(
        lookup(&kc.global, Key { key: KeyCode::Right, modifiers: MODIFIER_NONE }),
        Some(GlobalAction::NextTab)
    );
    assert_eq!(lookup(&kc.navigation, key(b'k')), Some(CommonAction::Up));
    assert_eq!(lookup(&kc.navigation, key(b'j')), Some(CommonAction::Down));
    assert_eq!(lookup(&kc.navigation, key(b'l')), Some(CommonAction::Right));
    assert_eq!(lookup(&kc.navigation, key(b'/')), Some(CommonAction::EnterSearch));
    // Close is reachable both by control-c and escape.
    assert_eq!(
        lookup(&kc.navigation, Key { key: KeyCode::Char(b'c'), modifiers: MODIFIER_CONTROL }),
        Some(CommonAction::Close)
    );
    assert_eq!(
        lookup(&kc.navigation, Key { key: KeyCode::Esc, modifiers: MODIFIER_NONE }),
        Some(CommonAction::Close)
    );
    assert_eq!(
        lookup(&kc.navigation, Key { key: KeyCode::Char(b'G'), modifiers: MODIFIER_SHIFT }),
        Some(CommonAction::Bottom)
    );
    assert_eq!(
        lookup(&kc.logs, Key { key: KeyCode::Char(b'D'), modifiers: MODIFIER_SHIFT }),
        Some(LogsActions::Clear)
    );
    assert_eq!(
        lookup(&kc.queue, Key { key: KeyCode::Enter, modifiers: MODIFIER_NONE }),
        Some(QueueActions::Play)
    );
    assert_eq!(lookup(&kc.albums, key(b'q')), None);
}

#[test]
fn default_config_file_values() {
    let f = ConfigFile::default();
    assert_eq!(f.address, b"127.0.0.1:6600".to_vec());
    assert_eq!(f.volume_step, 5);
    assert_eq!(f.status_update_interval_ms, Some(1000));
    assert_eq!(f.keybinds.global.len(), 15);
    assert_eq!(f.keybinds.navigation.len(), 20);
    assert_eq!(f.keybinds.albums.len(), 0);
    assert_eq!(f.keybinds.queue.len(), 5);
}

#[test]
fn config_conversion_clamps_interval_and_keeps_address() {
    let mut f = ConfigFile::default();
    f.status_update_interval_ms = Some(50);
    let c = Config::try_from(f).unwrap();
    assert_eq!(c.address, b"127.0.0.1:6600".to_vec());
    assert_eq!(c.status_update_interval_ms, Some(100));
    assert_eq!(c.volume_step, 5);
}

#[test]
fn config_conversion_rejects_empty_address() {
    let mut f = ConfigFile::default();
    f.address = Vec::new();
    assert_eq!(Config::try_from(f).unwrap_err(), ConfigError::EmptyAddress);
}
