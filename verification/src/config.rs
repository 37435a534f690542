//! Configuration: command-line arguments, the on-file shape of the
//! configuration (actions mapped to key lists), the runtime shape (ordered
//! binding tables from keys to actions), and the default bindings.

use vstd::prelude::*;

use crate::actions::{
    AlbumsActions, ArtistsActions, CommonAction, DirectoriesActions, GlobalAction, LogsActions,
    PlaylistsActions, QueueActions,
};
use crate::keys::{
    invert_map, kv_view, spec_invert, Key, KeyCode, MODIFIER_CONTROL, MODIFIER_NONE,
    MODIFIER_SHIFT,
};

verus! {

/// A logging verbosity level.
#[derive(Clone, Copy, Debug, PartialEq, Eq, Structural)]
pub enum LogLevel {
    Error,
    Warn,
    Info,
    Debug,
    Trace,
}

/// An optional subcommand of the process.
#[derive(Clone, Copy, Debug, PartialEq, Eq, Structural)]
pub enum Command {
    /// Print the default configuration, to bootstrap a config file.
    Config,
}

/// The process arguments: a configuration file path, a log level, and an
/// optional subcommand.
#[derive(Debug)]
pub struct Args {
    pub config: Vec<u8>,
    pub log: LogLevel,
    pub command: Option<Command>,
}

/// A key with no modifiers.
pub open spec fn dkey(c: u8) -> Key {
    Key { key: KeyCode::Char(c), modifiers: MODIFIER_NONE }
}

/// A shifted key.
pub open spec fn skey(c: u8) -> Key {
    Key { key: KeyCode::Char(c), modifiers: MODIFIER_SHIFT }
}

/// A control-modified key.
pub open spec fn ckey(c: u8) -> Key {
    Key { key: KeyCode::Char(c), modifiers: MODIFIER_CONTROL }
}

/// A non-character key with no modifiers.
pub open spec fn nkey(code: KeyCode) -> Key {
    Key { key: code, modifiers: MODIFIER_NONE }
}

/// The default global bindings.
pub open spec fn default_global() -> Seq<(GlobalAction, Seq<Key>)> {
    seq![
        (GlobalAction::Quit, seq![dkey(113)]),
        (GlobalAction::NextTrack, seq![dkey(62)]),
        (GlobalAction::PreviousTrack, seq![dkey(60)]),
        (GlobalAction::Stop, seq![dkey(115)]),
        (GlobalAction::ToggleRepeat, seq![dkey(122)]),
        (GlobalAction::ToggleRandom, seq![dkey(120)]),
        (GlobalAction::ToggleSingle, seq![dkey(99)]),
        (GlobalAction::TogglePause, seq![dkey(112)]),
        (GlobalAction::SeekForward, seq![dkey(102)]),
        (GlobalAction::SeekBack, seq![dkey(98)]),
        (GlobalAction::VolumeDown, seq![dkey(44)]),
        (GlobalAction::VolumeUp, seq![dkey(46)]),
        (GlobalAction::NextTab, seq![nkey(KeyCode::Right)]),
        (GlobalAction::PreviousTab, seq![nkey(KeyCode::Left)]),
        (GlobalAction::ToggleConsume, seq![dkey(118)]),
    ]
}

/// The default common-navigation bindings.
pub open spec fn default_navigation() -> Seq<(CommonAction, Seq<Key>)> {
    seq![
        (CommonAction::Up, seq![dkey(107)]),
        (CommonAction::Down, seq![dkey(106)]),
        (CommonAction::MoveUp, seq![skey(75)]),
        (CommonAction::MoveDown, seq![skey(74)]),
        (CommonAction::Right, seq![dkey(108)]),
        (CommonAction::Left, seq![dkey(104)]),
        (CommonAction::DownHalf, seq![ckey(100)]),
        (CommonAction::UpHalf, seq![ckey(117)]),
        (CommonAction::Bottom, seq![skey(71)]),
        (CommonAction::Top, seq![dkey(103)]),
        (CommonAction::EnterSearch, seq![dkey(47)]),
        (CommonAction::NextResult, seq![ckey(110)]),
        (CommonAction::PreviousResult, seq![skey(78)]),
        (CommonAction::Select, seq![dkey(32)]),
        (CommonAction::Add, seq![dkey(97)]),
        (CommonAction::Delete, seq![skey(68)]),
        (CommonAction::Rename, seq![dkey(114)]),
        (CommonAction::Close, seq![ckey(99), nkey(KeyCode::Esc)]),
        (CommonAction::Confirm, seq![nkey(KeyCode::Enter)]),
        (CommonAction::FocusInput, seq![dkey(105)]),
    ]
}

/// The default logs-screen bindings.
pub open spec fn default_logs() -> Seq<(LogsActions, Seq<Key>)> {
    seq![(LogsActions::Clear, seq![skey(68)])]
}

/// The default queue-screen bindings.
pub open spec fn default_queue() -> Seq<(QueueActions, Seq<Key>)> {
    seq![
        (QueueActions::Delete, seq![dkey(100)]),
        (QueueActions::DeleteAll, seq![skey(68)]),
        (QueueActions::Play, seq![nkey(KeyCode::Enter)]),
        (QueueActions::Save, seq![ckey(115)]),
        (QueueActions::AddToPlaylist, seq![dkey(97)]),
    ]
}

/// One-key binding row.
fn key1(k: Key) -> (r: Vec<Key>)
    ensures
        r@ == seq![k],
{
    let mut v: Vec<Key> = Vec::new();
    v.push(k);
    proof {
        assert(v@ =~= seq![k]);
    }
    v
}

/// Two-key binding row.
fn key2(k1: Key, k2: Key) -> (r: Vec<Key>)
    ensures
        r@ == seq![k1, k2],
{
    let mut v: Vec<Key> = Vec::new();
    v.push(k1);
    v.push(k2);
    proof {
        assert(v@ =~= seq![k1, k2]);
    }
    v
}

/// The on-file shape of the keybindings: per scope, each action mapped to
/// the list of keys bound to it.
#[derive(Debug)]
pub struct KeyConfigFile {
    pub global: Vec<(GlobalAction, Vec<Key>)>,
    pub navigation: Vec<(CommonAction, Vec<Key>)>,
    pub albums: Vec<(AlbumsActions, Vec<Key>)>,
    pub artists: Vec<(ArtistsActions, Vec<Key>)>,
    pub directories: Vec<(DirectoriesActions, Vec<Key>)>,
    pub playlists: Vec<(PlaylistsActions, Vec<Key>)>,
    pub logs: Vec<(LogsActions, Vec<Key>)>,
    pub queue: Vec<(QueueActions, Vec<Key>)>,
}

impl Default for KeyConfigFile {
    /// The default bindings for every scope.
    fn default() -> (r: KeyConfigFile)
        ensures
            kv_view(r.global@) == default_global(),
            kv_view(r.navigation@) == default_navigation(),
            r.albums@.len() == 0,
            r.artists@.len() == 0,
            r.directories@.len() == 0,
            r.playlists@.len() == 0,
            kv_view(r.logs@) == default_logs(),
            kv_view(r.queue@) == default_queue(),
    {
        let mut global: Vec<(GlobalAction, Vec<Key>)> = Vec::new();
        global.push((GlobalAction::Quit, key1(Key { key: KeyCode::Char(113), modifiers: 0 })));
        global.push((GlobalAction::NextTrack, key1(Key { key: KeyCode::Char(62), modifiers: 0 })));
        global.push(
            (GlobalAction::PreviousTrack, key1(Key { key: KeyCode::Char(60), modifiers: 0 })),
        );
        global.push((GlobalAction::Stop, key1(Key { key: KeyCode::Char(115), modifiers: 0 })));
        global.push(
            (GlobalAction::ToggleRepeat, key1(Key { key: KeyCode::Char(122), modifiers: 0 })),
        );
        global.push(
            (GlobalAction::ToggleRandom, key1(Key { key: KeyCode::Char(120), modifiers: 0 })),
        );
        global.push(
            (GlobalAction::ToggleSingle, key1(Key { key: KeyCode::Char(99), modifiers: 0 })),
        );
        global.push(
            (GlobalAction::TogglePause, key1(Key { key: KeyCode::Char(112), modifiers: 0 })),
        );
        global.push(
            (GlobalAction::SeekForward, key1(Key { key: KeyCode::Char(102), modifiers: 0 })),
        );
        global.push((GlobalAction::SeekBack, key1(Key { key: KeyCode::Char(98), modifiers: 0 })));
        global.push((GlobalAction::VolumeDown, key1(Key { key: KeyCode::Char(44), modifiers: 0 })));
        global.push((GlobalAction::VolumeUp, key1(Key { key: KeyCode::Char(46), modifiers: 0 })));
        global.push((GlobalAction::NextTab, key1(Key { key: KeyCode::Right, modifiers: 0 })));
        global.push((GlobalAction::PreviousTab, key1(Key { key: KeyCode::Left, modifiers: 0 })));
        global.push(
            (GlobalAction::ToggleConsume, key1(Key { key: KeyCode::Char(118), modifiers: 0 })),
        );
        proof {
            assert(kv_view(global@) =~~= default_global());
        }
        let mut navigation: Vec<(CommonAction, Vec<Key>)> = Vec::new();
        navigation.push((CommonAction::Up, key1(Key { key: KeyCode::Char(107), modifiers: 0 })));
        navigation.push((CommonAction::Down, key1(Key { key: KeyCode::Char(106), modifiers: 0 })));
        navigation.push((CommonAction::MoveUp, key1(Key { key: KeyCode::Char(75), modifiers: 1 })));
        navigation.push(
            (CommonAction::MoveDown, key1(Key { key: KeyCode::Char(74), modifiers: 1 })),
        );
        navigation.push((CommonAction::Right, key1(Key { key: KeyCode::Char(108), modifiers: 0 })));
        navigation.push((CommonAction::Left, key1(Key { key: KeyCode::Char(104), modifiers: 0 })));
        navigation.push(
            (CommonAction::DownHalf, key1(Key { key: KeyCode::Char(100), modifiers: 2 })),
        );
        navigation.push(
            (CommonAction::UpHalf, key1(Key { key: KeyCode::Char(117), modifiers: 2 })),
        );
        navigation.push((CommonAction::Bottom, key1(Key { key: KeyCode::Char(71), modifiers: 1 })));
        navigation.push((CommonAction::Top, key1(Key { key: KeyCode::Char(103), modifiers: 0 })));
        navigation.push(
            (CommonAction::EnterSearch, key1(Key { key: KeyCode::Char(47), modifiers: 0 })),
        );
        navigation.push(
            (CommonAction::NextResult, key1(Key { key: KeyCode::Char(110), modifiers: 2 })),
        );
        navigation.push(
            (CommonAction::PreviousResult, key1(Key { key: KeyCode::Char(78), modifiers: 1 })),
        );
        navigation.push((CommonAction::Select, key1(Key { key: KeyCode::Char(32), modifiers: 0 })));
        navigation.push((CommonAction::Add, key1(Key { key: KeyCode::Char(97), modifiers: 0 })));
        navigation.push((CommonAction::Delete, key1(Key { key: KeyCode::Char(68), modifiers: 1 })));
        navigation.push((CommonAction::Rename, key1(Key { key: KeyCode::Char(114), modifiers: 0 })));
        navigation.push(
            (
                CommonAction::Close,
                key2(
                    Key { key: KeyCode::Char(99), modifiers: 2 },
                    Key { key: KeyCode::Esc, modifiers: 0 },
                ),
            ),
        );
        navigation.push((CommonAction::Confirm, key1(Key { key: KeyCode::Enter, modifiers: 0 })));
        navigation.push(
            (CommonAction::FocusInput, key1(Key { key: KeyCode::Char(105), modifiers: 0 })),
        );
        proof {
            assert(kv_view(navigation@) =~~= default_navigation());
        }
        let albums: Vec<(AlbumsActions, Vec<Key>)> = Vec::new();
        let artists: Vec<(ArtistsActions, Vec<Key>)> = Vec::new();
        let directories: Vec<(DirectoriesActions, Vec<Key>)> = Vec::new();
        let playlists: Vec<(PlaylistsActions, Vec<Key>)> = Vec::new();
        let mut logs: Vec<(LogsActions, Vec<Key>)> = Vec::new();
        logs.push((LogsActions::Clear, key1(Key { key: KeyCode::Char(68), modifiers: 1 })));
        proof {
            assert(kv_view(logs@) =~~= default_logs());
        }
        let mut queue: Vec<(QueueActions, Vec<Key>)> = Vec::new();
        queue.push((QueueActions::Delete, key1(Key { key: KeyCode::Char(100), modifiers: 0 })));
        queue.push((QueueActions::DeleteAll, key1(Key { key: KeyCode::Char(68), modifiers: 1 })));
        queue.push((QueueActions::Play, key1(Key { key: KeyCode::Enter, modifiers: 0 })));
        queue.push((QueueActions::Save, key1(Key { key: KeyCode::Char(115), modifiers: 2 })));
        queue.push(
            (QueueActions::AddToPlaylist, key1(Key { key: KeyCode::Char(97), modifiers: 0 })),
        );
        proof {
            assert(kv_view(queue@) =~~= default_queue());
        }
        KeyConfigFile { global, navigation, albums, artists, directories, playlists, logs, queue }
    }
}

/// The on-file shape of the configuration.
#[derive(Debug)]
pub struct ConfigFile {
    pub address: Vec<u8>,
    pub volume_step: u8,
    pub status_update_interval_ms: Option<u64>,
    pub keybinds: KeyConfigFile,
}

/// The default server address, `127.0.0.1:6600`.
pub open spec fn default_address() -> Seq<u8> {
    seq![
        49u8, 50u8, 55u8, 46u8, 48u8, 46u8, 48u8, 46u8, 49u8, 58u8, 54u8, 54u8, 48u8, 48u8,
    ]
}

impl Default for ConfigFile {
    /// The default configuration: local server, a five-step volume, a
    /// one-second status refresh, default bindings.
    fn default() -> (r: ConfigFile)
        ensures
            r.address@ == default_address(),
            r.volume_step == 5,
            r.status_update_interval_ms == Some(1000u64),
            kv_view(r.keybinds.global@) == default_global(),
            kv_view(r.keybinds.navigation@) == default_navigation(),
            r.keybinds.albums@.len() == 0,
            r.keybinds.artists@.len() == 0,
            r.keybinds.directories@.len() == 0,
            r.keybinds.playlists@.len() == 0,
            kv_view(r.keybinds.logs@) == default_logs(),
            kv_view(r.keybinds.queue@) == default_queue(),
    {
        let mut address: Vec<u8> = Vec::new();
        address.push(49);
        address.push(50);
        address.push(55);
        address.push(46);
        address.push(48);
        address.push(46);
        address.push(48);
        address.push(46);
        address.push(49);
        address.push(58);
        address.push(54);
        address.push(54);
        address.push(48);
        address.push(48);
        proof {
            assert(address@ =~= default_address());
        }
        ConfigFile {
            address,
            volume_step: 5,
            status_update_interval_ms: Some(1000),
            keybinds: KeyConfigFile::default(),
        }
    }
}

/// The runtime shape of the keybindings: per scope, an ordered binding
/// table from keys to actions, later rows overriding earlier ones.
#[derive(Debug)]
pub struct KeyConfig {
    pub global: Vec<(Key, GlobalAction)>,
    pub navigation: Vec<(Key, CommonAction)>,
    pub albums: Vec<(Key, AlbumsActions)>,
    pub artists: Vec<(Key, ArtistsActions)>,
    pub directories: Vec<(Key, DirectoriesActions)>,
    pub playlists: Vec<(Key, PlaylistsActions)>,
    pub logs: Vec<(Key, LogsActions)>,
    pub queue: Vec<(Key, QueueActions)>,
}

impl KeyConfig {
    /// Invert every scope's action-to-keys rows into its binding table.
    pub fn from(value: KeyConfigFile) -> (r: KeyConfig)
        ensures
            r.global@ == spec_invert(kv_view(value.global@)),
            r.navigation@ == spec_invert(kv_view(value.navigation@)),
            r.albums@ == spec_invert(kv_view(value.albums@)),
            r.artists@ == spec_invert(kv_view(value.artists@)),
            r.directories@ == spec_invert(kv_view(value.directories@)),
            r.playlists@ == spec_invert(kv_view(value.playlists@)),
            r.logs@ == spec_invert(kv_view(value.logs@)),
            r.queue@ == spec_invert(kv_view(value.queue@)),
    {
        KeyConfig {
            global: invert_map(&value.global),
            navigation: invert_map(&value.navigation),
            albums: invert_map(&value.albums),
            artists: invert_map(&value.artists),
            directories: invert_map(&value.directories),
            playlists: invert_map(&value.playlists),
            logs: invert_map(&value.logs),
            queue: invert_map(&value.queue),
        }
    }
}

/// Why a configuration is rejected at startup.
#[derive(Clone, Copy, Debug, PartialEq, Eq, Structural)]
pub enum ConfigError {
    /// The server address is empty; no connection could ever be made.
    EmptyAddress,
}

/// The runtime configuration handed to the protocol client and the key
/// resolver at construction.
#[derive(Debug)]
pub struct Config {
    pub address: Vec<u8>,
    pub volume_step: u8,
    pub keybinds: KeyConfig,
    pub status_update_interval_ms: Option<u64>,
}

impl Config {
    /// Validate and convert the on-file configuration: the address must be
    /// nonempty, the status refresh interval is clamped to at least 100 ms,
    /// and every scope's rows are inverted into binding tables.
    pub fn try_from(value: ConfigFile) -> (r: Result<Config, ConfigError>)
        ensures
            value.address@.len() == 0 <==> r == Err::<Config, ConfigError>(
                ConfigError::EmptyAddress,
            ),
            value.address@.len() > 0 ==> (r matches Ok(c) && c.address@ == value.address@
                && c.volume_step == value.volume_step && c.status_update_interval_ms == (
            match value.status_update_interval_ms {
                Some(v) => Some(if v < 100 { 100u64 } else { v }),
                None => None,
            }) && c.keybinds.global@ == spec_invert(kv_view(value.keybinds.global@))
                && c.keybinds.navigation@ == spec_invert(kv_view(value.keybinds.navigation@))
                && c.keybinds.albums@ == spec_invert(kv_view(value.keybinds.albums@))
                && c.keybinds.artists@ == spec_invert(kv_view(value.keybinds.artists@))
                && c.keybinds.directories@ == spec_invert(kv_view(value.keybinds.directories@))
                && c.keybinds.playlists@ == spec_invert(kv_view(value.keybinds.playlists@))
                && c.keybinds.logs@ == spec_invert(kv_view(value.keybinds.logs@))
                && c.keybinds.queue@ == spec_invert(kv_view(value.keybinds.queue@))),
    {
        if value.address.len() == 0 {
            return Err(ConfigError::EmptyAddress);
        }
        let status_update_interval_ms: Option<u64> = match value.status_update_interval_ms {
            Some(v) => Some(if v < 100 { 100 } else { v }),
            None => None,
        };
        Ok(
            Config {
                address: value.address,
                volume_step: value.volume_step,
                keybinds: KeyConfig::from(value.keybinds),
                status_update_interval_ms,
            },
        )
    }
}

} // verus!
