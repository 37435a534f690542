//! Semantic actions per keybinding scope, and the layered resolver that
//! maps a keypress to an action by consulting the screen-specific table,
//! then the common-navigation table, then the global table, first match
//! winning.

use vstd::prelude::*;

use crate::keys::{lookup, spec_lookup, Key};

verus! {

/// Actions available on every screen.
#[derive(Clone, Copy, Debug, PartialEq, Eq, Hash, Structural)]
pub enum GlobalAction {
    Quit,
    NextTrack,
    PreviousTrack,
    Stop,
    ToggleRepeat,
    ToggleRandom,
    ToggleSingle,
    TogglePause,
    SeekForward,
    SeekBack,
    VolumeDown,
    VolumeUp,
    NextTab,
    PreviousTab,
    ToggleConsume,
}

/// Actions shared by every navigable list screen.
#[derive(Clone, Copy, Debug, PartialEq, Eq, Hash, Structural)]
pub enum CommonAction {
    Up,
    Down,
    MoveUp,
    MoveDown,
    Right,
    Left,
    DownHalf,
    UpHalf,
    Bottom,
    Top,
    EnterSearch,
    NextResult,
    PreviousResult,
    Select,
    Add,
    Delete,
    Rename,
    Close,
    Confirm,
    FocusInput,
}

/// Actions specific to the albums screen. None is bound by default; the
/// inert variant only keeps the scope table typed.
#[derive(Clone, Copy, Debug, PartialEq, Eq, Hash, Structural)]
pub enum AlbumsActions {
    Noop,
}

/// Actions specific to the artists screen. None is bound by default; the
/// inert variant only keeps the scope table typed.
#[derive(Clone, Copy, Debug, PartialEq, Eq, Hash, Structural)]
pub enum ArtistsActions {
    Noop,
}

/// Actions specific to the directories screen. None is bound by default; the
/// inert variant only keeps the scope table typed.
#[derive(Clone, Copy, Debug, PartialEq, Eq, Hash, Structural)]
pub enum DirectoriesActions {
    Noop,
}

/// Actions specific to the playlists screen. None is bound by default; the
/// inert variant only keeps the scope table typed.
#[derive(Clone, Copy, Debug, PartialEq, Eq, Hash, Structural)]
pub enum PlaylistsActions {
    Noop,
}

/// Actions specific to the logs screen.
#[derive(Clone, Copy, Debug, PartialEq, Eq, Hash, Structural)]
pub enum LogsActions {
    Clear,
}

/// Actions specific to the queue screen.
#[derive(Clone, Copy, Debug, PartialEq, Eq, Hash, Structural)]
pub enum QueueActions {
    Delete,
    DeleteAll,
    Play,
    Save,
    AddToPlaylist,
}

/// What a keypress resolved to, by scope, or nothing.
#[derive(Clone, Copy, Debug, PartialEq, Eq, Structural)]
pub enum ResolvedAction<A> {
    Screen(A),
    Common(CommonAction),
    Global(GlobalAction),
    Unhandled,
}

/// What resolution must return: the screen-specific binding when the screen
/// table has one, else the common-navigation binding, else the global
/// binding, else unhandled — later tables are never consulted once a match
/// is found.
pub open spec fn spec_resolve<A>(
    screen: Seq<(Key, A)>,
    navigation: Seq<(Key, CommonAction)>,
    global: Seq<(Key, GlobalAction)>,
    k: Key,
) -> ResolvedAction<A> {
    match spec_lookup(screen, k) {
        Some(a) => ResolvedAction::Screen(a),
        None => match spec_lookup(navigation, k) {
            Some(c) => ResolvedAction::Common(c),
            None => match spec_lookup(global, k) {
                Some(g) => ResolvedAction::Global(g),
                None => ResolvedAction::Unhandled,
            },
        },
    }
}

/// Resolve a keypress against the three scope tables in priority order:
/// screen-specific first, then common navigation, then global. A binding
/// present in both the screen table and the global table resolves to the
/// screen-specific action.
pub fn resolve<A: Copy>(
    screen: &Vec<(Key, A)>,
    navigation: &Vec<(Key, CommonAction)>,
    global: &Vec<(Key, GlobalAction)>,
    k: Key,
) -> (r: ResolvedAction<A>)
    ensures
        r == spec_resolve(screen@, navigation@, global@, k),
{
    match lookup(screen, k) {
        Some(a) => ResolvedAction::Screen(a),
        None => match lookup(navigation, k) {
            Some(c) => ResolvedAction::Common(c),
            None => match lookup(global, k) {
                Some(g) => ResolvedAction::Global(g),
                None => ResolvedAction::Unhandled,
            },
        },
    }
}

} // verus!
