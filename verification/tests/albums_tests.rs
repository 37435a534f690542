use mpdox::albums::{
    AlbumsScreen, CurrentPosition, Effect, KeyHandleResult, LogicError, Position, Song,
};
use mpdox::client::{encode_command, tag_values};
use mpdox::codec::{decode, Reply};
use mpdox::config::{KeyConfig, KeyConfigFile};
use mpdox::dirstack::Entry;
use mpdox::keys::{Key, KeyCode, MODIFIER_NONE};

fn lines(xs: &[&str]) -> Vec<Vec<u8>> {
    xs.iter().map(|s| s.as_bytes().to_vec()).collect()
}

fn key(c: u8) -> Key {
    Key { key: KeyCode::Char(c), modifiers: MODIFIER_NONE }
}

fn binds() -> KeyConfig {
    KeyConfig::from(KeyConfigFile::default())
}

fn records_of(reply: &[&str]) -> Vec<Vec<mpdox::codec::Field>> {
    match decode(&lines(reply)).unwrap() {
        Reply::Records(rs) => rs,
        _ => panic!("expected records"),
    }
}

#[test]
fn end_to_end_album_browse_scenario() {
    let kb = binds();
    let mut screen = AlbumsScreen::new();

    // Connect and list distinct album values; the server answers two.
    let cmd = screen.album_list_command();
    assert_eq!(encode_command(&cmd), b"list album".to_vec());
    let values = tag_values(&records_of(&["Album: A", "Album: B", "OK"]));
    assert!(screen.apply_album_list(&values));

    // The root level holds two container entries, selection on "A".
    assert_eq!(screen.stack.levels.len(), 1);
    let top = screen.stack.current();
    assert_eq!(top.entries.len(), 2);
    assert!(matches!(&top.entries[0], Entry::Dir(n) if n == &b"A".to_vec()));
    assert!(matches!(&top.entries[1], Entry::Dir(n) if n == &b"B".to_vec()));
    assert_eq!(screen.stack.get_selected(), Some(0));
    assert!(matches!(screen.position, CurrentPosition::Album(_)));

    // Descend on "A": the handler asks for the titles of album A.
    let out = screen.handle_action(key(b'l'), &kb, 10).unwrap();
    assert_eq!(out.result, KeyHandleResult::RenderRequested);
    let (fetch, value) = match out.effect {
        Effect::Descend { command, value } => (command, value),
        _ => panic!("expected a descend effect"),
    };
    assert_eq!(value, b"A".to_vec());
    assert_eq!(encode_command(&fetch), b"list title album A".to_vec());

    // The server answers two songs; the pushed level holds two leaves and
    // the position steps to the song scope.
    let titles = tag_values(&records_of(&["Title: s1", "Title: s2", "OK"]));
    let p = Position { values: mpdox::albums::Album };
    let entries = p.interpret_fetch(&titles);
    screen.complete_descend(value, entries);
    assert_eq!(screen.stack.levels.len(), 2);
    let top = screen.stack.current();
    assert_eq!(top.entries.len(), 2);
    assert!(matches!(&top.entries[0], Entry::Song(n) if n == &b"s1".to_vec()));
    assert_eq!(screen.stack.get_selected(), Some(0));
    assert!(
        matches!(&screen.position, CurrentPosition::Song(p) if p.values.album == b"A".to_vec())
    );

    // Ascend: pop back to the album scope with "A" still selected.
    let out = screen.handle_action(key(b'h'), &kb, 10).unwrap();
    assert_eq!(out.result, KeyHandleResult::RenderRequested);
    assert!(matches!(out.effect, Effect::PreparePreview));
    assert_eq!(screen.stack.levels.len(), 1);
    assert_eq!(screen.stack.get_selected(), Some(0));
    assert!(matches!(screen.position, CurrentPosition::Album(_)));
    assert!(
        matches!(screen.stack.current().entries.get(0), Some(Entry::Dir(n)) if n == &b"A".to_vec())
    );
}

#[test]
fn descend_at_song_scope_enqueues_with_message() {
    let kb = binds();
    let mut screen = AlbumsScreen::new();
    let values = vec![b"A".to_vec()];
    assert!(screen.apply_album_list(&values));
    let out = screen.handle_action(key(b'l'), &kb, 10).unwrap();
    let value = match out.effect {
        Effect::Descend { value, .. } => value,
        _ => panic!("expected a descend effect"),
    };
    let titles = vec![b"One".to_vec(), b"Two".to_vec()];
    let p = Position { values: mpdox::albums::Album };
    screen.complete_descend(value, p.interpret_fetch(&titles));

    let out = screen.handle_action(key(b'l'), &kb, 10).unwrap();
    match out.effect {
        Effect::Enqueue { command, message } => {
            assert_eq!(encode_command(&command), b"findadd title One album A".to_vec());
            assert_eq!(message, b"'One' from album 'A' added to queue".to_vec());
        }
        _ => panic!("expected an enqueue effect"),
    }
    assert!(
        matches!(&screen.position, CurrentPosition::Song(p) if p.values.album == b"A".to_vec())
    );
}

#[test]
fn empty_album_list_changes_nothing() {
    let mut screen = AlbumsScreen::new();
    let values: Vec<Vec<u8>> = Vec::new();
    assert!(!screen.apply_album_list(&values));
    assert_eq!(screen.stack.current().entries.len(), 0);
}

#[test]
fn descend_without_selection_is_a_logic_error() {
    let kb = binds();
    let mut screen = AlbumsScreen::new();
    assert_eq!(screen.handle_action(key(b'l'), &kb, 10).unwrap_err(), LogicError::NoSelection);
    assert_eq!(screen.preview_command().unwrap_err(), LogicError::NoSelection);
}

#[test]
fn preview_command_follows_the_position() {
    let mut screen = AlbumsScreen::new();
    assert!(screen.apply_album_list(&vec![b"A".to_vec()]));
    assert_eq!(
        encode_command(&screen.preview_command().unwrap()),
        b"list title album A".to_vec()
    );
    let p = Position { values: mpdox::albums::Album };
    screen.complete_descend(b"A".to_vec(), p.interpret_fetch(&vec![b"One".to_vec()]));
    assert_eq!(
        encode_command(&screen.preview_command().unwrap()),
        b"find title One album A".to_vec()
    );
}

#[test]
fn superseded_preview_results_are_discarded() {
    let mut screen = AlbumsScreen::new();
    assert!(screen.apply_album_list(&vec![b"A".to_vec()]));
    let old_ticket = screen.issue_preview();
    let new_ticket = screen.issue_preview();
    // A newer prefetch was issued: the older result must not land.
    assert!(!screen.apply_preview(old_ticket, vec![Entry::Song(b"stale".to_vec())]));
    assert_eq!(screen.stack.current().preview.len(), 0);
    assert!(screen.apply_preview(new_ticket, vec![Entry::Song(b"fresh".to_vec())]));
    assert_eq!(screen.stack.current().preview.len(), 1);
}

#[test]
fn filter_mode_captures_raw_keys() {
    let kb = binds();
    let mut screen = AlbumsScreen::new();
    assert!(screen.apply_album_list(&vec![b"Abbey Road".to_vec(), b"Bad".to_vec()]));

    // Enter search mode: an empty filter is active, keys edit it.
    let out = screen.handle_action(key(b'/'), &kb, 10).unwrap();
    assert_eq!(out.result, KeyHandleResult::RenderRequested);
    assert!(screen.filter_input_mode);
    assert_eq!(screen.stack.current().filter, Some(Vec::new()));

    // In filter mode even a bound key is raw input.
    screen.handle_action(key(b'B'), &kb, 10).unwrap();
    screen.handle_action(key(b'a'), &kb, 10).unwrap();
    screen.handle_action(key(b'x'), &kb, 10).unwrap();
    assert_eq!(screen.stack.current().filter, Some(b"Bax".to_vec()));
    let out = screen
        .handle_action(Key { key: KeyCode::Backspace, modifiers: MODIFIER_NONE }, &kb, 10)
        .unwrap();
    assert_eq!(out.result, KeyHandleResult::RenderRequested);
    assert_eq!(screen.stack.current().filter, Some(b"Ba".to_vec()));

    // Enter commits: mode ends and the selection jumps to the match.
    screen
        .handle_action(Key { key: KeyCode::Enter, modifiers: MODIFIER_NONE }, &kb, 10)
        .unwrap();
    assert!(!screen.filter_input_mode);
    assert_eq!(screen.stack.get_selected(), Some(1));

    // Escape clears the filter entirely.
    screen.handle_action(key(b'/'), &kb, 10).unwrap();
    let out = screen
        .handle_action(Key { key: KeyCode::Esc, modifiers: MODIFIER_NONE }, &kb, 10)
        .unwrap();
    assert_eq!(out.result, KeyHandleResult::RenderRequested);
    assert!(!screen.filter_input_mode);
    assert_eq!(screen.stack.current().filter, None);
}

#[test]
fn navigation_keys_move_and_request_previews() {
    let kb = binds();
    let mut screen = AlbumsScreen::new();
    assert!(screen.apply_album_list(&vec![b"A".to_vec(), b"B".to_vec(), b"C".to_vec()]));
    let out = screen.handle_action(key(b'j'), &kb, 10).unwrap();
    assert!(matches!(out.effect, Effect::PreparePreview));
    assert_eq!(screen.stack.get_selected(), Some(1));
    screen.handle_action(key(b'k'), &kb, 10).unwrap();
    assert_eq!(screen.stack.get_selected(), Some(0));
    let out = screen.handle_action(key(b'z'), &kb, 10).unwrap();
    assert_eq!(out.result, KeyHandleResult::KeyNotHandled);

    let s = Position { values: Song { album: b"A".to_vec() } };
    let record = &records_of(&["Title: One", "Artist: X", "OK"])[0];
    let preview = s.interpret_fetch(record);
    assert_eq!(preview.len(), 2);
    assert!(matches!(&preview[0], Entry::Song(n) if n == &b"Title: One".to_vec()));
}
