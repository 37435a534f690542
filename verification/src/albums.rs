//! The albums screen orchestrator: a navigation stack over album containers
//! and their songs, a two-scope position state machine (album scope, then
//! song scope), and the key handler that turns a resolved keypress into
//! stack mutations and requested protocol effects. The handler itself never
//! performs I/O: descending and enqueueing hand a ready command back to the
//! caller, which runs it and feeds the result to the completion methods.

use vstd::prelude::*;

use crate::actions::AlbumsActions;
use crate::actions::CommonAction;
use crate::client::{args_view, find_add_command, find_command, find_verb, findadd_verb,
    filter_args, list_tag_command, list_verb, Command};
use crate::codec::{line_of, Field};
use crate::config::KeyConfig;
use crate::dirstack::{down_half_sel, first_sel, jump_back_sel, jump_forward_sel, last_sel,
    next_sel, prev_sel, up_half_sel, with_filter, with_selected, DirStack, Entry, init_sel};
use crate::keys::{lookup, spec_lookup, Key, KeyCode};
use crate::text::{copy_bytes, push_bytes};

verus! {

/// The album scope: no value chosen yet.
#[derive(Debug)]
pub struct Album;

/// The song scope: the chosen album's name.
#[derive(Debug)]
pub struct Song {
    pub album: Vec<u8>,
}

/// Domain-specific position state for one scope.
#[derive(Debug)]
pub struct Position<T> {
    pub values: T,
}

/// Where the screen currently is in its scope ladder.
#[derive(Debug)]
pub enum CurrentPosition {
    Album(Position<Album>),
    Song(Position<Song>),
}

impl Default for CurrentPosition {
    /// The shallowest scope: albums.
    fn default() -> (r: CurrentPosition)
        ensures
            r is Album,
    {
        CurrentPosition::Album(Position { values: Album })
    }
}

/// The `title` tag.
pub open spec fn title_tag() -> Seq<u8> {
    seq![116u8, 105u8, 116u8, 108u8, 101u8]
}

/// The `album` tag.
pub open spec fn album_tag() -> Seq<u8> {
    seq![97u8, 108u8, 98u8, 117u8, 109u8]
}

/// Build the `title` tag.
fn title_bytes() -> (r: Vec<u8>)
    ensures
        r@ == title_tag(),
{
    let mut v: Vec<u8> = Vec::new();
    v.push(116);
    v.push(105);
    v.push(116);
    v.push(108);
    v.push(101);
    proof {
        assert(v@ =~= title_tag());
    }
    v
}

/// Build the `album` tag.
fn album_bytes() -> (r: Vec<u8>)
    ensures
        r@ == album_tag(),
{
    let mut v: Vec<u8> = Vec::new();
    v.push(97);
    v.push(108);
    v.push(98);
    v.push(117);
    v.push(109);
    proof {
        assert(v@ =~= album_tag());
    }
    v
}

impl Position<Album> {
    /// Descend: the chosen album becomes the song scope's value.
    pub fn next(&mut self, album: Vec<u8>) -> (r: Position<Song>)
        ensures
            r.values.album@ == album@,
    {
        Position { values: Song { album } }
    }

    /// Ascend: stay at the album scope.
    pub fn prev(&mut self) -> (r: Position<Album>)
    {
        Position { values: Album }
    }

    /// The fetch the album scope needs for a chosen value: list the titles
    /// within that album.
    pub fn fetch_command(&self, value: &Vec<u8>) -> (c: Command)
        ensures
            c.verb@ == list_verb(),
            args_view(c.args@) == seq![title_tag(), album_tag(), value@],
    {
        let mut filters: Vec<(Vec<u8>, Vec<u8>)> = Vec::new();
        filters.push((album_bytes(), copy_bytes(value)));
        let tag = title_bytes();
        let c = list_tag_command(&tag, &filters);
        proof {
            assert(filters@.subrange(0, 0) =~= Seq::<(Vec<u8>, Vec<u8>)>::empty());
            assert(filter_args(filters@.subrange(0, 0)) =~= Seq::<Seq<u8>>::empty());
            assert(filters@.drop_last() =~= filters@.subrange(0, 0));
            assert(filter_args(filters@) =~= seq![album_tag(), value@]);
            assert(args_view(c.args@) =~= seq![title_tag(), album_tag(), value@]);
        }
        c
    }

    /// Turn the listed titles into leaf entries for the pushed level.
    pub fn interpret_fetch(&self, values: &Vec<Vec<u8>>) -> (r: Vec<Entry>)
        ensures
            r@.len() == values@.len(),
            forall|i: int|
                0 <= i < r@.len() ==> (#[trigger] r@[i]) is Song && r@[i].spec_value()
                    == values@[i]@,
    {
        songs_of(values)
    }
}

impl Position<Song> {
    /// Descend at the deepest scope: stay at the song scope, same album.
    pub fn next(&mut self) -> (r: Position<Song>)
        ensures
            r.values.album@ == old(self).values.album@,
            final(self).values.album@ == old(self).values.album@,
    {
        Position { values: Song { album: copy_bytes(&self.values.album) } }
    }

    /// Ascend: back to the album scope.
    pub fn prev(&mut self) -> (r: Position<Album>)
    {
        Position { values: Album }
    }

    /// The fetch the song scope needs for a chosen title: the song matching
    /// this title within the chosen album.
    pub fn fetch_command(&self, value: &Vec<u8>) -> (c: Command)
        ensures
            c.verb@ == find_verb(),
            args_view(c.args@) == seq![
                title_tag(), value@, album_tag(), self.values.album@,
            ],
    {
        let mut filters: Vec<(Vec<u8>, Vec<u8>)> = Vec::new();
        filters.push((title_bytes(), copy_bytes(value)));
        filters.push((album_bytes(), copy_bytes(&self.values.album)));
        let c = find_command(&filters);
        proof {
            assert(filters@.subrange(0, 1).drop_last() =~= filters@.subrange(0, 0));
            assert(filter_args(filters@.subrange(0, 0)) =~= Seq::<Seq<u8>>::empty());
            assert(filter_args(filters@.subrange(0, 1)) =~= seq![title_tag(), value@]);
            assert(filters@.drop_last() =~= filters@.subrange(0, 1));
            assert(filter_args(filters@) =~= seq![
                title_tag(), value@, album_tag(), self.values.album@,
            ]);
        }
        c
    }

    /// The enqueue the song scope performs for a chosen title.
    pub fn add_to_queue_command(&self, value: &Vec<u8>) -> (c: Command)
        ensures
            c.verb@ == findadd_verb(),
            args_view(c.args@) == seq![
                title_tag(), value@, album_tag(), self.values.album@,
            ],
    {
        let mut filters: Vec<(Vec<u8>, Vec<u8>)> = Vec::new();
        filters.push((title_bytes(), copy_bytes(value)));
        filters.push((album_bytes(), copy_bytes(&self.values.album)));
        let c = find_add_command(&filters);
        proof {
            assert(filters@.subrange(0, 1).drop_last() =~= filters@.subrange(0, 0));
            assert(filter_args(filters@.subrange(0, 0)) =~= Seq::<Seq<u8>>::empty());
            assert(filter_args(filters@.subrange(0, 1)) =~= seq![title_tag(), value@]);
            assert(filters@.drop_last() =~= filters@.subrange(0, 1));
            assert(filter_args(filters@) =~= seq![
                title_tag(), value@, album_tag(), self.values.album@,
            ]);
        }
        c
    }

    /// Render a fetched song record as preview entries, one `name: value`
    /// line per field.
    pub fn interpret_fetch(&self, record: &Vec<Field>) -> (r: Vec<Entry>)
        ensures
            r@.len() == record@.len(),
            forall|i: int|
                0 <= i < r@.len() ==> (#[trigger] r@[i]) is Song && r@[i].spec_value() == line_of(
                    record@[i]@,
                ),
    {
        let mut r: Vec<Entry> = Vec::new();
        let mut i: usize = 0;
        while i < record.len()
            invariant
                i <= record@.len(),
                r@.len() == i,
                forall|t: int|
                    0 <= t < i ==> (#[trigger] r@[t]) is Song && r@[t].spec_value() == line_of(
                        record@[t]@,
                    ),
            decreases record@.len() - i,
        {
            let fld: &Field = &record[i];
            let mut line = copy_bytes(&fld.name);
            line.push(58);
            line.push(32);
            push_bytes(&mut line, &fld.value);
            proof {
                assert(line@ =~= line_of(record@[i as int]@));
            }
            r.push(Entry::Song(line));
            i = i + 1;
        }
        r
    }
}

/// Container entries from listed album names.
pub fn dirs_of(values: &Vec<Vec<u8>>) -> (r: Vec<Entry>)
    ensures
        r@.len() == values@.len(),
        forall|i: int|
            0 <= i < r@.len() ==> (#[trigger] r@[i]) is Dir && r@[i].spec_value() == values@[i]@,
{
    let mut r: Vec<Entry> = Vec::new();
    let mut i: usize = 0;
    while i < values.len()
        invariant
            i <= values@.len(),
            r@.len() == i,
            forall|t: int|
                0 <= t < i ==> (#[trigger] r@[t]) is Dir && r@[t].spec_value() == values@[t]@,
        decreases values@.len() - i,
    {
        r.push(Entry::Dir(copy_bytes(&values[i])));
        i = i + 1;
    }
    r
}

/// Leaf entries from listed titles.
pub fn songs_of(values: &Vec<Vec<u8>>) -> (r: Vec<Entry>)
    ensures
        r@.len() == values@.len(),
        forall|i: int|
            0 <= i < r@.len() ==> (#[trigger] r@[i]) is Song && r@[i].spec_value() == values@[i]@,
{
    let mut r: Vec<Entry> = Vec::new();
    let mut i: usize = 0;
    while i < values.len()
        invariant
            i <= values@.len(),
            r@.len() == i,
            forall|t: int|
                0 <= t < i ==> (#[trigger] r@[t]) is Song && r@[t].spec_value() == values@[t]@,
        decreases values@.len() - i,
    {
        r.push(Entry::Song(copy_bytes(&values[i])));
        i = i + 1;
    }
    r
}

/// What the key handler asks the caller to render.
#[derive(Clone, Copy, Debug, PartialEq, Eq, Structural)]
pub enum KeyHandleResult {
    RenderRequested,
    SkipRender,
    KeyNotHandled,
}

/// The I/O the caller must perform after a handled key, if any.
#[derive(Debug)]
pub enum Effect {
    /// Nothing to fetch.
    NoEffect,
    /// Recompute the prefetch slot: issue a ticket, run the preview
    /// command, and apply the result.
    PreparePreview,
    /// Run the command, then hand the resulting entries and this album
    /// value to `complete_descend`, then recompute the preview.
    Descend { command: Command, value: Vec<u8> },
    /// Run the command, show the message, then recompute the preview.
    Enqueue { command: Command, message: Vec<u8> },
}

/// The outcome of one handled keypress.
#[derive(Debug)]
pub struct HandleOutcome {
    pub result: KeyHandleResult,
    pub effect: Effect,
}

/// An operation expected state the screen does not have.
#[derive(Clone, Copy, Debug, PartialEq, Eq, Structural)]
pub enum LogicError {
    /// An item was expected to be selected.
    NoSelection,
}

/// The message shown after enqueueing: `'title' from album 'album' added to
/// queue`.
pub open spec fn added_message(title: Seq<u8>, album: Seq<u8>) -> Seq<u8> {
    seq![39u8] + title + seq![
        39u8, 32u8, 102u8, 114u8, 111u8, 109u8, 32u8, 97u8, 108u8, 98u8, 117u8, 109u8, 32u8, 39u8,
    ] + album + seq![
        39u8, 32u8, 97u8, 100u8, 100u8, 101u8, 100u8, 32u8, 116u8, 111u8, 32u8, 113u8, 117u8,
        101u8, 117u8, 101u8,
    ]
}

/// Build the enqueue status message.
fn added_message_bytes(title: &Vec<u8>, album: &Vec<u8>) -> (r: Vec<u8>)
    ensures
        r@ == added_message(title@, album@),
{
    let mut r: Vec<u8> = Vec::new();
    r.push(39);
    push_bytes(&mut r, title);
    r.push(39);
    r.push(32);
    r.push(102);
    r.push(114);
    r.push(111);
    r.push(109);
    r.push(32);
    r.push(97);
    r.push(108);
    r.push(98);
    r.push(117);
    r.push(109);
    r.push(32);
    r.push(39);
    push_bytes(&mut r, album);
    r.push(39);
    r.push(32);
    r.push(97);
    r.push(100);
    r.push(100);
    r.push(101);
    r.push(100);
    r.push(32);
    r.push(116);
    r.push(111);
    r.push(32);
    r.push(113);
    r.push(117);
    r.push(101);
    r.push(117);
    r.push(101);
    proof {
        assert(r@ =~= added_message(title@, album@));
    }
    r
}

/// The stacks differ at most in the top level's value.
pub open spec fn same_but_top(o: DirStack, f: DirStack) -> bool {
    f.levels@ == o.spec_with_top(f.top())
}

/// The top levels agree on everything but selection and filter.
pub open spec fn top_same_content(o: DirStack, f: DirStack) -> bool {
    &&& f.top().entries == o.top().entries
    &&& f.top().offset == o.top().offset
    &&& f.top().preview == o.top().preview
}

/// Only the top level's selection changed, to `s`.
pub open spec fn selection_set(o: DirStack, f: DirStack, s: Option<usize>) -> bool {
    f.levels@ == o.spec_with_top(with_selected(o.top(), s))
}

/// One byte was appended to the top level's filter (or nothing changed
/// without an active filter).
pub open spec fn filter_pushed(o: DirStack, f: DirStack, c: u8) -> bool {
    &&& same_but_top(o, f)
    &&& top_same_content(o, f)
    &&& f.top().selected == o.top().selected
    &&& match o.top().filter {
        Some(fv) => f.top().filter matches Some(g) && g@ == fv@.push(c),
        None => f.top() == o.top(),
    }
}

/// The last byte of the top level's filter was dropped (an empty or absent
/// filter stayed as it was).
pub open spec fn filter_popped(o: DirStack, f: DirStack) -> bool {
    &&& same_but_top(o, f)
    &&& top_same_content(o, f)
    &&& f.top().selected == o.top().selected
    &&& match o.top().filter {
        Some(fv) => f.top().filter matches Some(g) && g@ == if fv@.len() > 0 {
            fv@.drop_last()
        } else {
            fv@
        },
        None => f.top() == o.top(),
    }
}

/// The top level's filter became the empty (but active) filter.
pub open spec fn filter_emptied(o: DirStack, f: DirStack) -> bool {
    &&& same_but_top(o, f)
    &&& top_same_content(o, f)
    &&& f.top().selected == o.top().selected
    &&& f.top().filter matches Some(g) && g@.len() == 0
}

/// One instance of the albums screen.
#[derive(Debug)]
pub struct AlbumsScreen {
    pub stack: DirStack,
    pub position: CurrentPosition,
    pub filter_input_mode: bool,
    /// The ticket of the latest issued prefetch; an older ticket's result is
    /// discarded, so a superseded prefetch is never applied out of order.
    pub preview_epoch: u64,
}

impl Default for AlbumsScreen {
    /// A fresh screen, same as `new`.
    fn default() -> (s: AlbumsScreen)
        ensures
            s.wf(),
            s.stack.depth() == 1,
            s.stack.top().entries@.len() == 0,
            s.position is Album,
            !s.filter_input_mode,
            s.preview_epoch == 0,
    {
        AlbumsScreen::new()
    }
}

impl AlbumsScreen {
    pub open spec fn wf(self) -> bool {
        self.stack.wf()
    }

    /// A fresh screen: an empty root level, album scope, no filter entry
    /// mode.
    pub fn new() -> (s: AlbumsScreen)
        ensures
            s.wf(),
            s.stack.depth() == 1,
            s.stack.top().entries@.len() == 0,
            s.position is Album,
            !s.filter_input_mode,
            s.preview_epoch == 0,
    {
        AlbumsScreen {
            stack: DirStack::new(Vec::new()),
            position: CurrentPosition::Album(Position { values: Album }),
            filter_input_mode: false,
            preview_epoch: 0,
        }
    }

    /// The command that fills the root level: list the distinct album
    /// values.
    pub fn album_list_command(&self) -> (c: Command)
        ensures
            c.verb@ == list_verb(),
            args_view(c.args@) == seq![album_tag()],
    {
        let filters: Vec<(Vec<u8>, Vec<u8>)> = Vec::new();
        let tag = album_bytes();
        let c = list_tag_command(&tag, &filters);
        proof {
            assert(filter_args(filters@) =~= Seq::<Seq<u8>>::empty());
            assert(args_view(c.args@) =~= seq![album_tag()]);
        }
        c
    }

    /// Seed the screen from the listed album values: a fresh root level of
    /// container entries and the album scope. With no values at all nothing
    /// changes and the caller shows its "nothing found" message instead.
    pub fn apply_album_list(&mut self, values: &Vec<Vec<u8>>) -> (shown: bool)
        requires
            old(self).wf(),
        ensures
            final(self).wf(),
            values@.len() == 0 ==> !shown && *final(self) == *old(self),
            values@.len() > 0 ==> shown && final(self).stack.depth() == 1
                && final(self).stack.top().selected == Some(0usize)
                && final(self).stack.top().filter is None
                && final(self).stack.top().entries@.len() == values@.len()
                && (forall|i: int|
                0 <= i < values@.len() ==> (#[trigger] final(self).stack.top().entries@[i]) is Dir
                    && final(self).stack.top().entries@[i].spec_value() == values@[i]@)
                && final(self).position is Album
                && final(self).filter_input_mode == old(self).filter_input_mode
                && final(self).preview_epoch == old(self).preview_epoch,
    {
        if values.len() == 0 {
            return false;
        }
        let entries = dirs_of(values);
        self.stack = DirStack::new(entries);
        self.position = CurrentPosition::Album(Position { values: Album });
        true
    }

    /// The command that recomputes the prefetch slot for the current
    /// selection, or the error when nothing is selected.
    pub fn preview_command(&self) -> (r: Result<Command, LogicError>)
        requires
            self.wf(),
        ensures
            match self.stack.top().selected {
                None => r == Err::<Command, LogicError>(LogicError::NoSelection),
                Some(i) => r matches Ok(c) && {
                    let v = self.stack.top().entries@[i as int].spec_value();
                    match self.position {
                        CurrentPosition::Album(_) => c.verb@ == list_verb() && args_view(c.args@)
                            == seq![title_tag(), album_tag(), v],
                        CurrentPosition::Song(p) => c.verb@ == find_verb() && args_view(c.args@)
                            == seq![title_tag(), v, album_tag(), p.values.album@],
                    }
                },
            },
    {
        let sel = match self.stack.get_selected() {
            None => {
                return Err(LogicError::NoSelection);
            },
            Some(i) => i,
        };
        let current = self.stack.current();
        let value = current.entries[sel].to_current_value();
        match &self.position {
            CurrentPosition::Album(p) => Ok(p.fetch_command(value)),
            CurrentPosition::Song(p) => Ok(p.fetch_command(value)),
        }
    }

    /// Open a prefetch: the ticket that its eventual result must present.
    pub fn issue_preview(&mut self) -> (ticket: u64)
        requires
            old(self).preview_epoch < u64::MAX,
        ensures
            final(self).preview_epoch == old(self).preview_epoch + 1,
            ticket == final(self).preview_epoch,
            final(self).stack == old(self).stack,
            final(self).position == old(self).position,
            final(self).filter_input_mode == old(self).filter_input_mode,
    {
        self.preview_epoch = self.preview_epoch + 1;
        self.preview_epoch
    }

    /// Apply a finished prefetch: only the latest issued ticket lands in the
    /// prefetch slot; a superseded result is discarded unchanged.
    pub fn apply_preview(&mut self, ticket: u64, entries: Vec<Entry>) -> (applied: bool)
        requires
            old(self).wf(),
        ensures
            final(self).wf(),
            ticket != old(self).preview_epoch ==> !applied && *final(self) == *old(self),
            ticket == old(self).preview_epoch ==> applied && final(self).stack.levels@ == old(
                self,
            ).stack.spec_with_top(
                crate::dirstack::with_preview(old(self).stack.top(), entries),
            ) && final(self).position == old(self).position && final(self).filter_input_mode == old(
                self,
            ).filter_input_mode && final(self).preview_epoch == old(self).preview_epoch,
    {
        if ticket != self.preview_epoch {
            return false;
        }
        self.stack.set_preview(entries);
        true
    }

    /// Finish a descent: push the fetched entries as the new top level and
    /// step the position to the song scope of the chosen album.
    pub fn complete_descend(&mut self, album: Vec<u8>, entries: Vec<Entry>)
        requires
            old(self).wf(),
        ensures
            final(self).wf(),
            final(self).stack.depth() == old(self).stack.depth() + 1,
            final(self).stack.levels@.subrange(0, old(self).stack.levels@.len() as int) == old(
                self,
            ).stack.levels@,
            final(self).stack.top().entries == entries,
            final(self).stack.top().selected == init_sel(entries@.len()),
            final(self).stack.top().filter is None,
            final(self).position matches CurrentPosition::Song(p) && p.values.album@ == album@,
            final(self).filter_input_mode == old(self).filter_input_mode,
            final(self).preview_epoch == old(self).preview_epoch,
    {
        self.stack.push(entries);
        self.position = CurrentPosition::Song(Position { values: Song { album } });
    }

    /// Handle one keypress. In filter-entry mode the raw key edits the
    /// filter; otherwise the albums table is consulted first, then the
    /// common-navigation table; an unbound key is handed back unhandled.
    /// Pure mutations happen here; fetches come back as effects.
    pub fn handle_action(&mut self, event: Key, keybinds: &KeyConfig, viewport_height: usize) -> (r:
        Result<HandleOutcome, LogicError>)
        requires
            old(self).wf(),
        ensures
            final(self).wf(),
            spec_handle_holds(*old(self), *final(self), event, *keybinds, viewport_height, r),
    {
        if self.filter_input_mode {
            match event.key {
                KeyCode::Char(c) => {
                    self.stack.filter_push(c);
                    Ok(
                        HandleOutcome {
                            result: KeyHandleResult::RenderRequested,
                            effect: Effect::NoEffect,
                        },
                    )
                },
                KeyCode::Backspace => {
                    self.stack.filter_pop();
                    Ok(
                        HandleOutcome {
                            result: KeyHandleResult::RenderRequested,
                            effect: Effect::NoEffect,
                        },
                    )
                },
                KeyCode::Enter => {
                    self.filter_input_mode = false;
                    self.stack.commit_filter();
                    Ok(
                        HandleOutcome {
                            result: KeyHandleResult::RenderRequested,
                            effect: Effect::NoEffect,
                        },
                    )
                },
                KeyCode::Esc => {
                    self.filter_input_mode = false;
                    self.stack.set_filter(None);
                    Ok(
                        HandleOutcome {
                            result: KeyHandleResult::RenderRequested,
                            effect: Effect::NoEffect,
                        },
                    )
                },
                _ => Ok(
                    HandleOutcome { result: KeyHandleResult::SkipRender, effect: Effect::NoEffect },
                ),
            }
        } else if let Some(_) = lookup(&keybinds.albums, event) {
            Ok(HandleOutcome { result: KeyHandleResult::SkipRender, effect: Effect::NoEffect })
        } else if let Some(action) = lookup(&keybinds.navigation, event) {
            match action {
                CommonAction::DownHalf => {
                    self.stack.next_half_viewport(viewport_height);
                    Ok(
                        HandleOutcome {
                            result: KeyHandleResult::RenderRequested,
                            effect: Effect::PreparePreview,
                        },
                    )
                },
                CommonAction::UpHalf => {
                    self.stack.prev_half_viewport(viewport_height);
                    Ok(
                        HandleOutcome {
                            result: KeyHandleResult::RenderRequested,
                            effect: Effect::PreparePreview,
                        },
                    )
                },
                CommonAction::Up => {
                    self.stack.prev();
                    Ok(
                        HandleOutcome {
                            result: KeyHandleResult::RenderRequested,
                            effect: Effect::PreparePreview,
                        },
                    )
                },
                CommonAction::Down => {
                    self.stack.next();
                    Ok(
                        HandleOutcome {
                            result: KeyHandleResult::RenderRequested,
                            effect: Effect::PreparePreview,
                        },
                    )
                },
                CommonAction::Bottom => {
                    self.stack.last();
                    Ok(
                        HandleOutcome {
                            result: KeyHandleResult::RenderRequested,
                            effect: Effect::PreparePreview,
                        },
                    )
                },
                CommonAction::Top => {
                    self.stack.first();
                    Ok(
                        HandleOutcome {
                            result: KeyHandleResult::RenderRequested,
                            effect: Effect::PreparePreview,
                        },
                    )
                },
                CommonAction::Right => {
                    let sel = match self.stack.get_selected() {
                        None => {
                            return Err(LogicError::NoSelection);
                        },
                        Some(i) => i,
                    };
                    let value = {
                        let current = self.stack.current();
                        copy_bytes(current.entries[sel].to_current_value())
                    };
                    match &mut self.position {
                        CurrentPosition::Album(p) => {
                            let command = p.fetch_command(&value);
                            Ok(
                                HandleOutcome {
                                    result: KeyHandleResult::RenderRequested,
                                    effect: Effect::Descend { command, value },
                                },
                            )
                        },
                        CurrentPosition::Song(p) => {
                            let command = p.add_to_queue_command(&value);
                            let message = added_message_bytes(&value, &p.values.album);
                            let next_p = p.next();
                            self.position = CurrentPosition::Song(next_p);
                            Ok(
                                HandleOutcome {
                                    result: KeyHandleResult::RenderRequested,
                                    effect: Effect::Enqueue { command, message },
                                },
                            )
                        },
                    }
                },
                CommonAction::Left => {
                    self.stack.pop();
                    self.position = CurrentPosition::Album(Position { values: Album });
                    Ok(
                        HandleOutcome {
                            result: KeyHandleResult::RenderRequested,
                            effect: Effect::PreparePreview,
                        },
                    )
                },
                CommonAction::EnterSearch => {
                    self.filter_input_mode = true;
                    self.stack.set_filter(Some(Vec::new()));
                    Ok(
                        HandleOutcome {
                            result: KeyHandleResult::RenderRequested,
                            effect: Effect::NoEffect,
                        },
                    )
                },
                CommonAction::NextResult => {
                    self.stack.jump_forward();
                    Ok(
                        HandleOutcome {
                            result: KeyHandleResult::RenderRequested,
                            effect: Effect::NoEffect,
                        },
                    )
                },
                CommonAction::PreviousResult => {
                    self.stack.jump_back();
                    Ok(
                        HandleOutcome {
                            result: KeyHandleResult::RenderRequested,
                            effect: Effect::NoEffect,
                        },
                    )
                },
                _ => Ok(
                    HandleOutcome { result: KeyHandleResult::SkipRender, effect: Effect::NoEffect },
                ),
            }
        } else {
            Ok(HandleOutcome { result: KeyHandleResult::KeyNotHandled, effect: Effect::NoEffect })
        }
    }
}

/// Shorthand: the outcome is `res` with no effect, and the screen's scalar
/// state is unchanged.
pub open spec fn plain_outcome(r: Result<HandleOutcome, LogicError>, res: KeyHandleResult) -> bool {
    r matches Ok(o) && o.result == res && o.effect is NoEffect
}

/// The screen's fields other than the stack are unchanged.
pub open spec fn scalars_unchanged(o: AlbumsScreen, f: AlbumsScreen) -> bool {
    &&& f.position == o.position
    &&& f.filter_input_mode == o.filter_input_mode
    &&& f.preview_epoch == o.preview_epoch
}

/// The outcome is a render request carrying a prefetch-recompute effect.
pub open spec fn preview_outcome(r: Result<HandleOutcome, LogicError>) -> bool {
    r matches Ok(o) && o.result == KeyHandleResult::RenderRequested && o.effect is PreparePreview
}

/// The whole contract of `handle_action`, case by case over the mode, the
/// key, and the scope tables.
pub open spec fn spec_handle_holds(
    o: AlbumsScreen,
    f: AlbumsScreen,
    event: Key,
    keybinds: KeyConfig,
    viewport_height: usize,
    r: Result<HandleOutcome, LogicError>,
) -> bool {
    if o.filter_input_mode {
        match event.key {
            KeyCode::Char(c) => plain_outcome(r, KeyHandleResult::RenderRequested) && filter_pushed(
                o.stack,
                f.stack,
                c,
            ) && scalars_unchanged(o, f),
            KeyCode::Backspace => plain_outcome(r, KeyHandleResult::RenderRequested)
                && filter_popped(o.stack, f.stack) && scalars_unchanged(o, f),
            KeyCode::Enter => plain_outcome(r, KeyHandleResult::RenderRequested) && selection_set(
                o.stack,
                f.stack,
                crate::dirstack::commit_sel(o.stack.top()),
            ) && !f.filter_input_mode && f.position == o.position && f.preview_epoch
                == o.preview_epoch,
            KeyCode::Esc => plain_outcome(r, KeyHandleResult::RenderRequested) && f.stack.levels@
                == o.stack.spec_with_top(with_filter(o.stack.top(), None))
                && !f.filter_input_mode && f.position == o.position && f.preview_epoch
                == o.preview_epoch,
            _ => plain_outcome(r, KeyHandleResult::SkipRender) && f == o,
        }
    } else if spec_lookup(keybinds.albums@, event) is Some {
        plain_outcome(r, KeyHandleResult::SkipRender) && f == o
    } else {
        match spec_lookup(keybinds.navigation@, event) {
            Some(CommonAction::DownHalf) => preview_outcome(r) && selection_set(
                o.stack,
                f.stack,
                down_half_sel(o.stack.top(), viewport_height),
            ) && scalars_unchanged(o, f),
            Some(CommonAction::UpHalf) => preview_outcome(r) && selection_set(
                o.stack,
                f.stack,
                up_half_sel(o.stack.top(), viewport_height),
            ) && scalars_unchanged(o, f),
            Some(CommonAction::Up) => preview_outcome(r) && selection_set(
                o.stack,
                f.stack,
                prev_sel(o.stack.top()),
            ) && scalars_unchanged(o, f),
            Some(CommonAction::Down) => preview_outcome(r) && selection_set(
                o.stack,
                f.stack,
                next_sel(o.stack.top()),
            ) && scalars_unchanged(o, f),
            Some(CommonAction::Bottom) => preview_outcome(r) && selection_set(
                o.stack,
                f.stack,
                last_sel(o.stack.top()),
            ) && scalars_unchanged(o, f),
            Some(CommonAction::Top) => preview_outcome(r) && selection_set(
                o.stack,
                f.stack,
                first_sel(o.stack.top()),
            ) && scalars_unchanged(o, f),
            Some(CommonAction::Right) => spec_handle_right(o, f, r),
            Some(CommonAction::Left) => preview_outcome(r) && f.stack.levels@ == (
            if o.stack.depth() > 1 {
                o.stack.levels@.drop_last()
            } else {
                o.stack.levels@
            }) && f.position is Album && f.filter_input_mode == o.filter_input_mode
                && f.preview_epoch == o.preview_epoch,
            Some(CommonAction::EnterSearch) => plain_outcome(r, KeyHandleResult::RenderRequested)
                && filter_emptied(o.stack, f.stack) && f.filter_input_mode && f.position
                == o.position && f.preview_epoch == o.preview_epoch,
            Some(CommonAction::NextResult) => plain_outcome(r, KeyHandleResult::RenderRequested)
                && selection_set(o.stack, f.stack, jump_forward_sel(o.stack.top()))
                && scalars_unchanged(o, f),
            Some(CommonAction::PreviousResult) => plain_outcome(
                r,
                KeyHandleResult::RenderRequested,
            ) && selection_set(o.stack, f.stack, jump_back_sel(o.stack.top()))
                && scalars_unchanged(o, f),
            Some(_) => plain_outcome(r, KeyHandleResult::SkipRender) && f == o,
            None => plain_outcome(r, KeyHandleResult::KeyNotHandled) && f == o,
        }
    }
}

/// The contract of a descend keypress: with no selection the logic error,
/// and nothing changed; at the album scope, a descend effect carrying the
/// fetch for the selected album's titles; at the song scope, an enqueue
/// effect carrying the findadd command and the status message, the position
/// staying at the song scope.
pub open spec fn spec_handle_right(
    o: AlbumsScreen,
    f: AlbumsScreen,
    r: Result<HandleOutcome, LogicError>,
) -> bool {
    match o.stack.top().selected {
        None => r == Err::<HandleOutcome, LogicError>(LogicError::NoSelection) && f == o,
        Some(i) => {
            let v = o.stack.top().entries@[i as int].spec_value();
            match o.position {
                CurrentPosition::Album(_) => f == o && (r matches Ok(out) && out.result
                    == KeyHandleResult::RenderRequested && (out.effect matches Effect::Descend {
                    command,
                    value,
                } && value@ == v && command.verb@ == list_verb() && args_view(command.args@)
                    == seq![title_tag(), album_tag(), v])),
                CurrentPosition::Song(p) => f.stack == o.stack && f.filter_input_mode
                    == o.filter_input_mode && f.preview_epoch == o.preview_epoch && (
                f.position matches CurrentPosition::Song(q) && q.values.album@ == p.values.album@)
                    && (r matches Ok(out) && out.result == KeyHandleResult::RenderRequested && (
                out.effect matches Effect::Enqueue { command, message } && command.verb@
                    == findadd_verb() && args_view(command.args@) == seq![
                    title_tag(), v, album_tag(), p.values.album@,
                ] && message@ == added_message(v, p.values.album@))),
            }
        },
    }
}

} // verus!
