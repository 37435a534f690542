//! The navigation stack: an ordered stack of levels, each an ordered list of
//! entries with a selection cursor, a viewport offset, an optional
//! case-sensitive substring filter, and a prefetched preview of the next
//! screen. Only the top level is interactively mutable; the stack never
//! performs I/O itself.

use vstd::prelude::*;

use crate::text::contains_bytes;
use crate::text::spec_contains;

verus! {

/// One browsable item: a container (a directory or tag bucket) or a playable
/// leaf, each carrying its display text.
#[derive(Debug, Clone, PartialEq, Eq)]
pub enum Entry {
    Dir(Vec<u8>),
    Song(Vec<u8>),
}

impl Entry {
    /// The display text, which filtering and descent act on.
    pub open spec fn spec_value(self) -> Seq<u8> {
        match self {
            Entry::Dir(n) => n@,
            Entry::Song(n) => n@,
        }
    }

    /// The value the current selection stands for (its display text).
    pub fn to_current_value(&self) -> (r: &Vec<u8>)
        ensures
            r@ == self.spec_value(),
    {
        match self {
            Entry::Dir(n) => n,
            Entry::Song(n) => n,
        }
    }

    /// A copy of the entry with the same variant and display text.
    pub fn clone_entry(&self) -> (r: Entry)
        ensures
            r is Dir <==> *self is Dir,
            r.spec_value() == self.spec_value(),
    {
        match self {
            Entry::Dir(n) => Entry::Dir(crate::text::copy_bytes(n)),
            Entry::Song(n) => Entry::Song(crate::text::copy_bytes(n)),
        }
    }
}

/// The two entry sequences agree in length, variants, and display texts.
pub open spec fn same_entries(a: Seq<Entry>, b: Seq<Entry>) -> bool {
    &&& a.len() == b.len()
    &&& forall|i: int|
        0 <= i < a.len() ==> ((#[trigger] a[i]) is Dir <==> (#[trigger] b[i]) is Dir) && a[i]
            .spec_value() == b[i].spec_value()
}

/// An entry passes the filter: no filter admits everything, a filter admits
/// entries whose display text contains it.
pub open spec fn entry_match(e: Entry, f: Option<Seq<u8>>) -> bool {
    match f {
        None => true,
        Some(fs) => spec_contains(e.spec_value(), fs),
    }
}

/// The filter as a mathematical value.
pub open spec fn filter_view(f: Option<Vec<u8>>) -> Option<Seq<u8>> {
    match f {
        None => None,
        Some(fv) => Some(fv@),
    }
}

/// The entries a level shows: all of them without a filter, otherwise the
/// matching ones in their original order.
pub open spec fn visible_entries(entries: Seq<Entry>, f: Option<Seq<u8>>) -> Seq<Entry>
    decreases entries.len(),
{
    if entries.len() == 0 {
        Seq::empty()
    } else {
        let rest = visible_entries(entries.drop_last(), f);
        if entry_match(entries.last(), f) {
            rest.push(entries.last())
        } else {
            rest
        }
    }
}

/// The first matching index at or after `i`, if any.
pub open spec fn first_match_from(entries: Seq<Entry>, f: Option<Seq<u8>>, i: int) -> Option<int>
    decreases entries.len() - i,
{
    if i < 0 || i >= entries.len() {
        None
    } else if entry_match(entries[i], f) {
        Some(i)
    } else {
        first_match_from(entries, f, i + 1)
    }
}

/// The last matching index strictly before `i`, if any.
pub open spec fn last_match_before(entries: Seq<Entry>, f: Option<Seq<u8>>, i: int) -> Option<int>
    decreases i,
{
    if i <= 0 || i > entries.len() {
        None
    } else if entry_match(entries[i - 1], f) {
        Some(i - 1)
    } else {
        last_match_before(entries, f, i - 1)
    }
}

/// The cyclic successor of `sel` among the matching indices: the first match
/// after `sel`, wrapping to the first match overall.
pub open spec fn spec_next_match(entries: Seq<Entry>, f: Option<Seq<u8>>, sel: int) -> Option<
    int,
> {
    match first_match_from(entries, f, sel + 1) {
        Some(j) => Some(j),
        None => first_match_from(entries, f, 0),
    }
}

/// The cyclic predecessor of `sel` among the matching indices: the last match
/// before `sel`, wrapping to the last match overall.
pub open spec fn spec_prev_match(entries: Seq<Entry>, f: Option<Seq<u8>>, sel: int) -> Option<
    int,
> {
    match last_match_before(entries, f, sel) {
        Some(j) => Some(j),
        None => last_match_before(entries, f, entries.len() as int),
    }
}

/// What `first_match_from` returns: a match with nothing matching before it
/// in the searched range, or no match in the range at all.
pub proof fn lemma_first_match_from_props(entries: Seq<Entry>, f: Option<Seq<u8>>, i: int)
    requires
        0 <= i,
    ensures
        match first_match_from(entries, f, i) {
            Some(j) => {
                &&& i <= j < entries.len()
                &&& entry_match(entries[j], f)
                &&& forall|t: int| i <= t < j ==> !entry_match(#[trigger] entries[t], f)
            },
            None => forall|t: int|
                i <= t < entries.len() ==> !entry_match(#[trigger] entries[t], f),
        },
    decreases entries.len() - i,
{
    if i < 0 || i >= entries.len() {
    } else if entry_match(entries[i], f) {
    } else {
        lemma_first_match_from_props(entries, f, i + 1);
    }
}

/// What `last_match_before` returns: a match with nothing matching between
/// it and `i`, or no match below `i` at all.
pub proof fn lemma_last_match_before_props(entries: Seq<Entry>, f: Option<Seq<u8>>, i: int)
    requires
        i <= entries.len(),
    ensures
        match last_match_before(entries, f, i) {
            Some(j) => {
                &&& 0 <= j < i
                &&& entry_match(entries[j], f)
                &&& forall|t: int| j < t < i ==> !entry_match(#[trigger] entries[t], f)
            },
            None => forall|t: int| 0 <= t < i ==> !entry_match(#[trigger] entries[t], f),
        },
    decreases i,
{
    if i <= 0 || i > entries.len() {
    } else if entry_match(entries[i - 1], f) {
    } else {
        lemma_last_match_before_props(entries, f, i - 1);
    }
}

/// One depth of the browse hierarchy.
#[derive(Debug)]
pub struct Level {
    pub entries: Vec<Entry>,
    pub selected: Option<usize>,
    pub offset: usize,
    pub filter: Option<Vec<u8>>,
    pub preview: Vec<Entry>,
}

impl Level {
    /// The selection exists exactly when the level is nonempty, and always
    /// stays in bounds; the viewport offset never passes the end.
    pub open spec fn wf(self) -> bool {
        &&& (self.selected is None <==> self.entries@.len() == 0)
        &&& (match self.selected {
            Some(i) => i < self.entries@.len(),
            None => true,
        })
        &&& self.offset <= self.entries@.len()
    }

    /// What the level shows under its current filter.
    pub open spec fn visible(self) -> Seq<Entry> {
        visible_entries(self.entries@, filter_view(self.filter))
    }

    /// The entries the level shows, for the renderer: all of them without a
    /// filter, otherwise the matching ones in their original order.
    pub fn visible_list(&self) -> (r: Vec<Entry>)
        ensures
            same_entries(r@, self.visible()),
    {
        let f: &Vec<u8> = match &self.filter {
            None => {
                let mut r: Vec<Entry> = Vec::new();
                let mut i: usize = 0;
                proof {
                    lemma_clear_filter_restores(self.entries@);
                }
                while i < self.entries.len()
                    invariant
                        i <= self.entries@.len(),
                        same_entries(r@, self.entries@.subrange(0, i as int)),
                    decreases self.entries@.len() - i,
                {
                    r.push(self.entries[i].clone_entry());
                    i = i + 1;
                }
                proof {
                    assert(self.entries@.subrange(0, self.entries@.len() as int)
                        =~= self.entries@);
                }
                return r;
            },
            Some(f) => f,
        };
        let mut r: Vec<Entry> = Vec::new();
        let mut i: usize = 0;
        proof {
            assert(visible_entries(self.entries@.subrange(0, 0), filter_view(self.filter))
                =~= Seq::<Entry>::empty());
        }
        while i < self.entries.len()
            invariant
                i <= self.entries@.len(),
                self.filter matches Some(g) && g == f,
                same_entries(
                    r@,
                    visible_entries(self.entries@.subrange(0, i as int), filter_view(self.filter)),
                ),
            decreases self.entries@.len() - i,
        {
            proof {
                assert(self.entries@.subrange(0, i + 1 as int).drop_last() =~= self.entries@
                    .subrange(0, i as int));
                assert(self.entries@.subrange(0, i + 1 as int).last() == self.entries@[i as int]);
            }
            if entry_matches_filter(&self.entries[i], f) {
                r.push(self.entries[i].clone_entry());
            }
            i = i + 1;
        }
        proof {
            assert(self.entries@.subrange(0, self.entries@.len() as int) =~= self.entries@);
        }
        r
    }
}

/// The initial selection for a freshly fetched entry list.
pub open spec fn init_sel(n: nat) -> Option<usize> {
    if n == 0 {
        None
    } else {
        Some(0usize)
    }
}

/// `lv` with only its selection replaced.
pub open spec fn with_selected(lv: Level, s: Option<usize>) -> Level {
    Level { selected: s, ..lv }
}

/// `lv` with only its viewport offset replaced.
pub open spec fn with_offset(lv: Level, o: usize) -> Level {
    Level { offset: o, ..lv }
}

/// `lv` with only its filter replaced.
pub open spec fn with_filter(lv: Level, f: Option<Vec<u8>>) -> Level {
    Level { filter: f, ..lv }
}

/// `lv` with only its preview replaced.
pub open spec fn with_preview(lv: Level, p: Vec<Entry>) -> Level {
    Level { preview: p, ..lv }
}

/// The selection after moving down by one, clamped.
pub open spec fn next_sel(lv: Level) -> Option<usize> {
    match lv.selected {
        Some(i) => if i + 1 < lv.entries@.len() {
            Some((i + 1) as usize)
        } else {
            Some(i)
        },
        None => None,
    }
}

/// The selection after moving up by one, clamped.
pub open spec fn prev_sel(lv: Level) -> Option<usize> {
    match lv.selected {
        Some(i) => if i > 0 {
            Some((i - 1) as usize)
        } else {
            Some(0usize)
        },
        None => None,
    }
}

/// The selection after jumping to the first entry.
pub open spec fn first_sel(lv: Level) -> Option<usize> {
    match lv.selected {
        Some(_) => Some(0usize),
        None => None,
    }
}

/// The selection after jumping to the last entry.
pub open spec fn last_sel(lv: Level) -> Option<usize> {
    match lv.selected {
        Some(_) => Some((lv.entries@.len() - 1) as usize),
        None => None,
    }
}

/// The selection after moving down half a viewport of `height`, clamped.
pub open spec fn down_half_sel(lv: Level, height: usize) -> Option<usize> {
    match lv.selected {
        Some(i) => if i + height / 2 < lv.entries@.len() {
            Some((i + height / 2) as usize)
        } else {
            Some((lv.entries@.len() - 1) as usize)
        },
        None => None,
    }
}

/// The selection after moving up half a viewport of `height`, clamped.
pub open spec fn up_half_sel(lv: Level, height: usize) -> Option<usize> {
    match lv.selected {
        Some(i) => if i >= height / 2 {
            Some((i - height / 2) as usize)
        } else {
            Some(0usize)
        },
        None => None,
    }
}

/// Where `jump_forward` leaves the selection: on the cyclic next match when
/// a filter is active and a match exists, otherwise where it was.
pub open spec fn jump_forward_sel(lv: Level) -> Option<usize> {
    match lv.selected {
        None => None,
        Some(s) => match lv.filter {
            None => Some(s),
            Some(f) => match spec_next_match(lv.entries@, Some(f@), s as int) {
                Some(j) => Some(j as usize),
                None => Some(s),
            },
        },
    }
}

/// Where `jump_back` leaves the selection: on the cyclic previous match when
/// a filter is active and a match exists, otherwise where it was.
pub open spec fn jump_back_sel(lv: Level) -> Option<usize> {
    match lv.selected {
        None => None,
        Some(s) => match lv.filter {
            None => Some(s),
            Some(f) => match spec_prev_match(lv.entries@, Some(f@), s as int) {
                Some(j) => Some(j as usize),
                None => Some(s),
            },
        },
    }
}

/// Where committing the filter leaves the selection: on the first matching
/// entry when a filter is active and a match exists, otherwise where it
/// was.
pub open spec fn commit_sel(lv: Level) -> Option<usize> {
    match lv.selected {
        None => None,
        Some(s) => match lv.filter {
            None => Some(s),
            Some(f) => match first_match_from(lv.entries@, Some(f@), 0) {
                Some(j) => Some(j as usize),
                None => Some(s),
            },
        },
    }
}

/// The entry passes the given active filter.
fn entry_matches_filter(e: &Entry, f: &Vec<u8>) -> (r: bool)
    ensures
        r == entry_match(*e, Some(f@)),
{
    contains_bytes(e.to_current_value(), f)
}

/// Scan forward from `start` for the first matching entry.
fn find_match_from(entries: &Vec<Entry>, f: &Vec<u8>, start: usize) -> (r: Option<usize>)
    ensures
        match first_match_from(entries@, Some(f@), start as int) {
            Some(j) => r matches Some(u) && u == j,
            None => r is None,
        },
{
    let mut j: usize = start;
    while j < entries.len()
        invariant
            start <= j,
            first_match_from(entries@, Some(f@), start as int) == first_match_from(
                entries@,
                Some(f@),
                j as int,
            ),
        decreases entries@.len() - j,
    {
        if entry_matches_filter(&entries[j], f) {
            proof {
                assert(first_match_from(entries@, Some(f@), j as int) == Some(j as int));
            }
            return Some(j);
        }
        proof {
            assert(first_match_from(entries@, Some(f@), j as int) == first_match_from(
                entries@,
                Some(f@),
                j + 1,
            ));
        }
        j = j + 1;
    }
    None
}

/// Scan backward from `end` for the last matching entry before it.
fn find_match_before(entries: &Vec<Entry>, f: &Vec<u8>, end: usize) -> (r: Option<usize>)
    requires
        end <= entries@.len(),
    ensures
        match last_match_before(entries@, Some(f@), end as int) {
            Some(j) => r matches Some(u) && u == j,
            None => r is None,
        },
{
    let mut j: usize = end;
    while j > 0
        invariant
            j <= end <= entries@.len(),
            last_match_before(entries@, Some(f@), end as int) == last_match_before(
                entries@,
                Some(f@),
                j as int,
            ),
        decreases j,
    {
        if entry_matches_filter(&entries[j - 1], f) {
            proof {
                assert(last_match_before(entries@, Some(f@), j as int) == Some(j - 1));
            }
            return Some(j - 1);
        }
        proof {
            assert(last_match_before(entries@, Some(f@), j as int) == last_match_before(
                entries@,
                Some(f@),
                j - 1,
            ));
        }
        j = j - 1;
    }
    None
}

/// The drill-down path from root to current depth.
#[derive(Debug)]
pub struct DirStack {
    pub levels: Vec<Level>,
}

impl DirStack {
    pub open spec fn depth(self) -> nat {
        self.levels@.len()
    }

    pub open spec fn top(self) -> Level {
        self.levels@.last()
    }

    /// At least the root level exists and every level is well formed.
    pub open spec fn wf(self) -> bool {
        &&& self.levels@.len() >= 1
        &&& forall|i: int|
            0 <= i < self.levels@.len() ==> (#[trigger] self.levels@[i]).wf()
    }

    /// The stack after replacing only the top level's value with `lv`.
    pub open spec fn spec_with_top(self, lv: Level) -> Seq<Level> {
        self.levels@.update(self.levels@.len() - 1, lv)
    }

    /// A fresh stack: one root level seeded with `entries`, selection on the
    /// first entry (or none if empty), no filter, no preview.
    pub fn new(entries: Vec<Entry>) -> (s: DirStack)
        ensures
            s.wf(),
            s.depth() == 1,
            s.top().entries == entries,
            s.top().selected == init_sel(entries@.len()),
            s.top().offset == 0,
            s.top().filter is None,
            s.top().preview@ == Seq::<Entry>::empty(),
    {
        let selected: Option<usize> = if entries.len() == 0 {
            None
        } else {
            Some(0)
        };
        let root = Level { entries, selected, offset: 0, filter: None, preview: Vec::new() };
        let mut levels: Vec<Level> = Vec::new();
        levels.push(root);
        DirStack { levels }
    }

    /// Append a new top level seeded with `entries`: depth grows by exactly
    /// one, the new level's selection is the first entry (or none), its
    /// filter is clear, and every level beneath is untouched.
    pub fn push(&mut self, entries: Vec<Entry>)
        requires
            old(self).wf(),
        ensures
            final(self).wf(),
            final(self).depth() == old(self).depth() + 1,
            final(self).levels@.subrange(0, old(self).levels@.len() as int) == old(self).levels@,
            final(self).top().entries == entries,
            final(self).top().selected == init_sel(entries@.len()),
            final(self).top().offset == 0,
            final(self).top().filter is None,
            final(self).top().preview@ == Seq::<Entry>::empty(),
    {
        let selected: Option<usize> = if entries.len() == 0 {
            None
        } else {
            Some(0)
        };
        let lv = Level { entries, selected, offset: 0, filter: None, preview: Vec::new() };
        self.levels.push(lv);
        proof {
            assert(self.levels@.subrange(0, old(self).levels@.len() as int) =~= old(self).levels@);
        }
    }

    /// Remove the top level when more than one remains; at the root this is a
    /// no-op, so the depth never falls below one.
    pub fn pop(&mut self)
        requires
            old(self).wf(),
        ensures
            final(self).wf(),
            final(self).levels@ == if old(self).depth() > 1 {
                old(self).levels@.drop_last()
            } else {
                old(self).levels@
            },
            final(self).depth() >= 1,
    {
        if self.levels.len() > 1 {
            let _discarded = self.levels.pop();
        }
    }

    /// Borrow the current (top) level.
    pub fn current(&self) -> (lv: &Level)
        requires
            self.wf(),
        ensures
            *lv == self.top(),
    {
        let d: usize = self.levels.len();
        &self.levels[d - 1]
    }

    /// The top level's selection index.
    pub fn get_selected(&self) -> (r: Option<usize>)
        requires
            self.wf(),
        ensures
            r == self.top().selected,
    {
        let d: usize = self.levels.len();
        self.levels[d - 1].selected
    }

    /// The entry the selection stands on, or none when the level is empty.
    pub fn selected_entry(&self) -> (r: Option<&Entry>)
        requires
            self.wf(),
        ensures
            match self.top().selected {
                Some(i) => r matches Some(e) && *e == self.top().entries@[i as int],
                None => r is None,
            },
    {
        let d: usize = self.levels.len();
        let lv: &Level = &self.levels[d - 1];
        match lv.selected {
            Some(i) => Some(&lv.entries[i]),
            None => None,
        }
    }

    /// Borrow the top level mutably; everything beneath stays as it was.
    fn top_mut(&mut self) -> (lv: &mut Level)
        requires
            old(self).levels@.len() >= 1,
        ensures
            *lv == old(self).top(),
            final(self).levels@ == old(self).spec_with_top(*final(lv)),
    {
        let d: usize = self.levels.len();
        &mut self.levels[d - 1]
    }

    /// Shift the selection down by one, clamped to the last entry.
    pub fn next(&mut self)
        requires
            old(self).wf(),
        ensures
            final(self).wf(),
            final(self).levels@ == old(self).spec_with_top(
                with_selected(
                    old(self).top(),
                    match old(self).top().selected {
                        Some(i) => if i + 1 < old(self).top().entries@.len() {
                            Some((i + 1) as usize)
                        } else {
                            Some(i)
                        },
                        None => None,
                    },
                ),
            ),
    {
        let lv = self.top_mut();
        let n: usize = lv.entries.len();
        let ns: Option<usize> = match lv.selected {
            Some(i) => if i + 1 < n {
                Some(i + 1)
            } else {
                Some(i)
            },
            None => None,
        };
        lv.selected = ns;
    }

    /// Shift the selection up by one, clamped to the first entry.
    pub fn prev(&mut self)
        requires
            old(self).wf(),
        ensures
            final(self).wf(),
            final(self).levels@ == old(self).spec_with_top(
                with_selected(
                    old(self).top(),
                    match old(self).top().selected {
                        Some(i) => if i > 0 {
                            Some((i - 1) as usize)
                        } else {
                            Some(0usize)
                        },
                        None => None,
                    },
                ),
            ),
    {
        let lv = self.top_mut();
        let ns: Option<usize> = match lv.selected {
            Some(i) => if i > 0 {
                Some(i - 1)
            } else {
                Some(0)
            },
            None => None,
        };
        lv.selected = ns;
    }

    /// Jump to the first entry.
    pub fn first(&mut self)
        requires
            old(self).wf(),
        ensures
            final(self).wf(),
            final(self).levels@ == old(self).spec_with_top(
                with_selected(
                    old(self).top(),
                    match old(self).top().selected {
                        Some(_) => Some(0usize),
                        None => None,
                    },
                ),
            ),
    {
        let lv = self.top_mut();
        let ns: Option<usize> = match lv.selected {
            Some(_) => Some(0),
            None => None,
        };
        lv.selected = ns;
    }

    /// Jump to the last entry.
    pub fn last(&mut self)
        requires
            old(self).wf(),
        ensures
            final(self).wf(),
            final(self).levels@ == old(self).spec_with_top(
                with_selected(
                    old(self).top(),
                    match old(self).top().selected {
                        Some(_) => Some((old(self).top().entries@.len() - 1) as usize),
                        None => None,
                    },
                ),
            ),
    {
        let lv = self.top_mut();
        let n: usize = lv.entries.len();
        let ns: Option<usize> = match lv.selected {
            Some(_) => Some(n - 1),
            None => None,
        };
        lv.selected = ns;
    }

    /// Shift the selection down by half a viewport, clamped to the last
    /// entry.
    pub fn next_half_viewport(&mut self, height: usize)
        requires
            old(self).wf(),
        ensures
            final(self).wf(),
            final(self).levels@ == old(self).spec_with_top(
                with_selected(
                    old(self).top(),
                    match old(self).top().selected {
                        Some(i) => if i + height / 2 < old(self).top().entries@.len() {
                            Some((i + height / 2) as usize)
                        } else {
                            Some((old(self).top().entries@.len() - 1) as usize)
                        },
                        None => None,
                    },
                ),
            ),
    {
        let lv = self.top_mut();
        let n: usize = lv.entries.len();
        let step: usize = height / 2;
        let ns: Option<usize> = match lv.selected {
            Some(i) => if step < n - 1 - i {
                Some(i + step)
            } else {
                Some(n - 1)
            },
            None => None,
        };
        lv.selected = ns;
    }

    /// Shift the selection up by half a viewport, clamped to the first entry.
    pub fn prev_half_viewport(&mut self, height: usize)
        requires
            old(self).wf(),
        ensures
            final(self).wf(),
            final(self).levels@ == old(self).spec_with_top(
                with_selected(
                    old(self).top(),
                    match old(self).top().selected {
                        Some(i) => if i >= height / 2 {
                            Some((i - height / 2) as usize)
                        } else {
                            Some(0usize)
                        },
                        None => None,
                    },
                ),
            ),
    {
        let lv = self.top_mut();
        let step: usize = height / 2;
        let ns: Option<usize> = match lv.selected {
            Some(i) => if i >= step {
                Some(i - step)
            } else {
                Some(0)
            },
            None => None,
        };
        lv.selected = ns;
    }

    /// Scroll the viewport so the selection is inside a window of `height`
    /// rows starting at the offset.
    pub fn scroll_to_selected(&mut self, height: usize)
        requires
            old(self).wf(),
            height >= 1,
        ensures
            final(self).wf(),
            final(self).levels@ == old(self).spec_with_top(
                with_offset(
                    old(self).top(),
                    match old(self).top().selected {
                        Some(i) => if i < old(self).top().offset {
                            i
                        } else if i - old(self).top().offset >= height {
                            (i + 1 - height) as usize
                        } else {
                            old(self).top().offset
                        },
                        None => 0usize,
                    },
                ),
            ),
    {
        let lv = self.top_mut();
        let _entry_count: usize = lv.entries.len();
        let no: usize = match lv.selected {
            Some(i) => if i < lv.offset {
                i
            } else if i - lv.offset >= height {
                i + 1 - height
            } else {
                lv.offset
            },
            None => 0,
        };
        lv.offset = no;
    }

    /// Replace the top level's filter; entries and selection are untouched.
    pub fn set_filter(&mut self, f: Option<Vec<u8>>)
        requires
            old(self).wf(),
        ensures
            final(self).wf(),
            final(self).levels@ == old(self).spec_with_top(with_filter(old(self).top(), f)),
    {
        let lv = self.top_mut();
        lv.filter = f;
    }

    /// Append one byte to the filter being edited; without an active filter
    /// this is a no-op.
    pub fn filter_push(&mut self, c: u8)
        requires
            old(self).wf(),
        ensures
            final(self).wf(),
            final(self).levels@ == old(self).spec_with_top(final(self).top()),
            match old(self).top().filter {
                Some(f) => final(self).top().filter matches Some(g) && g@ == f@.push(c),
                None => final(self).top() == old(self).top(),
            },
            final(self).top().entries == old(self).top().entries,
            final(self).top().selected == old(self).top().selected,
            final(self).top().offset == old(self).top().offset,
            final(self).top().preview == old(self).top().preview,
    {
        let lv = self.top_mut();
        match &mut lv.filter {
            Some(f) => {
                f.push(c);
            },
            None => {},
        }
    }

    /// Drop the last byte of the filter being edited; an empty or absent
    /// filter stays as it is.
    pub fn filter_pop(&mut self)
        requires
            old(self).wf(),
        ensures
            final(self).wf(),
            final(self).levels@ == old(self).spec_with_top(final(self).top()),
            match old(self).top().filter {
                Some(f) => final(self).top().filter matches Some(g) && g@ == if f@.len() > 0 {
                    f@.drop_last()
                } else {
                    f@
                },
                None => final(self).top() == old(self).top(),
            },
            final(self).top().entries == old(self).top().entries,
            final(self).top().selected == old(self).top().selected,
            final(self).top().offset == old(self).top().offset,
            final(self).top().preview == old(self).top().preview,
    {
        let lv = self.top_mut();
        match &mut lv.filter {
            Some(f) => {
                let _dropped = f.pop();
            },
            None => {},
        }
    }

    /// Commit the filter: with a filter active and a match, the selection
    /// moves to the first matching entry.
    pub fn commit_filter(&mut self)
        requires
            old(self).wf(),
        ensures
            final(self).wf(),
            final(self).levels@ == old(self).spec_with_top(
                with_selected(old(self).top(), commit_sel(old(self).top())),
            ),
    {
        let d: usize = self.levels.len();
        let ns: Option<usize> = {
            let lv: &Level = &self.levels[d - 1];
            match (lv.selected, &lv.filter) {
                (None, _) => None,
                (Some(s), None) => Some(s),
                (Some(s), Some(f)) => {
                    proof {
                        lemma_first_match_from_props(lv.entries@, Some(f@), 0);
                    }
                    match find_match_from(&lv.entries, f, 0) {
                        Some(j) => Some(j),
                        None => Some(s),
                    }
                },
            }
        };
        let lv = self.top_mut();
        lv.selected = ns;
    }

    /// With a filter active, move the selection to the next matching entry,
    /// wrapping past the end; without a filter, a match, or a selection the
    /// stack is unchanged. Non-matching entries are never discarded.
    pub fn jump_forward(&mut self)
        requires
            old(self).wf(),
        ensures
            final(self).wf(),
            final(self).levels@ == old(self).spec_with_top(
                with_selected(old(self).top(), jump_forward_sel(old(self).top())),
            ),
    {
        let d: usize = self.levels.len();
        let ns: Option<usize> = {
            let lv: &Level = &self.levels[d - 1];
            match (lv.selected, &lv.filter) {
                (None, _) => None,
                (Some(s), None) => Some(s),
                (Some(s), Some(f)) => {
                    let n: usize = lv.entries.len();
                    proof {
                        assert(s < n);
                        lemma_first_match_from_props(lv.entries@, Some(f@), s + 1);
                        lemma_first_match_from_props(lv.entries@, Some(f@), 0);
                    }
                    match find_match_from(&lv.entries, f, s + 1) {
                        Some(j) => Some(j),
                        None => match find_match_from(&lv.entries, f, 0) {
                            Some(j) => Some(j),
                            None => Some(s),
                        },
                    }
                },
            }
        };
        let lv = self.top_mut();
        lv.selected = ns;
    }

    /// With a filter active, move the selection to the previous matching
    /// entry, wrapping past the start; without a filter, a match, or a
    /// selection the stack is unchanged.
    pub fn jump_back(&mut self)
        requires
            old(self).wf(),
        ensures
            final(self).wf(),
            final(self).levels@ == old(self).spec_with_top(
                with_selected(old(self).top(), jump_back_sel(old(self).top())),
            ),
    {
        let d: usize = self.levels.len();
        let ns: Option<usize> = {
            let lv: &Level = &self.levels[d - 1];
            match (lv.selected, &lv.filter) {
                (None, _) => None,
                (Some(s), None) => Some(s),
                (Some(s), Some(f)) => {
                    let n: usize = lv.entries.len();
                    proof {
                        lemma_last_match_before_props(lv.entries@, Some(f@), s as int);
                        lemma_last_match_before_props(lv.entries@, Some(f@), n as int);
                    }
                    match find_match_before(&lv.entries, f, s) {
                        Some(j) => Some(j),
                        None => match find_match_before(&lv.entries, f, n) {
                            Some(j) => Some(j),
                            None => Some(s),
                        },
                    }
                },
            }
        };
        let lv = self.top_mut();
        lv.selected = ns;
    }

    /// Replace the top level's prefetched preview.
    pub fn set_preview(&mut self, p: Vec<Entry>)
        requires
            old(self).wf(),
        ensures
            final(self).wf(),
            final(self).levels@ == old(self).spec_with_top(with_preview(old(self).top(), p)),
    {
        let lv = self.top_mut();
        lv.preview = p;
    }
}

/// Filtering one entry appended at the end keeps it exactly when it matches.
proof fn lemma_visible_push(entries: Seq<Entry>, e: Entry, f: Option<Seq<u8>>)
    ensures
        visible_entries(entries.push(e), f) == if entry_match(e, f) {
            visible_entries(entries, f).push(e)
        } else {
            visible_entries(entries, f)
        },
{
    assert(entries.push(e).drop_last() =~= entries);
    assert(entries.push(e).last() == e);
}

/// Every entry the filter shows passes the filter.
proof fn lemma_visible_all_match(entries: Seq<Entry>, f: Option<Seq<u8>>)
    ensures
        forall|i: int|
            0 <= i < visible_entries(entries, f).len() ==> entry_match(
                #[trigger] visible_entries(entries, f)[i],
                f,
            ),
    decreases entries.len(),
{
    if entries.len() > 0 {
        lemma_visible_all_match(entries.drop_last(), f);
        let v = visible_entries(entries, f);
        let w = visible_entries(entries.drop_last(), f);
        if entry_match(entries.last(), f) {
            assert(v == w.push(entries.last()));
            assert forall|i: int| 0 <= i < v.len() implies entry_match(v[i], f) by {
                if i < w.len() {
                    assert(v[i] == w[i]);
                } else {
                    assert(v[i] == entries.last());
                }
            }
        } else {
            assert(v == w);
        }
    }
}

/// Filtering a sequence whose entries all pass the filter returns it whole.
proof fn lemma_visible_of_matching(entries: Seq<Entry>, f: Option<Seq<u8>>)
    requires
        forall|i: int| 0 <= i < entries.len() ==> entry_match(#[trigger] entries[i], f),
    ensures
        visible_entries(entries, f) == entries,
    decreases entries.len(),
{
    if entries.len() == 0 {
        assert(visible_entries(entries, f) =~= entries);
    } else {
        lemma_visible_of_matching(entries.drop_last(), f);
        assert(entries.drop_last().push(entries.last()) =~= entries);
    }
}

/// Law: applying the same filter twice shows the same entries as applying it
/// once.
pub proof fn lemma_filter_idempotent(entries: Seq<Entry>, f: Option<Seq<u8>>)
    ensures
        visible_entries(visible_entries(entries, f), f) == visible_entries(entries, f),
{
    lemma_visible_all_match(entries, f);
    lemma_visible_of_matching(visible_entries(entries, f), f);
}

/// Law: clearing the filter restores the full entry list in its original
/// order.
pub proof fn lemma_clear_filter_restores(entries: Seq<Entry>)
    ensures
        visible_entries(entries, None) == entries,
{
    lemma_visible_of_matching(entries, None);
}

/// The number of matching entries strictly before index `i`.
pub open spec fn count_before(entries: Seq<Entry>, f: Option<Seq<u8>>, i: int) -> nat
    decreases i,
{
    if i <= 0 {
        0
    } else {
        count_before(entries, f, i - 1) + (if entry_match(entries[i - 1], f) {
            1nat
        } else {
            0nat
        })
    }
}

/// The selection after `k` forward jumps.
pub open spec fn iterate_next(entries: Seq<Entry>, f: Option<Seq<u8>>, sel: int, k: nat) -> int
    decreases k,
{
    if k == 0 {
        sel
    } else {
        let prev = iterate_next(entries, f, sel, (k - 1) as nat);
        match spec_next_match(entries, f, prev) {
            Some(j) => j,
            None => prev,
        }
    }
}

proof fn lemma_count_monotone(entries: Seq<Entry>, f: Option<Seq<u8>>, x: int, y: int)
    requires
        x <= y,
    ensures
        count_before(entries, f, x) <= count_before(entries, f, y),
    decreases y - x,
{
    if x < y {
        lemma_count_monotone(entries, f, x, y - 1);
    }
}

proof fn lemma_count_same(entries: Seq<Entry>, f: Option<Seq<u8>>, x: int, y: int)
    requires
        0 <= x <= y,
        forall|t: int| x <= t < y ==> !entry_match(#[trigger] entries[t], f),
    ensures
        count_before(entries, f, y) == count_before(entries, f, x),
    decreases y - x,
{
    if x < y {
        lemma_count_same(entries, f, x, y - 1);
    }
}

/// Two distinct matches have distinct ranks.
proof fn lemma_rank_injective(entries: Seq<Entry>, f: Option<Seq<u8>>, x: int, y: int)
    requires
        0 <= x < y < entries.len(),
        entry_match(entries[x], f),
        entry_match(entries[y], f),
    ensures
        count_before(entries, f, x) < count_before(entries, f, y),
{
    assert(count_before(entries, f, x + 1) == count_before(entries, f, x) + 1);
    lemma_count_monotone(entries, f, x + 1, y);
}

/// One forward jump advances the rank by one, wrapping from the last match
/// to rank zero.
proof fn lemma_rank_step(entries: Seq<Entry>, f: Option<Seq<u8>>, sel: int)
    requires
        0 <= sel < entries.len(),
        entry_match(entries[sel], f),
    ensures
        spec_next_match(entries, f, sel) matches Some(b) && 0 <= b < entries.len() && entry_match(
            entries[b],
            f,
        ) && count_before(entries, f, b) == (
        if count_before(entries, f, sel) + 1 < count_before(entries, f, entries.len() as int) {
            count_before(entries, f, sel) + 1
        } else {
            0nat
        }),
{
    let n = entries.len() as int;
    let total = count_before(entries, f, n);
    lemma_first_match_from_props(entries, f, sel + 1);
    match first_match_from(entries, f, sel + 1) {
        Some(b) => {
            // no match in (sel, b): the rank advances by exactly one
            assert(count_before(entries, f, sel + 1) == count_before(entries, f, sel) + 1);
            lemma_count_same(entries, f, sel + 1, b);
            // b is not the last match's wrap: ranks below the total
            assert(count_before(entries, f, b + 1) == count_before(entries, f, b) + 1);
            lemma_count_monotone(entries, f, b + 1, n);
        },
        None => {
            // no match after sel: sel is the last match, rank total - 1
            assert(count_before(entries, f, sel + 1) == count_before(entries, f, sel) + 1);
            lemma_count_same(entries, f, sel + 1, n);
            lemma_first_match_from_props(entries, f, 0);
            match first_match_from(entries, f, 0) {
                Some(b) => {
                    // b is the first match overall: rank zero
                    lemma_count_same(entries, f, 0, b);
                },
                None => {
                    assert(entry_match(entries[sel], f));
                    assert(false);
                },
            }
        },
    }
}

proof fn lemma_iterate_rank(entries: Seq<Entry>, f: Option<Seq<u8>>, sel: int, k: nat)
    requires
        0 <= sel < entries.len(),
        entry_match(entries[sel], f),
        k <= count_before(entries, f, entries.len() as int),
    ensures
        ({
            let x = iterate_next(entries, f, sel, k);
            let total = count_before(entries, f, entries.len() as int);
            &&& 0 <= x < entries.len()
            &&& entry_match(entries[x], f)
            &&& count_before(entries, f, x) == (
            if count_before(entries, f, sel) + k < total {
                count_before(entries, f, sel) + k
            } else {
                (count_before(entries, f, sel) + k - total) as nat
            })
        }),
    decreases k,
{
    let total = count_before(entries, f, entries.len() as int);
    assert(count_before(entries, f, sel + 1) == count_before(entries, f, sel) + 1);
    lemma_count_monotone(entries, f, sel + 1, entries.len() as int);
    if k > 0 {
        lemma_iterate_rank(entries, f, sel, (k - 1) as nat);
        let x = iterate_next(entries, f, sel, (k - 1) as nat);
        lemma_rank_step(entries, f, x);
    }
}

/// Law: with a filter active and at least one match, starting from any
/// matching selection, as many forward jumps as there are matches lead back
/// to the starting match — the cycle closes.
pub proof fn lemma_jump_cycle_closes(entries: Seq<Entry>, f: Option<Seq<u8>>, sel: int)
    requires
        0 <= sel < entries.len(),
        entry_match(entries[sel], f),
    ensures
        iterate_next(entries, f, sel, count_before(entries, f, entries.len() as int)) == sel,
{
    let total = count_before(entries, f, entries.len() as int);
    lemma_iterate_rank(entries, f, sel, total);
    let x = iterate_next(entries, f, sel, total);
    assert(count_before(entries, f, x) == count_before(entries, f, sel));
    if x < sel {
        lemma_rank_injective(entries, f, x, sel);
        assert(false);
    } else if x > sel {
        lemma_rank_injective(entries, f, sel, x);
        assert(false);
    }
}

/// Law: from a matching selection, the forward jump lands on a match and the
/// backward jump returns exactly there, so the two traverse the matches of a
/// level in inverse cyclic orders.
pub proof fn lemma_jump_inverse(entries: Seq<Entry>, f: Option<Seq<u8>>, sel: int)
    requires
        0 <= sel < entries.len(),
        entry_match(entries[sel], f),
    ensures
        spec_next_match(entries, f, sel) matches Some(m) && entry_match(entries[m], f)
            && spec_prev_match(entries, f, m) == Some(sel),
{
    lemma_first_match_from_props(entries, f, sel + 1);
    match first_match_from(entries, f, sel + 1) {
        Some(m) => {
            lemma_last_match_before_props(entries, f, m);
            match last_match_before(entries, f, m) {
                Some(j) => {
                    if j < sel {
                        assert(entry_match(entries[sel], f));
                        assert(false);
                    } else if j > sel {
                        assert(entry_match(entries[j], f));
                        assert(false);
                    }
                },
                None => {
                    assert(entry_match(entries[sel], f));
                    assert(false);
                },
            }
        },
        None => {
            lemma_first_match_from_props(entries, f, 0);
            match first_match_from(entries, f, 0) {
                Some(m) => {
                    assert(m <= sel);
                    lemma_last_match_before_props(entries, f, m);
                    match last_match_before(entries, f, m) {
                        Some(j) => {
                            assert(entry_match(entries[j], f));
                            assert(false);
                        },
                        None => {},
                    }
                    lemma_last_match_before_props(entries, f, entries.len() as int);
                    match last_match_before(entries, f, entries.len() as int) {
                        Some(j) => {
                            if j < sel {
                                assert(entry_match(entries[sel], f));
                                assert(false);
                            } else if j > sel {
                                assert(entry_match(entries[j], f));
                                assert(false);
                            }
                        },
                        None => {
                            assert(entry_match(entries[sel], f));
                            assert(false);
                        },
                    }
                },
                None => {
                    assert(entry_match(entries[sel], f));
                    assert(false);
                },
            }
        },
    }
}

/// Law: from a matching selection, the backward jump lands on a match and
/// the forward jump returns exactly there — the inverse read in the other
/// direction.
pub proof fn lemma_jump_inverse_back(entries: Seq<Entry>, f: Option<Seq<u8>>, sel: int)
    requires
        0 <= sel < entries.len(),
        entry_match(entries[sel], f),
    ensures
        spec_prev_match(entries, f, sel) matches Some(m) && entry_match(entries[m], f)
            && spec_next_match(entries, f, m) == Some(sel),
{
    let n = entries.len() as int;
    lemma_last_match_before_props(entries, f, sel);
    match last_match_before(entries, f, sel) {
        Some(m) => {
            // m < sel with no match in (m, sel): sel is the next match
            lemma_first_match_from_props(entries, f, m + 1);
            match first_match_from(entries, f, m + 1) {
                Some(j) => {
                    if j < sel {
                        assert(entry_match(entries[j], f));
                        assert(false);
                    } else if j > sel {
                        assert(entry_match(entries[sel], f));
                        assert(false);
                    }
                },
                None => {
                    assert(entry_match(entries[sel], f));
                    assert(false);
                },
            }
        },
        None => {
            // no match below sel: the wrap lands on the last match overall
            lemma_last_match_before_props(entries, f, n);
            match last_match_before(entries, f, n) {
                Some(m) => {
                    assert(m >= sel);
                    lemma_first_match_from_props(entries, f, m + 1);
                    match first_match_from(entries, f, m + 1) {
                        Some(j) => {
                            assert(entry_match(entries[j], f));
                            assert(false);
                        },
                        None => {},
                    }
                    lemma_first_match_from_props(entries, f, 0);
                    match first_match_from(entries, f, 0) {
                        Some(j) => {
                            if j < sel {
                                assert(entry_match(entries[j], f));
                                assert(false);
                            } else if j > sel {
                                assert(entry_match(entries[sel], f));
                                assert(false);
                            }
                        },
                        None => {
                            assert(entry_match(entries[sel], f));
                            assert(false);
                        },
                    }
                },
                None => {
                    assert(entry_match(entries[sel], f));
                    assert(false);
                },
            }
        },
    }
}

} // verus!
