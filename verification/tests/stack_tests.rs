use mpdox::dirstack::{DirStack, Entry};

fn entries(names: &[&str]) -> Vec<Entry> {
    names.iter().map(|n| Entry::Dir(n.as_bytes().to_vec())).collect()
}

fn names_of(es: &[Entry]) -> Vec<Vec<u8>> {
    es.iter().map(|e| e.to_current_value().clone()).collect()
}

#[test]
fn new_stack_selects_first_entry() {
    let s = DirStack::new(entries(&["a", "b"]));
    assert_eq!(s.levels.len(), 1);
    assert_eq!(s.get_selected(), Some(0));
}

#[test]
fn new_empty_stack_has_no_selection() {
    let s = DirStack::new(Vec::new());
    assert_eq!(s.get_selected(), None);
    assert!(s.selected_entry().is_none());
}

#[test]
fn push_grows_depth_by_one_and_resets_selection() {
    let mut s = DirStack::new(entries(&["a", "b"]));
    s.next();
    assert_eq!(s.get_selected(), Some(1));
    s.push(entries(&["x", "y", "z"]));
    assert_eq!(s.levels.len(), 2);
    assert_eq!(s.get_selected(), Some(0));
    assert!(s.current().filter.is_none());
}

#[test]
fn pop_never_drops_below_root() {
    let mut s = DirStack::new(entries(&["a"]));
    s.push(entries(&["x"]));
    assert_eq!(s.levels.len(), 2);
    s.pop();
    assert_eq!(s.levels.len(), 1);
    s.pop();
    s.pop();
    assert_eq!(s.levels.len(), 1);
}

#[test]
fn movement_clamps_to_bounds() {
    let mut s = DirStack::new(entries(&["a", "b", "c"]));
    s.prev();
    assert_eq!(s.get_selected(), Some(0));
    s.next();
    s.next();
    s.next();
    s.next();
    assert_eq!(s.get_selected(), Some(2));
    s.first();
    assert_eq!(s.get_selected(), Some(0));
    s.last();
    assert_eq!(s.get_selected(), Some(2));
}

#[test]
fn half_viewport_moves_by_half_height() {
    let mut s = DirStack::new(entries(&["a", "b", "c", "d", "e", "f"]));
    s.next_half_viewport(4);
    assert_eq!(s.get_selected(), Some(2));
    s.next_half_viewport(100);
    assert_eq!(s.get_selected(), Some(5));
    s.prev_half_viewport(4);
    assert_eq!(s.get_selected(), Some(3));
    s.prev_half_viewport(100);
    assert_eq!(s.get_selected(), Some(0));
}

#[test]
fn scroll_keeps_selection_in_window() {
    let mut s = DirStack::new(entries(&["a", "b", "c", "d", "e", "f"]));
    s.last();
    s.scroll_to_selected(3);
    assert_eq!(s.current().offset, 3);
    s.first();
    s.scroll_to_selected(3);
    assert_eq!(s.current().offset, 0);
}

#[test]
fn filter_restricts_visible_entries_and_is_idempotent() {
    let mut s = DirStack::new(entries(&["apple", "banana", "grape"]));
    s.set_filter(Some(b"ap".to_vec()));
    let once = names_of(&s.current().visible_list());
    assert_eq!(once, vec![b"apple".to_vec(), b"grape".to_vec()]);
    // Applying the same filter again shows the same visible set.
    s.set_filter(Some(b"ap".to_vec()));
    let twice = names_of(&s.current().visible_list());
    assert_eq!(once, twice);
    // Clearing the filter restores the full list in original order.
    s.set_filter(None);
    let full = names_of(&s.current().visible_list());
    assert_eq!(
        full,
        vec![b"apple".to_vec(), b"banana".to_vec(), b"grape".to_vec()]
    );
}

#[test]
fn filter_editing_pushes_and_pops_bytes() {
    let mut s = DirStack::new(entries(&["a"]));
    s.set_filter(Some(Vec::new()));
    s.filter_push(b'a');
    s.filter_push(b'b');
    assert_eq!(s.current().filter, Some(b"ab".to_vec()));
    s.filter_pop();
    assert_eq!(s.current().filter, Some(b"a".to_vec()));
    s.filter_pop();
    s.filter_pop();
    assert_eq!(s.current().filter, Some(Vec::new()));
}

#[test]
fn commit_filter_selects_the_first_match() {
    let mut s = DirStack::new(entries(&["b", "a1", "c", "a2"]));
    s.last();
    assert_eq!(s.get_selected(), Some(3));
    s.set_filter(Some(b"a".to_vec()));
    // Committing moves to the first match overall, not the cyclic next one.
    s.commit_filter();
    assert_eq!(s.get_selected(), Some(1));
    // With no match the selection stays put.
    s.set_filter(Some(b"zzz".to_vec()));
    s.commit_filter();
    assert_eq!(s.get_selected(), Some(1));
}

#[test]
fn jump_forward_cycles_through_matches() {
    let mut s = DirStack::new(entries(&["a1", "b", "a2", "c", "a3"]));
    s.set_filter(Some(b"a".to_vec()));
    assert_eq!(s.get_selected(), Some(0));
    s.jump_forward();
    assert_eq!(s.get_selected(), Some(2));
    s.jump_forward();
    assert_eq!(s.get_selected(), Some(4));
    // The cycle closes: past the last match it wraps to the first.
    s.jump_forward();
    assert_eq!(s.get_selected(), Some(0));
}

#[test]
fn jump_back_is_the_inverse_of_jump_forward() {
    let mut s = DirStack::new(entries(&["a1", "b", "a2", "c", "a3"]));
    s.set_filter(Some(b"a".to_vec()));
    s.jump_forward();
    assert_eq!(s.get_selected(), Some(2));
    s.jump_back();
    assert_eq!(s.get_selected(), Some(0));
    // Backward jumps walk the same cycle in the opposite order.
    s.jump_back();
    assert_eq!(s.get_selected(), Some(4));
    s.jump_back();
    assert_eq!(s.get_selected(), Some(2));
}

#[test]
fn jump_without_matches_keeps_selection() {
    let mut s = DirStack::new(entries(&["a", "b"]));
    s.set_filter(Some(b"zzz".to_vec()));
    s.next();
    s.jump_forward();
    assert_eq!(s.get_selected(), Some(1));
    s.jump_back();
    assert_eq!(s.get_selected(), Some(1));
}

#[test]
fn jump_does_not_discard_entries() {
    let mut s = DirStack::new(entries(&["a1", "b", "a2"]));
    s.set_filter(Some(b"a".to_vec()));
    s.jump_forward();
    assert_eq!(s.current().entries.len(), 3);
}
