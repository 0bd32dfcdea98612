use eru::item_list::{Indices, ItemList};

#[test]
fn new_list_is_empty() {
    let l = ItemList::new(5);
    assert_eq!(l.len(), 0);
    assert!(l.highlighted_row().is_none());
    assert!(l.line_indices_in_clipping_range().is_empty());
    assert!(l.selected_line_indices().is_empty());
}

#[test]
fn identity_range_shows_window() {
    let mut l = ItemList::new(3);
    l.set_line_index_range(0..7);
    assert_eq!(l.len(), 7);
    assert_eq!(l.highlighted_row(), Some(0));
    assert_eq!(l.line_indices_in_clipping_range(), vec![0, 1, 2]);
}

#[test]
fn identity_range_window_follows_scroll() {
    let mut l = ItemList::new(3);
    l.set_line_index_range(0..7);
    l.scroll_forward();
    l.scroll_forward();
    assert_eq!(l.line_indices_in_clipping_range(), vec![2, 3, 4]);
    l.scroll_backward();
    assert_eq!(l.line_indices_in_clipping_range(), vec![1, 2, 3]);
}

#[test]
fn highlight_moves_and_scrolls_at_edge() {
    let mut l = ItemList::new(2);
    l.set_line_index_range(0..4);
    assert_eq!(l.highlighted_row(), Some(0));
    l.move_highlight_forward();
    assert_eq!(l.highlighted_row(), Some(1));
    // At the bottom row: moving forward scrolls instead.
    l.move_highlight_forward();
    assert_eq!(l.highlighted_row(), Some(1));
    assert_eq!(l.line_indices_in_clipping_range(), vec![1, 2]);
    l.move_highlight_backward();
    assert_eq!(l.highlighted_row(), Some(0));
    // At the top row: moving backward scrolls back.
    l.move_highlight_backward();
    assert_eq!(l.highlighted_row(), Some(0));
    assert_eq!(l.line_indices_in_clipping_range(), vec![0, 1]);
}

#[test]
fn explicit_indices_clamp_window_and_highlight() {
    let mut l = ItemList::new(3);
    l.set_line_index_range(0..10);
    for _ in 0..8 {
        l.move_highlight_forward();
    }
    assert_eq!(l.line_indices_in_clipping_range(), vec![6, 7, 8]);
    assert_eq!(l.highlighted_row(), Some(2));
    l.set_line_indices(vec![1, 4]);
    assert_eq!(l.len(), 2);
    assert_eq!(l.line_indices_in_clipping_range(), vec![1, 4]);
    assert_eq!(l.highlighted_row(), Some(1));
}

#[test]
fn shrinking_to_empty_clears_highlight() {
    let mut l = ItemList::new(3);
    l.set_line_index_range(0..4);
    l.set_line_indices(Vec::new());
    assert_eq!(l.len(), 0);
    assert!(l.highlighted_row().is_none());
    assert!(l.selected_line_indices().is_empty());
}

#[test]
fn toggle_marks_and_reports_rows() {
    let mut l = ItemList::new(3);
    l.set_line_index_range(0..5);
    l.toggle_mark();
    l.move_highlight_forward();
    l.toggle_mark();
    assert_eq!(l.marked_rows(), vec![0, 1]);
    assert_eq!(l.selected_line_indices(), vec![0, 1]);
    // Toggling again removes the mark.
    l.toggle_mark();
    assert_eq!(l.marked_rows(), vec![0]);
    assert_eq!(l.selected_line_indices(), vec![0]);
}

#[test]
fn marks_are_reported_in_ascending_index_order() {
    let mut l = ItemList::new(5);
    l.set_line_index_range(0..5);
    l.move_highlight_forward();
    l.move_highlight_forward();
    l.toggle_mark();
    l.move_highlight_backward();
    l.move_highlight_backward();
    l.toggle_mark();
    assert_eq!(l.selected_line_indices(), vec![0, 2]);
}

#[test]
fn selection_without_marks_is_highlight() {
    let mut l = ItemList::new(3);
    l.set_line_indices(vec![4, 7, 9]);
    l.move_highlight_forward();
    assert_eq!(l.selected_line_indices(), vec![7]);
}

#[test]
fn marks_persist_across_provider_swaps() {
    let mut l = ItemList::new(3);
    l.set_line_index_range(0..5);
    l.toggle_mark();
    l.set_line_indices(vec![2, 3]);
    // Index 0 is no longer visible, but the mark survives.
    assert_eq!(l.marked_rows(), Vec::<usize>::new());
    assert_eq!(l.selected_line_indices(), vec![0]);
}

#[test]
fn indices_providers_agree() {
    let r = 0usize..4usize;
    assert_eq!(Indices::count(&r), 4);
    assert_eq!(Indices::at(&r, 2), 2);
    let v: Vec<usize> = vec![5, 9];
    assert_eq!(Indices::count(&v), 2);
    assert_eq!(Indices::at(&v, 1), 9);
}
