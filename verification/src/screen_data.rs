//! The immutable frame snapshot handed to the renderer.

use vstd::prelude::*;

use crate::item::Item;

verus! {

/// Abstract value of a [`ScreenData`].
pub struct ScreenDataV {
    pub cursor_index: int,
    pub highlighted_row: Option<int>,
    pub is_cjk: bool,
    pub item_list_len: int,
    pub items: Seq<Seq<char>>,
    pub marked_rows: Seq<usize>,
    pub query_string: Seq<char>,
    pub status_message: Option<Seq<char>>,
    pub total_lines: int,
}

/// Everything the renderer needs for one frame: the query line and cursor
/// column, the visible items, the highlight and marks relative to the
/// clipping window, and the counts for the status line.
pub struct ScreenData {
    pub cursor_index: usize,
    pub highlighted_row: Option<usize>,
    pub is_cjk: bool,
    pub item_list_len: usize,
    pub items: Vec<Item>,
    pub marked_rows: Vec<usize>,
    pub query_string: String,
    pub status_message: Option<String>,
    pub total_lines: usize,
}

impl View for ScreenData {
    type V = ScreenDataV;

    open spec fn view(&self) -> ScreenDataV {
        ScreenDataV {
            cursor_index: self.cursor_index as int,
            highlighted_row: match self.highlighted_row {
                Some(r) => Some(r as int),
                None => None,
            },
            is_cjk: self.is_cjk,
            item_list_len: self.item_list_len as int,
            items: self.items@.map_values(|it: Item| it.string@),
            marked_rows: self.marked_rows@,
            query_string: self.query_string@,
            status_message: match self.status_message {
                Some(ref m) => Some(m@),
                None => None,
            },
            total_lines: self.total_lines as int,
        }
    }
}

} // verus!
