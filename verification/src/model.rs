//! The abstract state of a text input and what each operation does to it.
use crate::graphemes::{extended_grapheme_starts, first_after, last_before};
use crate::utf::{
    byte_slice, from_utf16_offset, newlines_to_spaces, on_char_boundary, splice,
    to_utf16_offset, utf8_len,
};
use core::ops::Range;
use vstd::prelude::*;

verus! {

/// Where the pointer stands relative to the laid-out line, as the view measured it.
pub enum PointerPlace {
    /// No line has been laid out yet.
    NoLayout,
    /// Above the line's bounds.
    Above,
    /// Below the line's bounds.
    Below,
    /// Within the line's height; the byte offset of the character closest to the pointer.
    Beside(usize),
}

/// A selection in UTF-16 offsets, as input methods see it.
pub struct Utf16Selection {
    pub range: Range<usize>,
    pub reversed: bool,
}

/// The state of a text input. Offsets are byte offsets into the UTF-8 encoding of
/// `content`.
pub struct InputModel {
    pub content: Seq<char>,
    pub placeholder: Seq<char>,
    pub selected_range: Range<usize>,
    pub selection_reversed: bool,
    pub marked_range: Option<Range<usize>>,
    pub is_selecting: bool,
}

pub open spec fn span(start: usize, end: usize) -> Range<usize> {
    Range { start, end }
}

/// Both ends of `r` are character boundaries of `s`.
pub open spec fn valid_range(s: Seq<char>, r: Range<usize>) -> bool {
    on_char_boundary(s, r.start as int) && on_char_boundary(s, r.end as int)
}

/// Both ends of `r` are character boundaries of `s`, in order.
pub open spec fn ordered_range(s: Seq<char>, r: Range<usize>) -> bool {
    valid_range(s, r) && r.start <= r.end
}

impl InputModel {
    /// Byte length of the content.
    pub open spec fn len(self) -> nat {
        utf8_len(self.content)
    }

    /// The selection and the marked range are ordered ranges of character boundaries.
    pub open spec fn wf(self) -> bool {
        &&& ordered_range(self.content, self.selected_range)
        &&& (self.marked_range matches Some(r) ==> ordered_range(self.content, r))
    }

    pub open spec fn with_selection(self, r: Range<usize>, reversed: bool) -> Self {
        InputModel { selected_range: r, selection_reversed: reversed, ..self }
    }

    /// The end of the selection where the cursor is drawn.
    pub open spec fn cursor_offset(self) -> usize {
        if self.selection_reversed {
            self.selected_range.start
        } else {
            self.selected_range.end
        }
    }

    /// The end of the selection that stays when the selection is extended.
    pub open spec fn anchor_offset(self) -> usize {
        if self.selection_reversed {
            self.selected_range.end
        } else {
            self.selected_range.start
        }
    }

    pub open spec fn selection_is_empty(self) -> bool {
        !(self.selected_range.start < self.selected_range.end)
    }

    /// Collapses the selection to `offset`.
    pub open spec fn move_to(self, offset: usize) -> Self {
        InputModel { selected_range: span(offset, offset), ..self }
    }

    /// Moves the cursor end of the selection to `offset`; when the ends cross, they are
    /// swapped and the direction flips.
    pub open spec fn select_to(self, offset: usize) -> Self {
        let r = if self.selection_reversed {
            span(offset, self.selected_range.end)
        } else {
            span(self.selected_range.start, offset)
        };
        if r.end < r.start {
            self.with_selection(span(r.end, r.start), !self.selection_reversed)
        } else {
            self.with_selection(r, self.selection_reversed)
        }
    }

    pub open spec fn previous_boundary(self, offset: usize) -> usize {
        last_before(extended_grapheme_starts(self.content), offset as int)
    }

    pub open spec fn next_boundary(self, offset: usize) -> usize {
        first_after(extended_grapheme_starts(self.content), offset as int, self.len() as usize)
    }

    pub open spec fn left(self) -> Self {
        self.move_to(self.previous_boundary(self.cursor_offset()))
    }

    pub open spec fn right(self) -> Self {
        self.move_to(self.next_boundary(self.cursor_offset()))
    }

    pub open spec fn start(self) -> Self {
        self.move_to(0)
    }

    pub open spec fn end(self) -> Self {
        self.move_to(self.len() as usize)
    }

    pub open spec fn select_left(self) -> Self {
        self.select_to(self.previous_boundary(self.cursor_offset()))
    }

    pub open spec fn select_right(self) -> Self {
        self.select_to(self.next_boundary(self.cursor_offset()))
    }

    /// Selects the whole content with the cursor at its start.
    pub open spec fn select_all(self) -> Self {
        self.move_to(self.len() as usize).select_to(0)
    }

    /// The selected characters, or nothing when the selection is empty.
    pub open spec fn copy(self) -> Option<Seq<char>> {
        if self.selection_is_empty() {
            None
        } else {
            Some(
                byte_slice(
                    self.content,
                    self.selected_range.start as int,
                    self.selected_range.end as int,
                ),
            )
        }
    }

    pub open spec fn offset_from_utf16(self, offset: usize) -> usize {
        from_utf16_offset(self.content, offset as int) as usize
    }

    pub open spec fn offset_to_utf16(self, offset: usize) -> usize {
        to_utf16_offset(self.content, offset as int) as usize
    }

    pub open spec fn range_from_utf16(self, r: Range<usize>) -> Range<usize> {
        span(self.offset_from_utf16(r.start), self.offset_from_utf16(r.end))
    }

    pub open spec fn range_to_utf16(self, r: Range<usize>) -> Range<usize> {
        span(self.offset_to_utf16(r.start), self.offset_to_utf16(r.end))
    }

    /// The text for a UTF-16 range, after converting it to bytes.
    pub open spec fn text_for_range(self, range_utf16: Range<usize>) -> Seq<char> {
        let r = self.range_from_utf16(range_utf16);
        byte_slice(self.content, r.start as int, r.end as int)
    }

    /// The UTF-16 range that `text_for_range` actually covers.
    pub open spec fn adjusted_range(self, range_utf16: Range<usize>) -> Range<usize> {
        self.range_to_utf16(self.range_from_utf16(range_utf16))
    }

    pub open spec fn selected_text_range(self) -> Utf16Selection {
        Utf16Selection {
            range: self.range_to_utf16(self.selected_range),
            reversed: self.selection_reversed,
        }
    }

    pub open spec fn marked_text_range(self) -> Option<Range<usize>> {
        match self.marked_range {
            Some(r) => Some(self.range_to_utf16(r)),
            None => None,
        }
    }

    pub open spec fn unmark_text(self) -> Self {
        InputModel { marked_range: None, ..self }
    }

    /// The byte range that an edit replaces: the given UTF-16 range converted, else
    /// the marked range, else the selection.
    pub open spec fn replacement_range(self, range_utf16: Option<Range<usize>>) -> Range<usize> {
        match range_utf16 {
            Some(r) => self.range_from_utf16(r),
            None => match self.marked_range {
                Some(m) => m,
                None => self.selected_range,
            },
        }
    }

    /// The content after replacing the byte range `r` with `text`.
    pub open spec fn spliced(self, r: Range<usize>, text: Seq<char>) -> Seq<char> {
        splice(self.content, r.start as int, r.end as int, text)
    }

    /// The replaced range lies on character boundaries and the new content's byte
    /// length fits in `usize`.
    pub open spec fn can_replace(self, range_utf16: Option<Range<usize>>, text: Seq<char>) -> bool {
        let r = self.replacement_range(range_utf16);
        &&& valid_range(self.content, r)
        &&& r.start + utf8_len(text) + (self.len() - r.end) <= usize::MAX
    }

    /// Replaces the range with `text`, puts the cursor after it and drops the marked range.
    pub open spec fn replace_text_in_range(
        self,
        range_utf16: Option<Range<usize>>,
        text: Seq<char>,
    ) -> Self {
        let r = self.replacement_range(range_utf16);
        let cursor = (r.start + utf8_len(text)) as usize;
        InputModel {
            content: self.spliced(r, text),
            selected_range: span(cursor, cursor),
            marked_range: None,
            ..self
        }
    }

    /// Replaces the range with `text` and marks it; the new selection is the given
    /// UTF-16 range converted in the new content and shifted by the replaced range's
    /// ends, or else the point after `text`.
    pub open spec fn replace_and_mark_text_in_range(
        self,
        range_utf16: Option<Range<usize>>,
        text: Seq<char>,
        new_selected_range_utf16: Option<Range<usize>>,
    ) -> Self {
        let r = self.replacement_range(range_utf16);
        let content = self.spliced(r, text);
        let after = (r.start + utf8_len(text)) as usize;
        let marked = if text.len() > 0 {
            Some(span(r.start, after))
        } else {
            None
        };
        let selected = match new_selected_range_utf16 {
            Some(s) => span(
                (from_utf16_offset(content, s.start as int) + r.start) as usize,
                (from_utf16_offset(content, s.end as int) + r.end) as usize,
            ),
            None => span(after, after),
        };
        InputModel { content, selected_range: selected, marked_range: marked, ..self }
    }

    /// As `can_replace`, and the shifted selection fits in `usize`.
    pub open spec fn can_replace_and_mark(
        self,
        range_utf16: Option<Range<usize>>,
        text: Seq<char>,
        new_selected_range_utf16: Option<Range<usize>>,
    ) -> bool {
        let r = self.replacement_range(range_utf16);
        let content = self.spliced(r, text);
        &&& self.can_replace(range_utf16, text)
        &&& (new_selected_range_utf16 matches Some(s) ==> {
            &&& from_utf16_offset(content, s.start as int) + r.start <= usize::MAX
            &&& from_utf16_offset(content, s.end as int) + r.end <= usize::MAX
        })
    }

    /// Removes the selected text.
    pub open spec fn cut(self) -> Self {
        if self.selection_is_empty() {
            self
        } else {
            self.unmark_text().replace_text_in_range(None, Seq::empty())
        }
    }

    /// The selection can be copied: empty, or its ends lie on character boundaries.
    pub open spec fn can_copy(self) -> bool {
        self.selection_is_empty() || valid_range(self.content, self.selected_range)
    }

    pub open spec fn can_cut(self) -> bool {
        self.selection_is_empty() || self.unmark_text().can_replace(None, Seq::empty())
    }

    /// Inserts `text`, line feeds turned into spaces, in place of the selection.
    pub open spec fn paste(self, text: Seq<char>) -> Self {
        self.unmark_text().replace_text_in_range(None, newlines_to_spaces(text))
    }

    pub open spec fn can_paste(self, text: Seq<char>) -> bool {
        self.unmark_text().can_replace(None, newlines_to_spaces(text))
    }

    /// Removes the selection, or the grapheme before the cursor when nothing is selected.
    pub open spec fn backspace(self) -> Self {
        if self.selection_is_empty() {
            let p = self.previous_boundary(self.cursor_offset());
            if self.cursor_offset() == p {
                self
            } else {
                self.select_to(p).replace_text_in_range(None, Seq::empty())
            }
        } else {
            self.replace_text_in_range(None, Seq::empty())
        }
    }

    /// Removes the selection, or the grapheme after the cursor when nothing is selected.
    pub open spec fn delete(self) -> Self {
        if self.selection_is_empty() {
            let n = self.next_boundary(self.cursor_offset());
            if self.cursor_offset() == n {
                self
            } else {
                self.select_to(n).replace_text_in_range(None, Seq::empty())
            }
        } else {
            self.replace_text_in_range(None, Seq::empty())
        }
    }

    /// The ranges that `backspace` cuts at lie on character boundaries.
    pub open spec fn can_backspace(self) -> bool {
        if self.selection_is_empty() && self.cursor_offset() == 0 {
            true
        } else if self.selection_is_empty() && self.marked_range is None {
            on_char_boundary(self.content, self.anchor_offset() as int)
        } else {
            self.can_replace(None, Seq::empty())
        }
    }

    /// The ranges that `delete` cuts at lie on character boundaries.
    pub open spec fn can_delete(self) -> bool {
        if self.selection_is_empty() && self.cursor_offset() == self.len() {
            true
        } else if self.selection_is_empty() && self.marked_range is None {
            on_char_boundary(self.content, self.anchor_offset() as int)
        } else {
            self.can_replace(None, Seq::empty())
        }
    }

    /// Empties the input.
    pub open spec fn clear(self) -> Self {
        InputModel {
            content: Seq::empty(),
            selected_range: span(0, 0),
            selection_reversed: false,
            marked_range: None,
            is_selecting: false,
            ..self
        }
    }

    /// The byte offset that a pointer at `place` designates.
    pub open spec fn index_for_mouse_position(self, place: PointerPlace) -> usize {
        if self.content.len() == 0 {
            0
        } else {
            match place {
                PointerPlace::NoLayout => 0,
                PointerPlace::Above => 0,
                PointerPlace::Below => self.len() as usize,
                PointerPlace::Beside(i) => i,
            }
        }
    }

    /// Starts a mouse selection; with shift held the selection is extended, else the
    /// cursor moves.
    pub open spec fn on_mouse_down(self, shift: bool, place: PointerPlace) -> Self {
        let selecting = InputModel { is_selecting: true, ..self };
        let i = self.index_for_mouse_position(place);
        if shift {
            selecting.select_to(i)
        } else {
            selecting.move_to(i)
        }
    }

    pub open spec fn on_mouse_up(self) -> Self {
        InputModel { is_selecting: false, ..self }
    }

    /// Extends the selection while a mouse selection is active.
    pub open spec fn on_mouse_move(self, place: PointerPlace) -> Self {
        if self.is_selecting {
            self.select_to(self.index_for_mouse_position(place))
        } else {
            self
        }
    }
}

} // verus!
