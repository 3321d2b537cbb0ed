//! The text input itself: its fields, and each editing operation, proved to do to
//! the state what `InputModel` says.
use crate::graphemes::{
    extended_grapheme_starts, next_grapheme_boundary, previous_grapheme_boundary,
};
use crate::model::{span, valid_range, InputModel, PointerPlace, Utf16Selection};
use crate::utf::{
    byte_len, is_boundary, lemma_char_index, lemma_char_index_of_boundary, lemma_offset_full,
    lemma_offset_monotonic, lemma_splice, on_char_boundary, replace_newlines, slice_bytes,
    splice_bytes, utf16_offset_for_utf8, utf8_len, utf8_offset_for_utf16,
};
use core::ops::Range;
use vstd::prelude::*;

verus! {

/// The optional text that an operation hands back, by its characters.
pub open spec fn text_of(t: Option<String>) -> Option<Seq<char>> {
    match t {
        Some(s) => Some(s@),
        None => None,
    }
}

/// A single-line text input. Offsets are byte offsets into `content`.
pub struct TextInput {
    pub content: String,
    pub placeholder: String,
    pub selected_range_utf8: Range<usize>,
    pub selection_reversed: bool,
    pub marked_range_utf8: Option<Range<usize>>,
    pub is_selecting: bool,
}

impl View for TextInput {
    type V = InputModel;

    open spec fn view(&self) -> InputModel {
        InputModel {
            content: self.content@,
            placeholder: self.placeholder@,
            selected_range: self.selected_range_utf8,
            selection_reversed: self.selection_reversed,
            marked_range: self.marked_range_utf8,
            is_selecting: self.is_selecting,
        }
    }
}

impl TextInput {
    /// An empty input showing `placeholder`.
    pub fn new(placeholder: String) -> (r: Self)
        ensures
            r@.content == Seq::<char>::empty(),
            r@.placeholder == placeholder@,
            r@.selected_range == span(0, 0),
            !r@.selection_reversed,
            r@.marked_range is None,
            !r@.is_selecting,
            r@.wf(),
    {
        let r = TextInput {
            content: String::new(),
            placeholder,
            selected_range_utf8: Range { start: 0, end: 0 },
            selection_reversed: false,
            marked_range_utf8: None,
            is_selecting: false,
        };
        proof {
            assert(r@.content.take(0) =~= Seq::<char>::empty());
            lemma_char_index(r@.content, 0);
        }
        r
    }

    /// Byte length of the content.
    pub fn content_len(&self) -> (n: usize)
        ensures
            n == self@.len(),
    {
        byte_len(self.content.as_str())
    }

    /// Returns the offset at which the cursor must be drawn.
    pub fn cursor_offset(&self) -> (r: usize)
        ensures
            r == self@.cursor_offset(),
    {
        if self.selection_reversed {
            self.selected_range_utf8.start
        } else {
            self.selected_range_utf8.end
        }
    }

    /// Sets the cursor offset.
    pub fn move_to(&mut self, offset_utf8: usize)
        ensures
            final(self)@ == old(self)@.move_to(offset_utf8),
            old(self)@.wf() && on_char_boundary(old(self)@.content, offset_utf8 as int)
                ==> final(self)@.wf(),
    {
        self.selected_range_utf8 = Range { start: offset_utf8, end: offset_utf8 };
    }

    /// Moves a selection range bound to the offset: the start bound if the selection
    /// is reversed, the end bound otherwise; the bounds are swapped when they cross.
    pub fn select_to(&mut self, offset_utf8: usize)
        ensures
            final(self)@ == old(self)@.select_to(offset_utf8),
            old(self)@.wf() && on_char_boundary(old(self)@.content, offset_utf8 as int)
                ==> final(self)@.wf(),
    {
        if self.selection_reversed {
            self.selected_range_utf8 = Range { start: offset_utf8, end: self.selected_range_utf8.end };
        } else {
            self.selected_range_utf8 = Range { start: self.selected_range_utf8.start, end: offset_utf8 };
        }
        if self.selected_range_utf8.end < self.selected_range_utf8.start {
            self.selection_reversed = !self.selection_reversed;
            self.selected_range_utf8 = Range {
                start: self.selected_range_utf8.end,
                end: self.selected_range_utf8.start,
            };
        }
    }

    /// Returns the byte offset of the previous grapheme boundary from the offset passed into it.
    pub fn previous_boundary(&self, offset_utf8: usize) -> (r: usize)
        ensures
            r == self@.previous_boundary(offset_utf8),
            r < offset_utf8 || r == 0,
            on_char_boundary(self@.content, r as int),
            forall|i: int|
                0 <= i < extended_grapheme_starts(self@.content).len() && (
                #[trigger] extended_grapheme_starts(self@.content)[i] as int) < offset_utf8
                    ==> extended_grapheme_starts(self@.content)[i] <= r,
    {
        previous_grapheme_boundary(self.content.as_str(), offset_utf8)
    }

    /// Returns the byte offset of the next grapheme boundary from the offset passed into it.
    pub fn next_boundary(&self, offset_utf8: usize) -> (r: usize)
        ensures
            r == self@.next_boundary(offset_utf8),
            r > offset_utf8 || r == self@.len(),
            offset_utf8 >= self@.len() ==> r == self@.len(),
            on_char_boundary(self@.content, r as int),
            forall|i: int|
                0 <= i < extended_grapheme_starts(self@.content).len() && (
                #[trigger] extended_grapheme_starts(self@.content)[i] as int) > offset_utf8
                    ==> r <= extended_grapheme_starts(self@.content)[i],
            extended_grapheme_starts(self@.content).contains(offset_utf8) ==> self@.previous_boundary(
                r,
            ) == offset_utf8,
    {
        next_grapheme_boundary(self.content.as_str(), offset_utf8)
    }

    /// Moves the cursor to the previous grapheme boundary and removes selection.
    pub fn left(&mut self)
        ensures
            final(self)@ == old(self)@.left(),
            old(self)@.wf() ==> final(self)@.wf(),
            final(self)@.cursor_offset() < old(self)@.cursor_offset() || final(self)@.cursor_offset()
                == 0,
    {
        let o = self.previous_boundary(self.cursor_offset());
        self.move_to(o);
    }

    /// Moves the cursor to the next grapheme boundary and removes selection.
    pub fn right(&mut self)
        ensures
            final(self)@ == old(self)@.right(),
            old(self)@.wf() ==> final(self)@.wf(),
            final(self)@.cursor_offset() > old(self)@.cursor_offset() || final(self)@.cursor_offset()
                == old(self)@.len(),
    {
        let o = self.next_boundary(self.cursor_offset());
        self.move_to(o);
    }

    /// Moves the cursor to the start of the content.
    pub fn start(&mut self)
        ensures
            final(self)@ == old(self)@.start(),
            old(self)@.wf() ==> final(self)@.wf(),
    {
        proof {
            assert(self@.content.take(0) =~= Seq::<char>::empty());
            lemma_char_index(self@.content, 0);
        }
        self.move_to(0);
    }

    /// Moves the cursor to the end of the content.
    pub fn end(&mut self)
        ensures
            final(self)@ == old(self)@.end(),
            old(self)@.wf() ==> final(self)@.wf(),
    {
        let n = self.content_len();
        proof {
            lemma_offset_full(self@.content);
            lemma_char_index(self@.content, self@.content.len() as int);
        }
        self.move_to(n);
    }

    /// Moves the cursor end of the selection to the previous grapheme boundary.
    pub fn select_left(&mut self)
        ensures
            final(self)@ == old(self)@.select_left(),
            old(self)@.wf() ==> final(self)@.wf(),
    {
        let o = self.previous_boundary(self.cursor_offset());
        self.select_to(o);
    }

    /// Moves the cursor end of the selection to the next grapheme boundary.
    pub fn select_right(&mut self)
        ensures
            final(self)@ == old(self)@.select_right(),
            old(self)@.wf() ==> final(self)@.wf(),
    {
        let o = self.next_boundary(self.cursor_offset());
        self.select_to(o);
    }

    /// Selects all content, leaving the cursor at the start.
    pub fn select_all(&mut self)
        ensures
            final(self)@ == old(self)@.select_all(),
            final(self)@.selected_range == span(0, old(self)@.len() as usize),
            final(self)@.cursor_offset() == 0,
            old(self)@.wf() ==> final(self)@.wf(),
    {
        let n = self.content_len();
        proof {
            assert(self@.content.take(0) =~= Seq::<char>::empty());
            lemma_char_index(self@.content, 0);
            lemma_offset_full(self@.content);
            lemma_char_index(self@.content, self@.content.len() as int);
        }
        self.move_to(n);
        self.select_to(0);
    }

    /// The selected text, for the clipboard; nothing when the selection is empty.
    pub fn copy(&self) -> (r: Option<String>)
        requires
            self@.can_copy(),
        ensures
            text_of(r) == self@.copy(),
    {
        if self.selected_range_utf8.start < self.selected_range_utf8.end {
            Some(
                slice_bytes(
                    self.content.as_str(),
                    self.selected_range_utf8.start,
                    self.selected_range_utf8.end,
                ),
            )
        } else {
            None
        }
    }

    /// Removes the selected text and hands it back, for the clipboard; nothing happens
    /// when the selection is empty. The marked range, if any, is dropped.
    pub fn cut(&mut self) -> (r: Option<String>)
        requires
            old(self)@.can_cut(),
        ensures
            text_of(r) == old(self)@.copy(),
            final(self)@ == old(self)@.cut(),
            old(self)@.wf() ==> final(self)@.wf(),
    {
        if self.selected_range_utf8.start < self.selected_range_utf8.end {
            let text = slice_bytes(
                self.content.as_str(),
                self.selected_range_utf8.start,
                self.selected_range_utf8.end,
            );
            let empty = String::new();
            self.marked_range_utf8 = None;
            self.replace_text_in_range(None, empty.as_str());
            Some(text)
        } else {
            None
        }
    }

    /// Replaces the selection with `text`, line feeds turned into spaces; the marked
    /// range, if any, is dropped.
    pub fn paste(&mut self, text: &str)
        requires
            old(self)@.can_paste(text@),
        ensures
            final(self)@ == old(self)@.paste(text@),
            old(self)@.wf() ==> final(self)@.wf(),
    {
        let t = replace_newlines(text);
        self.marked_range_utf8 = None;
        self.replace_text_in_range(None, t.as_str());
    }

    /// Removes the selection, or else the grapheme to the left of the cursor.
    pub fn backspace(&mut self)
        requires
            old(self)@.can_backspace(),
        ensures
            final(self)@ == old(self)@.backspace(),
            old(self)@.wf() ==> final(self)@.wf(),
            old(self)@.wf() && old(self)@.selection_is_empty() && old(self)@.marked_range is None
                && old(self)@.cursor_offset() > 0 ==> final(self)@.len() < old(self)@.len()
                && final(self)@.cursor_offset() < old(self)@.cursor_offset(),
    {
        // The content's byte length is known to fit in `usize` from here on.
        let _len = self.content_len();
        if !(self.selected_range_utf8.start < self.selected_range_utf8.end) {
            let cursor = self.cursor_offset();
            let previous_boundary = self.previous_boundary(cursor);
            if cursor == previous_boundary {
                return;
            }
            self.select_to(previous_boundary);
        }
        let empty = String::new();
        proof {
            lemma_utf8_empty();
        }
        self.replace_text_in_range(None, empty.as_str());
    }

    /// Removes the selection, or else the grapheme to the right of the cursor.
    pub fn delete(&mut self)
        requires
            old(self)@.can_delete(),
        ensures
            final(self)@ == old(self)@.delete(),
            old(self)@.wf() ==> final(self)@.wf(),
            old(self)@.wf() && old(self)@.selection_is_empty() && old(self)@.marked_range is None
                && old(self)@.cursor_offset() < old(self)@.len() ==> final(self)@.len() < old(
                self,
            )@.len() && final(self)@.cursor_offset() == old(self)@.cursor_offset(),
            old(self)@.selection_is_empty() && old(self)@.cursor_offset() == old(self)@.len()
                ==> final(self)@ == old(self)@,
    {
        // The content's byte length is known to fit in `usize` from here on.
        let _len = self.content_len();
        if !(self.selected_range_utf8.start < self.selected_range_utf8.end) {
            let cursor = self.cursor_offset();
            let next_boundary = self.next_boundary(cursor);
            if cursor == next_boundary {
                return;
            }
            self.select_to(next_boundary);
        }
        let empty = String::new();
        proof {
            lemma_utf8_empty();
        }
        self.replace_text_in_range(None, empty.as_str());
    }

    /// Fully clears the input.
    pub fn clear(&mut self)
        ensures
            final(self)@ == old(self)@.clear(),
            final(self)@.wf(),
    {
        self.content = String::new();
        self.selected_range_utf8 = Range { start: 0, end: 0 };
        self.selection_reversed = false;
        self.marked_range_utf8 = None;
        self.is_selecting = false;
        proof {
            assert(self@.content.take(0) =~= Seq::<char>::empty());
            lemma_char_index(self@.content, 0);
        }
    }

    /// The byte offset at which the cursor goes for a pointer at `place`.
    pub fn index_for_mouse_position(&self, place: &PointerPlace) -> (r: usize)
        ensures
            r == self@.index_for_mouse_position(*place),
    {
        if self.content.as_str().is_empty() {
            return 0;
        }
        match place {
            PointerPlace::NoLayout => 0,
            PointerPlace::Above => 0,
            PointerPlace::Below => self.content_len(),
            PointerPlace::Beside(i) => *i,
        }
    }

    /// Activates mouse selection; extends the selection to the pointer when shift is
    /// held, else moves the cursor there.
    pub fn on_mouse_down(&mut self, shift: bool, place: &PointerPlace)
        ensures
            final(self)@ == old(self)@.on_mouse_down(shift, *place),
            old(self)@.wf() && on_char_boundary(
                old(self)@.content,
                old(self)@.index_for_mouse_position(*place) as int,
            ) ==> final(self)@.wf(),
    {
        self.is_selecting = true;
        let i = self.index_for_mouse_position(place);
        if shift {
            self.select_to(i);
        } else {
            self.move_to(i);
        }
    }

    /// Deactivates mouse selection.
    pub fn on_mouse_up(&mut self)
        ensures
            final(self)@ == old(self)@.on_mouse_up(),
    {
        self.is_selecting = false;
    }

    /// Extends the selection to the pointer while a mouse selection is active.
    pub fn on_mouse_move(&mut self, place: &PointerPlace)
        ensures
            final(self)@ == old(self)@.on_mouse_move(*place),
            old(self)@.wf() && on_char_boundary(
                old(self)@.content,
                old(self)@.index_for_mouse_position(*place) as int,
            ) ==> final(self)@.wf(),
    {
        if self.is_selecting {
            let i = self.index_for_mouse_position(place);
            self.select_to(i);
        }
    }

    /// Returns the number of UTF-8 bytes that encode the content up to the UTF-16
    /// offset passed into it.
    pub fn offset_from_utf16(&self, offset_utf16: usize) -> (r: usize)
        ensures
            r == self@.offset_from_utf16(offset_utf16),
            on_char_boundary(self@.content, r as int),
            r <= self@.len(),
    {
        utf8_offset_for_utf16(self.content.as_str(), offset_utf16)
    }

    /// Returns the number of UTF-16 code units that encode the content up to the UTF-8
    /// offset passed into it.
    pub fn offset_to_utf16(&self, offset_utf8: usize) -> (r: usize)
        ensures
            r == self@.offset_to_utf16(offset_utf8),
    {
        utf16_offset_for_utf8(self.content.as_str(), offset_utf8)
    }

    /// Converts a UTF-16 offset range to a UTF-8 one.
    pub fn range_from_utf16(&self, range_utf16: &Range<usize>) -> (r: Range<usize>)
        ensures
            r == self@.range_from_utf16(*range_utf16),
            on_char_boundary(self@.content, r.start as int),
            on_char_boundary(self@.content, r.end as int),
    {
        Range {
            start: self.offset_from_utf16(range_utf16.start),
            end: self.offset_from_utf16(range_utf16.end),
        }
    }

    /// Converts a UTF-8 offset range to a UTF-16 one.
    pub fn range_to_utf16(&self, range_utf8: &Range<usize>) -> (r: Range<usize>)
        ensures
            r == self@.range_to_utf16(*range_utf8),
    {
        Range { start: self.offset_to_utf16(range_utf8.start), end: self.offset_to_utf16(range_utf8.end) }
    }

    /// The text in a UTF-16 range; `adjusted_range` receives the UTF-16 range that the
    /// returned text actually covers.
    pub fn text_for_range(
        &self,
        range_utf16: Range<usize>,
        adjusted_range: &mut Option<Range<usize>>,
    ) -> (r: Option<String>)
        requires
            self@.offset_from_utf16(range_utf16.start) <= self@.offset_from_utf16(
                range_utf16.end,
            ),
        ensures
            text_of(r) == Some(self@.text_for_range(range_utf16)),
            *final(adjusted_range) == Some(self@.adjusted_range(range_utf16)),
    {
        let range_utf8 = self.range_from_utf16(&range_utf16);
        *adjusted_range = Some(self.range_to_utf16(&range_utf8));
        Some(slice_bytes(self.content.as_str(), range_utf8.start, range_utf8.end))
    }

    /// The selection in UTF-16 offsets, and its direction.
    pub fn selected_text_range(&self) -> (r: Option<Utf16Selection>)
        ensures
            r == Some(self@.selected_text_range()),
    {
        Some(
            Utf16Selection {
                range: self.range_to_utf16(&self.selected_range_utf8),
                reversed: self.selection_reversed,
            },
        )
    }

    /// The marked range in UTF-16 offsets, if there is one.
    pub fn marked_text_range(&self) -> (r: Option<Range<usize>>)
        ensures
            r == self@.marked_text_range(),
    {
        match &self.marked_range_utf8 {
            Some(range_utf8) => Some(self.range_to_utf16(range_utf8)),
            None => None,
        }
    }

    /// Drops the marked range.
    pub fn unmark_text(&mut self)
        ensures
            final(self)@ == old(self)@.unmark_text(),
            old(self)@.wf() ==> final(self)@.wf(),
    {
        self.marked_range_utf8 = None;
    }

    /// Whether `offset` is a character boundary of the content (its end included).
    pub fn is_char_boundary(&self, offset: usize) -> (r: bool)
        ensures
            r == on_char_boundary(self@.content, offset as int),
    {
        is_boundary(self.content.as_str(), offset)
    }

    fn on_boundaries(&self, range: &Range<usize>) -> (r: bool)
        ensures
            r == valid_range(self@.content, *range),
    {
        self.is_char_boundary(range.start) && self.is_char_boundary(range.end)
    }

    /// Whether `copy` can take the selection: it is empty or lies on character boundaries.
    pub fn can_copy(&self) -> (r: bool)
        ensures
            r == self@.can_copy(),
    {
        !(self.selected_range_utf8.start < self.selected_range_utf8.end) || self.on_boundaries(
            &self.selected_range_utf8,
        )
    }

    /// Whether replacing the bytes of `range` with `new_text` cuts the content on
    /// character boundaries and leaves a content whose length fits in `usize`.
    fn can_replace_range(&self, range: &Range<usize>, new_text: &str) -> (r: bool)
        ensures
            r == (valid_range(self@.content, *range) && range.start + utf8_len(new_text@) + (
            self@.len() - range.end) <= usize::MAX),
    {
        if !self.on_boundaries(range) {
            return false;
        }
        let len = self.content_len();
        let n = byte_len(new_text);
        proof {
            lemma_char_index_of_boundary(self@.content, range.end as int);
        }
        match range.start.checked_add(n) {
            Some(x) => match x.checked_add(len - range.end) {
                Some(_) => true,
                None => false,
            },
            None => false,
        }
    }

    /// Whether an edit of `range_utf16` with `new_text` cuts the content on character
    /// boundaries and leaves a content whose length fits in `usize`.
    pub fn can_replace(&self, range_utf16: &Option<Range<usize>>, new_text: &str) -> (r: bool)
        ensures
            r == self@.can_replace(*range_utf16, new_text@),
    {
        let range = self.replacement_range(range_utf16);
        self.can_replace_range(&range, new_text)
    }

    /// Whether `replace_and_mark_text_in_range` can run on these arguments: as for
    /// `can_replace`, and the shifted selection fits in `usize`.
    pub fn can_replace_and_mark(
        &self,
        range_utf16: &Option<Range<usize>>,
        new_text: &str,
        new_selected_range_utf16: &Option<Range<usize>>,
    ) -> (r: bool)
        ensures
            r == self@.can_replace_and_mark(*range_utf16, new_text@, *new_selected_range_utf16),
    {
        if !self.can_replace(range_utf16, new_text) {
            return false;
        }
        match new_selected_range_utf16 {
            None => true,
            Some(selected) => {
                let range = self.replacement_range(range_utf16);
                let content = splice_bytes(self.content.as_str(), range.start, range.end, new_text);
                let start = utf8_offset_for_utf16(content.as_str(), selected.start);
                let end = utf8_offset_for_utf16(content.as_str(), selected.end);
                match (start.checked_add(range.start), end.checked_add(range.end)) {
                    (Some(_), Some(_)) => true,
                    _ => false,
                }
            },
        }
    }

    /// Whether `cut` can run: the selection is empty, or it lies on character boundaries
    /// and can be replaced.
    pub fn can_cut(&self) -> (r: bool)
        ensures
            r == self@.can_cut(),
    {
        let empty = String::new();
        !(self.selected_range_utf8.start < self.selected_range_utf8.end)
            || self.can_replace_range(&self.selected_range_utf8, empty.as_str())
    }

    /// Whether `paste` can insert `text`.
    pub fn can_paste(&self, text: &str) -> (r: bool)
        ensures
            r == self@.can_paste(text@),
    {
        let t = replace_newlines(text);
        self.can_replace_range(&self.selected_range_utf8, t.as_str())
    }

    fn can_remove(&self, at_limit: bool) -> (r: bool)
        ensures
            r == (if self@.selection_is_empty() && at_limit {
                true
            } else if self@.selection_is_empty() && self@.marked_range is None {
                on_char_boundary(self@.content, self@.anchor_offset() as int)
            } else {
                self@.can_replace(None, Seq::empty())
            }),
    {
        let empty = !(self.selected_range_utf8.start < self.selected_range_utf8.end);
        if empty && at_limit {
            true
        } else if empty && self.marked_range_utf8.is_none() {
            let anchor = if self.selection_reversed {
                self.selected_range_utf8.end
            } else {
                self.selected_range_utf8.start
            };
            self.is_char_boundary(anchor)
        } else {
            let nothing = String::new();
            self.can_replace(&None, nothing.as_str())
        }
    }

    /// Whether `backspace` can run.
    pub fn can_backspace(&self) -> (r: bool)
        ensures
            r == self@.can_backspace(),
    {
        self.can_remove(self.cursor_offset() == 0)
    }

    /// Whether `delete` can run.
    pub fn can_delete(&self) -> (r: bool)
        ensures
            r == self@.can_delete(),
    {
        let len = self.content_len();
        self.can_remove(self.cursor_offset() == len)
    }

    /// The byte range that an edit replaces: the given UTF-16 range converted, else the
    /// marked range, else the selection.
    fn replacement_range(&self, range_utf16: &Option<Range<usize>>) -> (r: Range<usize>)
        ensures
            r == self@.replacement_range(*range_utf16),
            range_utf16 is Some ==> on_char_boundary(self@.content, r.start as int)
                && on_char_boundary(self@.content, r.end as int),
    {
        match range_utf16 {
            Some(range) => self.range_from_utf16(range),
            None => match &self.marked_range_utf8 {
                Some(m) => Range { start: m.start, end: m.end },
                None => Range { start: self.selected_range_utf8.start, end: self.selected_range_utf8.end },
            },
        }
    }

    /// Replaces the given UTF-16 range (else the marked range, else the selection) with
    /// `new_text`, puts the cursor after it and drops the marked range.
    pub fn replace_text_in_range(&mut self, range_utf16: Option<Range<usize>>, new_text: &str)
        requires
            old(self)@.can_replace(range_utf16, new_text@),
        ensures
            final(self)@ == old(self)@.replace_text_in_range(range_utf16, new_text@),
            final(self)@.wf(),
            final(self)@.len() == old(self)@.replacement_range(range_utf16).start + utf8_len(
                new_text@,
            ) + (old(self)@.len() - old(self)@.replacement_range(range_utf16).end),
    {
        let range_utf8 = self.replacement_range(&range_utf16);
        let n = byte_len(new_text);
        let ghost old_content = self@.content;
        let content = splice_bytes(self.content.as_str(), range_utf8.start, range_utf8.end, new_text);
        proof {
            lemma_splice(old_content, range_utf8.start as int, range_utf8.end as int, new_text@);
            lemma_char_index_of_boundary(old_content, range_utf8.end as int);
        }
        self.content = content;
        let cursor = range_utf8.start + n;
        self.selected_range_utf8 = Range { start: cursor, end: cursor };
        self.marked_range_utf8 = None;
    }

    /// Replaces the given UTF-16 range (else the marked range, else the selection) with
    /// `new_text` and marks the inserted text; the selection becomes the given UTF-16
    /// range converted in the new content and shifted by the replaced range's ends, or
    /// else the point after the inserted text.
    pub fn replace_and_mark_text_in_range(
        &mut self,
        range_utf16: Option<Range<usize>>,
        new_text: &str,
        new_selected_range_utf16: Option<Range<usize>>,
    )
        requires
            old(self)@.can_replace_and_mark(range_utf16, new_text@, new_selected_range_utf16),
        ensures
            final(self)@ == old(self)@.replace_and_mark_text_in_range(
                range_utf16,
                new_text@,
                new_selected_range_utf16,
            ),
            new_selected_range_utf16 is None ==> final(self)@.wf(),
    {
        let range_utf8 = self.replacement_range(&range_utf16);
        let n = byte_len(new_text);
        let ghost old_content = self@.content;
        let content = splice_bytes(self.content.as_str(), range_utf8.start, range_utf8.end, new_text);
        proof {
            lemma_splice(old_content, range_utf8.start as int, range_utf8.end as int, new_text@);
            lemma_char_index_of_boundary(old_content, range_utf8.end as int);
        }
        proof {
            lemma_offset_monotonic(new_text@, 0, new_text@.len() as int);
            lemma_offset_full(new_text@);
            if new_text@.len() == 0 {
                assert(new_text@ =~= Seq::<char>::empty());
            }
        }
        self.content = content;
        let after = range_utf8.start + n;
        if n > 0 {
            self.marked_range_utf8 = Some(Range { start: range_utf8.start, end: after });
        } else {
            self.marked_range_utf8 = None;
        }
        match &new_selected_range_utf16 {
            Some(new_range_utf16) => {
                let new_range_utf8 = self.range_from_utf16(new_range_utf16);
                self.selected_range_utf8 = Range {
                    start: new_range_utf8.start + range_utf8.start,
                    end: new_range_utf8.end + range_utf8.end,
                };
            },
            None => {
                self.selected_range_utf8 = Range { start: after, end: after };
            },
        }
    }
}

proof fn lemma_utf8_empty()
    ensures
        utf8_len(Seq::<char>::empty()) == 0,
{
}

} // verus!
