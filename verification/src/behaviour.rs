//! What each operation of a text input does, stated over the content, the byte
//! offsets and the grapheme cluster starts, for every state and argument.
use crate::graphemes::{
    extended_grapheme_starts, first_after, last_before, lemma_first_after, lemma_last_before,
};
use crate::laws::lemma_offsets_at_character;
use crate::model::{span, InputModel, PointerPlace};
use crate::utf::{
    byte_offset, byte_slice, char_index, from_utf16_offset, lemma_char_index,
    lemma_char_index_of_boundary, lemma_offset_full, lemma_offset_monotonic, lemma_splice,
    lemma_utf8_len_concat, newlines_to_spaces, on_char_boundary, splice, to_utf16_offset,
    utf16_len, utf8_len,
};
use core::ops::Range;
use vstd::prelude::*;

verus! {

/// The end of the selection that moves: its start when reversed, else its end.
pub open spec fn moving_end(m: InputModel) -> usize {
    if m.selection_reversed {
        m.selected_range.start
    } else {
        m.selected_range.end
    }
}

/// The end of the selection that stays when the selection is extended.
pub open spec fn fixed_end(m: InputModel) -> usize {
    if m.selection_reversed {
        m.selected_range.end
    } else {
        m.selected_range.start
    }
}

/// Nothing but the selection changed.
pub open spec fn only_selection_changed(a: InputModel, b: InputModel) -> bool {
    &&& b.content == a.content
    &&& b.placeholder == a.placeholder
    &&& b.marked_range == a.marked_range
    &&& b.is_selecting == a.is_selecting
}

/// The selection is `start..end` in order, with its moving end at `cursor`.
pub open spec fn selects(m: InputModel, from: usize, cursor: usize) -> bool {
    &&& moving_end(m) == cursor
    &&& fixed_end(m) == from
    &&& m.selected_range.start <= m.selected_range.end
}

/// The byte range that an edit replaces: the UTF-16 range converted against the
/// content, else the marked range, else the selection.
pub open spec fn edited_range(m: InputModel, range_utf16: Option<Range<usize>>) -> Range<usize> {
    match range_utf16 {
        Some(r) => span(
            from_utf16_offset(m.content, r.start as int) as usize,
            from_utf16_offset(m.content, r.end as int) as usize,
        ),
        None => match m.marked_range {
            Some(r) => r,
            None => m.selected_range,
        },
    }
}

proof fn lemma_empty_text()
    ensures
        utf8_len(Seq::<char>::empty()) == 0,
{
}

proof fn lemma_zero_is_boundary(s: Seq<char>)
    ensures
        on_char_boundary(s, 0),
        char_index(s, 0) == 0,
{
    assert(s.take(0) =~= Seq::<char>::empty());
    lemma_char_index(s, 0);
}

proof fn lemma_end_is_boundary(s: Seq<char>)
    ensures
        on_char_boundary(s, utf8_len(s) as int),
        char_index(s, utf8_len(s) as int) == s.len(),
{
    lemma_offset_full(s);
    lemma_char_index(s, s.len() as int);
}

/// The characters between two boundaries take as many bytes as the boundaries are apart.
pub proof fn lemma_byte_slice_len(s: Seq<char>, a: int, b: int)
    requires
        on_char_boundary(s, a),
        on_char_boundary(s, b),
        a <= b,
    ensures
        utf8_len(byte_slice(s, a, b)) == b - a,
{
    lemma_char_index_of_boundary(s, a);
    lemma_char_index_of_boundary(s, b);
    let ka = char_index(s, a);
    let kb = char_index(s, b);
    if kb < ka {
        lemma_offset_monotonic(s, kb, ka);
    }
    assert(s.take(kb) =~= s.take(ka) + s.subrange(ka, kb));
    lemma_utf8_len_concat(s.take(ka), s.subrange(ka, kb));
}

/// `move_to` collapses the selection at the offset and changes nothing else.
pub proof fn law_move_to(m: InputModel, offset: usize)
    ensures
        m.move_to(offset).selected_range == span(offset, offset),
        m.move_to(offset).selection_reversed == m.selection_reversed,
        only_selection_changed(m, m.move_to(offset)),
{
}

/// `select_to` moves the moving end to the offset, keeps the fixed end, keeps the
/// selection in order, and changes nothing else.
pub proof fn law_select_to(m: InputModel, offset: usize)
    ensures
        selects(m.select_to(offset), fixed_end(m), offset),
        only_selection_changed(m, m.select_to(offset)),
{
}

/// `left` collapses the selection at the last cluster start before the moving end
/// (0 if there is none), which lies before it unless it is 0.
pub proof fn law_left(m: InputModel)
    ensures
        ({
            let p = last_before(extended_grapheme_starts(m.content), moving_end(m) as int);
            &&& m.left().selected_range == span(p, p)
            &&& p < moving_end(m) || p == 0
        }),
        only_selection_changed(m, m.left()),
{
    lemma_last_before(extended_grapheme_starts(m.content), moving_end(m) as int);
}

/// `right` collapses the selection at the first cluster start after the moving end
/// (the end of the text if there is none).
pub proof fn law_right(m: InputModel)
    ensures
        ({
            let n = first_after(
                extended_grapheme_starts(m.content),
                moving_end(m) as int,
                utf8_len(m.content) as usize,
            );
            &&& m.right().selected_range == span(n, n)
            &&& n > moving_end(m) || n == utf8_len(m.content) as usize
        }),
        only_selection_changed(m, m.right()),
{
    lemma_first_after(
        extended_grapheme_starts(m.content),
        moving_end(m) as int,
        utf8_len(m.content) as usize,
    );
}

/// `start` and `end` collapse the selection at the start and at the end of the text.
pub proof fn law_start_end(m: InputModel)
    ensures
        m.start().selected_range == span(0, 0),
        m.end().selected_range == span(utf8_len(m.content) as usize, utf8_len(m.content) as usize),
        only_selection_changed(m, m.start()),
        only_selection_changed(m, m.end()),
{
}

/// `select_left` keeps the fixed end and moves the moving end to the last cluster
/// start before it (or 0).
pub proof fn law_select_left(m: InputModel)
    ensures
        selects(
            m.select_left(),
            fixed_end(m),
            last_before(extended_grapheme_starts(m.content), moving_end(m) as int),
        ),
        only_selection_changed(m, m.select_left()),
{
}

/// `select_right` keeps the fixed end and moves the moving end to the first cluster
/// start after it (or to the end of the text).
pub proof fn law_select_right(m: InputModel)
    ensures
        selects(
            m.select_right(),
            fixed_end(m),
            first_after(
                extended_grapheme_starts(m.content),
                moving_end(m) as int,
                utf8_len(m.content) as usize,
            ),
        ),
        only_selection_changed(m, m.select_right()),
{
}

/// `select_all` selects the whole text with the moving end at its start.
pub proof fn law_select_all(m: InputModel)
    ensures
        m.select_all().selected_range == span(0, utf8_len(m.content) as usize),
        moving_end(m.select_all()) == 0,
        only_selection_changed(m, m.select_all()),
{
}

/// `copy` gives nothing for an empty selection, else the selected characters, which
/// take as many bytes as the selection spans.
pub proof fn law_copy(m: InputModel)
    requires
        m.can_copy(),
    ensures
        m.copy() is None <==> !(m.selected_range.start < m.selected_range.end),
        m.copy() matches Some(t) ==> t == m.content.subrange(
            char_index(m.content, m.selected_range.start as int),
            char_index(m.content, m.selected_range.end as int),
        ) && utf8_len(t) == m.selected_range.end - m.selected_range.start,
{
    if m.selected_range.start < m.selected_range.end {
        lemma_byte_slice_len(m.content, m.selected_range.start as int, m.selected_range.end as int);
    }
}

/// `cut` of a non-empty selection removes exactly the selected bytes, puts the
/// cursor where they began and drops the marked range; an empty selection changes nothing.
pub proof fn law_cut(m: InputModel)
    requires
        m.can_cut(),
    ensures
        m.selection_is_empty() ==> m.cut() == m,
        !m.selection_is_empty() ==> {
            let (a, b) = (m.selected_range.start, m.selected_range.end);
            &&& m.cut().content == splice(m.content, a as int, b as int, Seq::empty())
            &&& m.cut().selected_range == span(a, a)
            &&& m.cut().marked_range is None
            &&& utf8_len(m.cut().content) == utf8_len(m.content) - (b - a)
        },
{
    lemma_empty_text();
    if !m.selection_is_empty() {
        lemma_splice(m.content, m.selected_range.start as int, m.selected_range.end as int, Seq::empty());
    }
}

/// `paste` replaces the selection (whatever is marked) with the text, line feeds
/// turned into spaces, and puts the cursor after it; the pasted text keeps the
/// length and every character other than a line feed.
pub proof fn law_paste(m: InputModel, text: Seq<char>)
    requires
        m.can_paste(text),
    ensures
        ({
            let t = newlines_to_spaces(text);
            let (a, b) = (m.selected_range.start, m.selected_range.end);
            let c = (a + utf8_len(t)) as usize;
            &&& m.paste(text).content == splice(m.content, a as int, b as int, t)
            &&& m.paste(text).selected_range == span(c, c)
            &&& m.paste(text).marked_range is None
            &&& utf8_len(m.paste(text).content) == a + utf8_len(t) + (utf8_len(m.content) - b)
            &&& t.len() == text.len()
            &&& forall|i: int|
                0 <= i < text.len() ==> #[trigger] t[i] == (if text[i] == '\n' {
                    ' '
                } else {
                    text[i]
                })
        }),
{
    let t = newlines_to_spaces(text);
    lemma_splice(m.content, m.selected_range.start as int, m.selected_range.end as int, t);
}

/// `backspace` without a marked range: a non-empty selection (in either direction)
/// loses exactly its bytes and the cursor goes where they began; with nothing
/// selected, the bytes from the last cluster start before the cursor up to the
/// cursor go, and the cursor moves there; at the start of the text nothing changes.
pub proof fn law_backspace(m: InputModel)
    requires
        m.can_backspace(),
        m.marked_range is None,
    ensures
        !m.selection_is_empty() ==> {
            let (a, b) = (m.selected_range.start, m.selected_range.end);
            &&& m.backspace().content == splice(m.content, a as int, b as int, Seq::empty())
            &&& m.backspace().selected_range == span(a, a)
            &&& utf8_len(m.backspace().content) == utf8_len(m.content) - (b - a)
        },
        m.selected_range.start == m.selected_range.end && m.selected_range.end == 0 ==> m.backspace()
            == m,
        m.selected_range.start == m.selected_range.end && m.selected_range.end > 0 && on_char_boundary(
            m.content,
            m.selected_range.end as int,
        ) ==> {
            let c = m.selected_range.end;
            let p = last_before(extended_grapheme_starts(m.content), c as int);
            &&& p < c
            &&& m.backspace().content == splice(m.content, p as int, c as int, Seq::empty())
            &&& m.backspace().selected_range == span(p, p)
        },
{
    lemma_empty_text();
    if !m.selection_is_empty() {
        lemma_splice(m.content, m.selected_range.start as int, m.selected_range.end as int, Seq::empty());
    }
    lemma_last_before(extended_grapheme_starts(m.content), m.selected_range.end as int);
}

/// `delete` without a marked range: a non-empty selection (in either direction)
/// loses exactly its bytes and the cursor goes where they began; with nothing
/// selected, the bytes from the cursor up to the first cluster start after it (or
/// the end of the text) go and the cursor stays; at the end of the text nothing changes.
pub proof fn law_delete(m: InputModel)
    requires
        m.can_delete(),
        m.marked_range is None,
        utf8_len(m.content) <= usize::MAX,
    ensures
        !m.selection_is_empty() ==> {
            let (a, b) = (m.selected_range.start, m.selected_range.end);
            &&& m.delete().content == splice(m.content, a as int, b as int, Seq::empty())
            &&& m.delete().selected_range == span(a, a)
            &&& utf8_len(m.delete().content) == utf8_len(m.content) - (b - a)
        },
        m.selected_range.start == m.selected_range.end && m.selected_range.end < utf8_len(m.content)
            ==> {
            let c = m.selected_range.end;
            let n = first_after(
                extended_grapheme_starts(m.content),
                c as int,
                utf8_len(m.content) as usize,
            );
            &&& c < n
            &&& m.delete().content == splice(m.content, c as int, n as int, Seq::empty())
            &&& m.delete().selected_range == span(c, c)
        },
{
    lemma_empty_text();
    if !m.selection_is_empty() {
        lemma_splice(m.content, m.selected_range.start as int, m.selected_range.end as int, Seq::empty());
    }
    lemma_first_after(
        extended_grapheme_starts(m.content),
        m.selected_range.end as int,
        utf8_len(m.content) as usize,
    );
}

/// `backspace` and `delete` with a marked range remove exactly the marked bytes,
/// put the cursor where they began and drop the mark, unless nothing is selected
/// and the cursor sits at the end they would remove towards (then nothing changes).
pub proof fn law_remove_marked(m: InputModel)
    requires
        m.marked_range is Some,
        utf8_len(m.content) <= usize::MAX,
    ensures
        ({
            let k = m.marked_range.unwrap();
            let removed = splice(m.content, k.start as int, k.end as int, Seq::empty());
            &&& m.can_backspace() && !(m.selection_is_empty() && moving_end(m) == 0) ==> {
                &&& m.backspace().content == removed
                &&& m.backspace().selected_range == span(k.start, k.start)
                &&& m.backspace().marked_range is None
            }
            &&& m.can_delete() && !(m.selection_is_empty() && moving_end(m) == utf8_len(
                m.content,
            )) ==> {
                &&& m.delete().content == removed
                &&& m.delete().selected_range == span(k.start, k.start)
                &&& m.delete().marked_range is None
            }
            &&& m.selection_is_empty() && moving_end(m) == 0 ==> m.backspace() == m
        }),
{
    lemma_empty_text();
    lemma_last_before(extended_grapheme_starts(m.content), moving_end(m) as int);
    lemma_first_after(
        extended_grapheme_starts(m.content),
        moving_end(m) as int,
        utf8_len(m.content) as usize,
    );
}

/// `clear` empties the text, collapses the selection at 0 forwards, drops the
/// marked range and the mouse selection, and keeps the placeholder.
pub proof fn law_clear(m: InputModel)
    ensures
        m.clear().content.len() == 0,
        m.clear().selected_range == span(0, 0),
        !m.clear().selection_reversed,
        m.clear().marked_range is None,
        !m.clear().is_selecting,
        m.clear().placeholder == m.placeholder,
{
}

/// The pointer's offset: 0 on empty text, above the line or without a layout, the
/// end of the text below the line, the closest character beside it.
pub proof fn law_index_for_mouse_position(m: InputModel, place: PointerPlace)
    ensures
        m.content.len() == 0 ==> m.index_for_mouse_position(place) == 0,
        m.content.len() > 0 ==> m.index_for_mouse_position(place) == match place {
            PointerPlace::NoLayout => 0,
            PointerPlace::Above => 0,
            PointerPlace::Below => utf8_len(m.content) as usize,
            PointerPlace::Beside(i) => i,
        },
{
}

/// A mouse press starts a mouse selection; with shift it moves the moving end to the
/// pointer and keeps the fixed end, else it collapses the selection at the pointer.
/// A release ends the mouse selection; a move extends the selection only during one.
pub proof fn law_mouse(m: InputModel, shift: bool, place: PointerPlace)
    ensures
        m.on_mouse_down(shift, place).is_selecting,
        m.on_mouse_down(shift, place).content == m.content,
        shift ==> selects(
            m.on_mouse_down(shift, place),
            fixed_end(m),
            m.index_for_mouse_position(place),
        ),
        !shift ==> m.on_mouse_down(shift, place).selected_range == span(
            m.index_for_mouse_position(place),
            m.index_for_mouse_position(place),
        ),
        !m.on_mouse_up().is_selecting,
        m.on_mouse_up().selected_range == m.selected_range,
        m.on_mouse_up().content == m.content,
        m.is_selecting ==> selects(
            m.on_mouse_move(place),
            fixed_end(m),
            m.index_for_mouse_position(place),
        ) && only_selection_changed(m, m.on_mouse_move(place)),
        !m.is_selecting ==> m.on_mouse_move(place) == m,
{
}

/// The UTF-16 views: the text for a UTF-16 range is the characters between its
/// converted ends, taking as many bytes as they are apart; the selection and the
/// marked range are reported with their ends converted to UTF-16.
pub proof fn law_utf16_views(m: InputModel, r: Range<usize>)
    requires
        utf8_len(m.content) <= usize::MAX,
    ensures
        ({
            let a = from_utf16_offset(m.content, r.start as int) as int;
            let b = from_utf16_offset(m.content, r.end as int) as int;
            &&& m.text_for_range(r) == byte_slice(m.content, a, b)
            &&& a <= b ==> utf8_len(m.text_for_range(r)) == b - a
            &&& m.adjusted_range(r) == span(
                to_utf16_offset(m.content, a as int) as usize,
                to_utf16_offset(m.content, b as int) as usize,
            )
        }),
        m.selected_text_range().range == span(
            to_utf16_offset(m.content, m.selected_range.start as int) as usize,
            to_utf16_offset(m.content, m.selected_range.end as int) as usize,
        ),
        m.selected_text_range().reversed == m.selection_reversed,
        m.marked_text_range() == match m.marked_range {
            Some(k) => Some(
                span(
                    to_utf16_offset(m.content, k.start as int) as usize,
                    to_utf16_offset(m.content, k.end as int) as usize,
                ),
            ),
            None => None,
        },
        m.unmark_text().marked_range is None,
        m.unmark_text().content == m.content,
        m.unmark_text().selected_range == m.selected_range,
        m.unmark_text().selection_reversed == m.selection_reversed,
{
    crate::utf::lemma_from_utf16_monotonic(m.content, r.start as int, r.start as int);
    crate::utf::lemma_from_utf16_monotonic(m.content, r.end as int, r.end as int);
    crate::utf::lemma_from_utf16_boundary(m.content, r.start as int);
    crate::utf::lemma_from_utf16_boundary(m.content, r.end as int);
    let a = from_utf16_offset(m.content, r.start as int);
    let b = from_utf16_offset(m.content, r.end as int);
    if a <= b {
        lemma_byte_slice_len(m.content, a as int, b as int);
    }
}

/// An edit replaces the edited range with the text, puts the cursor after the text
/// and drops the marked range.
pub proof fn law_replace_text_in_range(m: InputModel, range_utf16: Option<Range<usize>>, text: Seq<char>)
    requires
        m.can_replace(range_utf16, text),
    ensures
        ({
            let r = edited_range(m, range_utf16);
            let e = m.replace_text_in_range(range_utf16, text);
            let c = (r.start + utf8_len(text)) as usize;
            &&& e.content == splice(m.content, r.start as int, r.end as int, text)
            &&& e.selected_range == span(c, c)
            &&& e.marked_range is None
            &&& utf8_len(e.content) == r.start + utf8_len(text) + (utf8_len(m.content) - r.end)
        }),
{
    let r = edited_range(m, range_utf16);
    lemma_splice(m.content, r.start as int, r.end as int, text);
}

/// A composing edit replaces the edited range with the text and marks the text (no
/// mark for empty text). The selection the input method asks for is converted to
/// bytes against the content after the edit, its start shifted by the edited
/// range's start and its end by the edited range's end; without one, the cursor goes
/// after the text.
pub proof fn law_replace_and_mark_text_in_range(
    m: InputModel,
    range_utf16: Option<Range<usize>>,
    text: Seq<char>,
    new_selected_range_utf16: Option<Range<usize>>,
)
    requires
        m.can_replace_and_mark(range_utf16, text, new_selected_range_utf16),
    ensures
        ({
            let r = edited_range(m, range_utf16);
            let e = m.replace_and_mark_text_in_range(range_utf16, text, new_selected_range_utf16);
            let after = (r.start + utf8_len(text)) as usize;
            &&& e.content == splice(m.content, r.start as int, r.end as int, text)
            &&& e.marked_range == if text.len() > 0 {
                Some(span(r.start, after))
            } else {
                None::<Range<usize>>
            }
            &&& e.marked_range matches Some(k) ==> byte_slice(e.content, k.start as int, k.end as int)
                == text
            &&& match new_selected_range_utf16 {
                Some(s) => {
                    &&& e.selected_range.start == from_utf16_offset(e.content, s.start as int)
                        + r.start
                    &&& e.selected_range.end == from_utf16_offset(e.content, s.end as int) + r.end
                },
                None => e.selected_range == span(after, after),
            }
        }),
{
    let r = edited_range(m, range_utf16);
    lemma_splice(m.content, r.start as int, r.end as int, text);
    if text.len() > 0 {
        crate::laws::lemma_marked_range_holds_text(m, range_utf16, text, new_selected_range_utf16);
    }
}

/// Composing text into an empty input, with the selection asked for at the end of
/// the text in UTF-16, leaves the text marked and the cursor after it.
pub proof fn law_compose_into_empty(m: InputModel, text: Seq<char>)
    requires
        m.content.len() == 0,
        m.marked_range is None,
        m.selected_range == span(0, 0),
        utf8_len(text) <= usize::MAX,
    ensures
        ({
            let u = utf16_len(text) as usize;
            let e = m.replace_and_mark_text_in_range(None, text, Some(span(u, u)));
            let n = utf8_len(text) as usize;
            &&& m.can_replace_and_mark(None, text, Some(span(u, u)))
            &&& e.content == text
            &&& e.marked_range == if text.len() > 0 {
                Some(span(0, n))
            } else {
                None::<Range<usize>>
            }
            &&& e.selected_range == span(n, n)
        }),
{
    let s = m.content;
    lemma_zero_is_boundary(s);
    lemma_end_is_boundary(s);
    assert(utf8_len(s) == 0);
    let e_content = splice(s, 0, 0, text);
    assert(e_content =~= text);
    lemma_offsets_at_character(text, text.len() as int);
    lemma_offset_full(text);
    lemma_offset_monotonic(text, text.len() as int, text.len() as int);
}

} // verus!
