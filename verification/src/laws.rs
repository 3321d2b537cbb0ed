//! Properties that hold across the operations of a text input.
use crate::model::{span, InputModel};
use crate::utf::{
    byte_offset, byte_slice, from_utf16_offset, lemma_char_index, lemma_char_index_of_boundary,
    lemma_from_utf16_prefix, lemma_offset_full, lemma_offset_monotonic, lemma_splice,
    lemma_to_utf16_prefix, newlines_to_spaces, on_char_boundary, splice, to_utf16_offset,
    utf16_offset, utf8_len,
};
use vstd::prelude::*;

verus! {

/// At the start of a character, the UTF-8 offset converts to that character's
/// UTF-16 offset, and that UTF-16 offset converts back to it.
pub proof fn lemma_offsets_at_character(s: Seq<char>, k: int)
    requires
        0 <= k <= s.len(),
    ensures
        to_utf16_offset(s, byte_offset(s, k) as int) == utf16_offset(s, k),
        from_utf16_offset(s, utf16_offset(s, k) as int) == byte_offset(s, k),
{
    assert forall|j: int| 0 <= j < k implies #[trigger] byte_offset(s, j) < byte_offset(s, k) by {
        lemma_offset_monotonic(s, j, k);
    }
    assert forall|j: int| 0 <= j < k implies #[trigger] utf16_offset(s, j) < utf16_offset(s, k) by {
        lemma_offset_monotonic(s, j, k);
    }
    lemma_to_utf16_prefix(s, byte_offset(s, k) as int, k);
    lemma_from_utf16_prefix(s, utf16_offset(s, k) as int, k);
}

/// Converting a byte offset on a character boundary to UTF-16 and back gives the
/// same byte offset.
pub proof fn lemma_utf8_offset_round_trip(m: InputModel, offset_utf8: usize)
    requires
        on_char_boundary(m.content, offset_utf8 as int),
        m.len() <= usize::MAX,
    ensures
        m.offset_from_utf16(m.offset_to_utf16(offset_utf8)) == offset_utf8,
{
    lemma_char_index_of_boundary(m.content, offset_utf8 as int);
    let k = crate::utf::char_index(m.content, offset_utf8 as int);
    lemma_offsets_at_character(m.content, k);
    lemma_offset_monotonic(m.content, k, k);
}

/// Converting a UTF-16 offset at which a character starts to bytes and back gives
/// the same UTF-16 offset.
pub proof fn lemma_utf16_offset_round_trip(m: InputModel, k: int)
    requires
        0 <= k <= m.content.len(),
        m.len() <= usize::MAX,
    ensures
        m.offset_to_utf16(m.offset_from_utf16(utf16_offset(m.content, k) as usize)) == utf16_offset(
            m.content,
            k,
        ),
{
    lemma_offsets_at_character(m.content, k);
    lemma_offset_monotonic(m.content, k, m.content.len() as int);
    lemma_offset_full(m.content);
}

/// The UTF-16 range that `text_for_range` reports as covered gives the same text and
/// reports itself as covered.
pub proof fn lemma_adjusted_range_is_exact(m: InputModel, range_utf16: core::ops::Range<usize>)
    requires
        m.len() <= usize::MAX,
    ensures
        m.range_from_utf16(m.adjusted_range(range_utf16)) == m.range_from_utf16(range_utf16),
        m.text_for_range(m.adjusted_range(range_utf16)) == m.text_for_range(range_utf16),
        m.adjusted_range(m.adjusted_range(range_utf16)) == m.adjusted_range(range_utf16),
{
    let r8 = m.range_from_utf16(range_utf16);
    crate::utf::lemma_from_utf16_boundary(m.content, range_utf16.start as int);
    crate::utf::lemma_from_utf16_boundary(m.content, range_utf16.end as int);
    lemma_char_index_of_boundary(m.content, from_utf16_offset(m.content, range_utf16.start as int) as int);
    lemma_char_index_of_boundary(m.content, from_utf16_offset(m.content, range_utf16.end as int) as int);
    lemma_utf8_offset_round_trip(m, r8.start);
    lemma_utf8_offset_round_trip(m, r8.end);
}

/// Converting offsets between UTF-16 and UTF-8 keeps their order; so `text_for_range`
/// accepts every UTF-16 range whose start is not after its end.
pub proof fn lemma_offset_conversions_keep_order(m: InputModel, a: usize, b: usize)
    requires
        a <= b,
        m.len() <= usize::MAX,
    ensures
        m.offset_from_utf16(a) <= m.offset_from_utf16(b),
        m.offset_to_utf16(a) <= m.offset_to_utf16(b),
{
    crate::utf::lemma_from_utf16_monotonic(m.content, a as int, b as int);
    crate::utf::lemma_to_utf16_monotonic(m.content, a as int, b as int);
    lemma_offset_monotonic(m.content, m.content.len() as int, m.content.len() as int);
    lemma_offset_full(m.content);
}

/// Extending the selection puts the cursor at the given offset, keeps the other
/// end where it was, and leaves the selection's ends in order.
pub proof fn lemma_select_to_moves_cursor(m: InputModel, offset: usize)
    ensures
        m.select_to(offset).cursor_offset() == offset,
        m.select_to(offset).anchor_offset() == m.anchor_offset(),
        m.select_to(offset).selected_range.start <= m.select_to(offset).selected_range.end,
        m.select_to(offset).content == m.content,
{
}

/// Moving the cursor collapses the selection there and keeps the direction.
pub proof fn lemma_move_to_collapses(m: InputModel, offset: usize)
    ensures
        m.move_to(offset).cursor_offset() == offset,
        m.move_to(offset).anchor_offset() == offset,
        m.move_to(offset).selection_is_empty(),
        m.move_to(offset).content == m.content,
{
}

/// Selecting everything and copying gives the whole content (nothing when it is empty).
pub proof fn lemma_select_all_copies_content(m: InputModel)
    requires
        m.len() <= usize::MAX,
    ensures
        m.select_all().copy() == (if m.content.len() == 0 {
            None::<Seq<char>>
        } else {
            Some(m.content)
        }),
{
    let s = m.content;
    lemma_offset_full(s);
    lemma_offset_monotonic(s, 0, s.len() as int);
    assert(s.take(0) =~= Seq::<char>::empty());
    lemma_char_index(s, 0);
    lemma_char_index(s, s.len() as int);
    assert(s.subrange(0, s.len() as int) =~= s);
    if s.len() == 0 {
        assert(m.len() == 0);
    }
}

/// After an edit, the text between the start of the replaced range and the cursor
/// is the inserted text.
pub proof fn lemma_replace_reads_back(
    m: InputModel,
    range_utf16: Option<core::ops::Range<usize>>,
    text: Seq<char>,
)
    requires
        m.can_replace(range_utf16, text),
    ensures
        ({
            let edited = m.replace_text_in_range(range_utf16, text);
            let start = m.replacement_range(range_utf16).start;
            &&& edited.selection_is_empty()
            &&& edited.cursor_offset() == start + utf8_len(text)
            &&& byte_slice(edited.content, start as int, edited.cursor_offset() as int) == text
        }),
{
    let r = m.replacement_range(range_utf16);
    lemma_char_index_of_boundary(m.content, r.end as int);
    lemma_inserted_text(m.content, r.start as int, r.end as int, text);
}

/// After an edit that marks text, the marked range holds exactly the inserted text.
pub proof fn lemma_marked_range_holds_text(
    m: InputModel,
    range_utf16: Option<core::ops::Range<usize>>,
    text: Seq<char>,
    new_selected_range_utf16: Option<core::ops::Range<usize>>,
)
    requires
        m.can_replace_and_mark(range_utf16, text, new_selected_range_utf16),
        text.len() > 0,
    ensures
        ({
            let edited = m.replace_and_mark_text_in_range(
                range_utf16,
                text,
                new_selected_range_utf16,
            );
            &&& edited.marked_range matches Some(r) && byte_slice(
                edited.content,
                r.start as int,
                r.end as int,
            ) == text
        }),
{
    let r = m.replacement_range(range_utf16);
    lemma_char_index_of_boundary(m.content, r.end as int);
    lemma_inserted_text(m.content, r.start as int, r.end as int, text);
}

proof fn lemma_inserted_text(s: Seq<char>, a: int, b: int, text: Seq<char>)
    requires
        on_char_boundary(s, a),
        on_char_boundary(s, b),
    ensures
        byte_slice(splice(s, a, b, text), a, a + utf8_len(text)) == text,
{
    lemma_splice(s, a, b, text);
    lemma_char_index_of_boundary(s, a);
    let ka = crate::utf::char_index(s, a);
    let r = splice(s, a, b, text);
    assert(r.take(ka) =~= s.take(ka));
    assert(r.take(ka + text.len()) =~= s.take(ka) + text);
    crate::utf::lemma_utf8_len_concat(s.take(ka), text);
    lemma_char_index(r, ka);
    lemma_char_index(r, ka + text.len());
    assert(r.subrange(ka, ka + text.len()) =~= text);
}

/// Cutting a selection and pasting the cut text back (when it holds no line feed)
/// restores the content, with the cursor at the end of the former selection.
pub proof fn lemma_cut_then_paste_restores(m: InputModel)
    requires
        m.wf(),
        !m.selection_is_empty(),
        m.len() <= usize::MAX,
        !m.copy().unwrap().contains('\n'),
    ensures
        m.cut().paste(m.copy().unwrap()).content == m.content,
        m.cut().paste(m.copy().unwrap()).selected_range == span(
            m.selected_range.end,
            m.selected_range.end,
        ),
{
    let s = m.content;
    let a = m.selected_range.start as int;
    let b = m.selected_range.end as int;
    let t = m.copy().unwrap();
    lemma_char_index_of_boundary(s, a);
    lemma_char_index_of_boundary(s, b);
    let ka = crate::utf::char_index(s, a);
    let kb = crate::utf::char_index(s, b);
    if kb < ka {
        lemma_offset_monotonic(s, kb, ka);
    }
    assert(newlines_to_spaces(t) =~= t) by {
        assert forall|i: int| 0 <= i < t.len() implies newlines_to_spaces(t)[i] == t[i] by {
            if t[i] == '\n' {
                assert(t.contains('\n'));
            }
        }
    }
    lemma_splice(s, a, b, Seq::empty());
    let c1 = splice(s, a, b, Seq::empty());
    assert(c1 =~= s.take(ka) + s.skip(kb));
    assert(c1.take(ka) =~= s.take(ka));
    lemma_char_index(c1, ka);
    let c2 = splice(c1, a, a, t);
    assert(c2 =~= s) by {
        assert(c1.skip(ka) =~= s.skip(kb));
        assert(s =~= s.take(ka) + s.subrange(ka, kb) + s.skip(kb));
    }
    crate::utf::lemma_utf8_len_concat(s.take(ka), t);
    assert(s.take(kb) =~= s.take(ka) + t);
    lemma_offset_full(s);
    lemma_offset_monotonic(s, kb, s.len() as int);
    assert(utf8_len(Seq::<char>::empty()) == 0);
}

} // verus!
