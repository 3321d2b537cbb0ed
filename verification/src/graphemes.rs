//! Extended grapheme cluster boundaries of a text, as given by `unicode-segmentation`,
//! and the search for the boundary before or after an offset.
use crate::utf::{
    byte_len, lemma_char_index, lemma_offset_full, on_char_boundary, utf8_len,
};
use unicode_segmentation::UnicodeSegmentation;
use vstd::prelude::*;

verus! {

/// The byte offsets at which the extended grapheme clusters of `s` start, in the
/// order in which `unicode_segmentation`'s `grapheme_indices(true)` yields them.
pub uninterp spec fn extended_grapheme_starts(s: Seq<char>) -> Seq<usize>;

/// Offsets in increasing order, without repetition.
pub open spec fn strictly_increasing(starts: Seq<usize>) -> bool {
    forall|i: int, j: int| 0 <= i < j < starts.len() ==> #[trigger] starts[i] < #[trigger] starts[j]
}

/// `UnicodeSegmentation::grapheme_indices(s, true)`, keeping the offset of each cluster.
/// Claimed: the offsets are the named `extended_grapheme_starts` of the text; each one
/// is the start of a cluster, so it is a character boundary and lies before the end
/// of the text; they come in increasing order, the first one being 0 when the text is
/// not empty (the crate walks a cursor forward from 0, slicing the text from the
/// cursor to the next boundary, which lies beyond it, and yields only non-empty
/// clusters). Not claimed: which offsets the Unicode segmentation rules choose.
#[verifier::external_body]
fn grapheme_starts(s: &str) -> (r: Vec<usize>)
    ensures
        r@ == extended_grapheme_starts(s@),
        forall|i: int|
            0 <= i < r@.len() ==> on_char_boundary(s@, #[trigger] r@[i] as int) && r@[i]
                < utf8_len(s@),
        strictly_increasing(r@),
        s@.len() > 0 ==> r@.len() > 0 && r@[0] == 0,
{
    s.grapheme_indices(true).map(|(i, _)| i).collect()
}

/// The last offset in `starts` that lies before `offset`, or 0 if there is none.
pub open spec fn last_before(starts: Seq<usize>, offset: int) -> usize
    decreases starts.len(),
{
    if starts.len() == 0 {
        0
    } else if (starts.last() as int) < offset {
        starts.last()
    } else {
        last_before(starts.drop_last(), offset)
    }
}

/// The first offset in `starts` that lies after `offset`, or `end` if there is none.
pub open spec fn first_after(starts: Seq<usize>, offset: int, end: usize) -> usize
    decreases starts.len(),
{
    if starts.len() == 0 {
        end
    } else if (starts[0] as int) > offset {
        starts[0]
    } else {
        first_after(starts.drop_first(), offset, end)
    }
}

/// The value of `last_before` is below `offset` (or 0), and it is one of the starts or 0.
pub proof fn lemma_last_before(starts: Seq<usize>, offset: int)
    ensures
        last_before(starts, offset) < offset || last_before(starts, offset) == 0,
        last_before(starts, offset) == 0 || exists|i: int|
            0 <= i < starts.len() && #[trigger] starts[i] == last_before(starts, offset),
    decreases starts.len(),
{
    if starts.len() > 0 {
        if (starts.last() as int) < offset {
            assert(starts[starts.len() - 1] == starts.last());
        } else {
            lemma_last_before(starts.drop_last(), offset);
            if last_before(starts, offset) != 0 {
                let i = choose|i: int|
                    0 <= i < starts.drop_last().len() && #[trigger] starts.drop_last()[i]
                        == last_before(starts, offset);
                assert(starts[i] == starts.drop_last()[i]);
            }
        }
    }
}

/// The value of `first_after` is above `offset` or `end`, and it is one of the starts or `end`.
pub proof fn lemma_first_after(starts: Seq<usize>, offset: int, end: usize)
    ensures
        first_after(starts, offset, end) > offset || first_after(starts, offset, end) == end,
        first_after(starts, offset, end) == end || exists|i: int|
            0 <= i < starts.len() && #[trigger] starts[i] == first_after(starts, offset, end),
        (forall|i: int| 0 <= i < starts.len() ==> #[trigger] starts[i] <= offset) ==> first_after(
            starts,
            offset,
            end,
        ) == end,
    decreases starts.len(),
{
    if starts.len() > 0 {
        if (starts[0] as int) > offset {
        } else {
            lemma_first_after(starts.drop_first(), offset, end);
            if first_after(starts, offset, end) != end {
                let i = choose|i: int|
                    0 <= i < starts.drop_first().len() && #[trigger] starts.drop_first()[i]
                        == first_after(starts, offset, end);
                assert(starts[i + 1] == starts.drop_first()[i]);
            }
            assert forall|i: int| 0 <= i < starts.drop_first().len() && (forall|j: int|
                0 <= j < starts.len() ==> #[trigger] starts[j] <= offset) implies #[trigger] starts.drop_first()[i]
                <= offset by {
                assert(starts.drop_first()[i] == starts[i + 1]);
            }
        }
    }
}

/// In increasing offsets, `last_before` is the greatest offset below `offset`.
pub proof fn lemma_last_before_greatest(starts: Seq<usize>, offset: int)
    requires
        strictly_increasing(starts),
    ensures
        forall|i: int|
            0 <= i < starts.len() && (#[trigger] starts[i] as int) < offset ==> starts[i]
                <= last_before(starts, offset),
    decreases starts.len(),
{
    if starts.len() > 0 {
        if (starts.last() as int) < offset {
            assert forall|i: int| 0 <= i < starts.len() && (#[trigger] starts[i] as int) < offset implies starts[i]
                <= last_before(starts, offset) by {
                if i < starts.len() - 1 {
                    assert(starts[i] < starts[starts.len() - 1]);
                }
            }
        } else {
            let d = starts.drop_last();
            assert(strictly_increasing(d)) by {
                assert forall|i: int, j: int| 0 <= i < j < d.len() implies #[trigger] d[i] < #[trigger] d[j] by {
                    assert(d[i] == starts[i] && d[j] == starts[j]);
                }
            }
            lemma_last_before_greatest(d, offset);
            assert forall|i: int| 0 <= i < starts.len() && (#[trigger] starts[i] as int) < offset implies starts[i]
                <= last_before(starts, offset) by {
                if i < starts.len() - 1 {
                    assert(d[i] == starts[i]);
                }
            }
        }
    }
}

/// In increasing offsets, `first_after` is the least offset above `offset`.
pub proof fn lemma_first_after_least(starts: Seq<usize>, offset: int, end: usize)
    requires
        strictly_increasing(starts),
    ensures
        forall|i: int|
            0 <= i < starts.len() && (#[trigger] starts[i] as int) > offset ==> first_after(
                starts,
                offset,
                end,
            ) <= starts[i],
    decreases starts.len(),
{
    if starts.len() > 0 {
        if (starts[0] as int) > offset {
            assert forall|i: int| 0 <= i < starts.len() && (#[trigger] starts[i] as int) > offset implies first_after(
                starts,
                offset,
                end,
            ) <= starts[i] by {
                if i > 0 {
                    assert(starts[0] < starts[i]);
                }
            }
        } else {
            let d = starts.drop_first();
            assert(strictly_increasing(d)) by {
                assert forall|i: int, j: int| 0 <= i < j < d.len() implies #[trigger] d[i] < #[trigger] d[j] by {
                    assert(d[i] == starts[i + 1] && d[j] == starts[j + 1]);
                }
            }
            lemma_first_after_least(d, offset, end);
            assert forall|i: int| 0 <= i < starts.len() && (#[trigger] starts[i] as int) > offset implies first_after(
                starts,
                offset,
                end,
            ) <= starts[i] by {
                if i > 0 {
                    assert(d[i - 1] == starts[i]);
                }
            }
        }
    }
}

/// In increasing offsets that all lie below `end`, going from one of them to the next
/// one (or to `end`) and back to the previous one returns where it started.
pub proof fn lemma_next_then_previous(starts: Seq<usize>, b: usize, end: usize)
    requires
        strictly_increasing(starts),
        forall|i: int| 0 <= i < starts.len() ==> #[trigger] starts[i] < end,
        starts.contains(b),
    ensures
        (b as int) < first_after(starts, b as int, end),
        last_before(starts, first_after(starts, b as int, end) as int) == b,
{
    let x = first_after(starts, b as int, end);
    lemma_first_after(starts, b as int, end);
    lemma_first_after_least(starts, b as int, end);
    let k = choose|k: int| 0 <= k < starts.len() && starts[k] == b;
    assert(starts[k] < end);
    if x != end {
        let j = choose|j: int| 0 <= j < starts.len() && #[trigger] starts[j] == x;
        assert(starts[j] == x);
    }
    lemma_last_before(starts, x as int);
    lemma_last_before_greatest(starts, x as int);
    let y = last_before(starts, x as int);
    assert((starts[k] as int) < x);
    if y != 0 {
        let j = choose|j: int| 0 <= j < starts.len() && #[trigger] starts[j] == y;
        if starts[j] > b {
            assert(x <= starts[j]);
        }
    }
}

/// Searches `starts` from the back for the first offset before `offset`; 0 if none.
pub fn last_start_before(starts: &Vec<usize>, offset: usize) -> (r: usize)
    ensures
        r == last_before(starts@, offset as int),
{
    let mut i = starts.len();
    proof {
        assert(starts@.take(i as int) =~= starts@);
    }
    while i > 0
        invariant
            i <= starts@.len(),
            last_before(starts@, offset as int) == last_before(starts@.take(i as int), offset as int),
        decreases i,
    {
        let ghost t = starts@.take(i as int);
        proof {
            assert(t.drop_last() =~= starts@.take(i - 1));
            assert(t.last() == starts@[i - 1]);
        }
        if starts[i - 1] < offset {
            return starts[i - 1];
        }
        i = i - 1;
    }
    0
}

/// Searches `starts` from the front for the first offset after `offset`; `end` if none.
pub fn first_start_after(starts: &Vec<usize>, offset: usize, end: usize) -> (r: usize)
    ensures
        r == first_after(starts@, offset as int, end),
{
    let mut i: usize = 0;
    proof {
        assert(starts@.skip(0) =~= starts@);
    }
    while i < starts.len()
        invariant
            i <= starts@.len(),
            first_after(starts@, offset as int, end) == first_after(starts@.skip(i as int), offset as int, end),
        decreases starts@.len() - i,
    {
        let ghost t = starts@.skip(i as int);
        proof {
            assert(t.drop_first() =~= starts@.skip(i + 1));
            assert(t[0] == starts@[i as int]);
        }
        if starts[i] > offset {
            return starts[i];
        }
        i = i + 1;
    }
    proof {
        assert(starts@.skip(i as int) =~= Seq::<usize>::empty());
    }
    end
}

/// Grapheme boundary before `offset` in `s`: the last cluster start below it, or 0.
pub fn previous_grapheme_boundary(s: &str, offset: usize) -> (r: usize)
    ensures
        r == last_before(extended_grapheme_starts(s@), offset as int),
        r < offset || r == 0,
        on_char_boundary(s@, r as int),
        forall|i: int|
            0 <= i < extended_grapheme_starts(s@).len() && (#[trigger] extended_grapheme_starts(
                s@,
            )[i] as int) < offset ==> extended_grapheme_starts(s@)[i] <= r,
{
    let starts = grapheme_starts(s);
    let r = last_start_before(&starts, offset);
    proof {
        lemma_last_before(starts@, offset as int);
        lemma_last_before_greatest(starts@, offset as int);
        if r == 0 {
            assert(s@.take(0) =~= Seq::<char>::empty());
            lemma_char_index(s@, 0);
        } else {
            let i = choose|i: int| 0 <= i < starts@.len() && #[trigger] starts@[i] == r;
            assert(on_char_boundary(s@, starts@[i] as int));
        }
    }
    r
}

/// Grapheme boundary after `offset` in `s`: the first cluster start above it, or the
/// byte length of `s`.
pub fn next_grapheme_boundary(s: &str, offset: usize) -> (r: usize)
    ensures
        r == first_after(extended_grapheme_starts(s@), offset as int, utf8_len(s@) as usize),
        r > offset || r == utf8_len(s@),
        offset >= utf8_len(s@) ==> r == utf8_len(s@),
        on_char_boundary(s@, r as int),
        forall|i: int|
            0 <= i < extended_grapheme_starts(s@).len() && (#[trigger] extended_grapheme_starts(
                s@,
            )[i] as int) > offset ==> r <= extended_grapheme_starts(s@)[i],
        extended_grapheme_starts(s@).contains(offset) ==> last_before(
            extended_grapheme_starts(s@),
            r as int,
        ) == offset,
{
    let starts = grapheme_starts(s);
    let len = byte_len(s);
    let r = first_start_after(&starts, offset, len);
    proof {
        lemma_first_after(starts@, offset as int, len);
        lemma_first_after_least(starts@, offset as int, len);
        if starts@.contains(offset) {
            lemma_next_then_previous(starts@, offset, len);
        }
        if r == len {
            lemma_offset_full(s@);
            lemma_char_index(s@, s@.len() as int);
        } else {
            let i = choose|i: int| 0 <= i < starts@.len() && #[trigger] starts@[i] == r;
            assert(on_char_boundary(s@, starts@[i] as int));
        }
        if offset >= len {
            assert forall|i: int| 0 <= i < starts@.len() implies #[trigger] starts@[i] <= offset by {
                assert(starts@[i] < utf8_len(s@));
            }
        }
    }
    r
}

} // verus!
