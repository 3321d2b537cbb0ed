//! Character widths in UTF-8 and UTF-16, byte offsets into a character sequence,
//! and the conversions between UTF-8 and UTF-16 offsets that the text input uses.
use vstd::prelude::*;
use vstd::string::*;

verus! {

/// Number of bytes that the UTF-8 encoding of `c` takes.
pub open spec fn len_utf8(c: char) -> nat {
    let v = c as u32;
    if v < 0x80 {
        1
    } else if v < 0x800 {
        2
    } else if v < 0x10000 {
        3
    } else {
        4
    }
}

/// Number of 16-bit code units that the UTF-16 encoding of `c` takes.
pub open spec fn len_utf16(c: char) -> nat {
    if (c as u32) < 0x10000 {
        1
    } else {
        2
    }
}

/// Number of bytes of the UTF-8 encoding of `s`.
pub open spec fn utf8_len(s: Seq<char>) -> nat
    decreases s.len(),
{
    if s.len() == 0 {
        0
    } else {
        len_utf8(s[0]) + utf8_len(s.drop_first())
    }
}

/// Number of code units of the UTF-16 encoding of `s`.
pub open spec fn utf16_len(s: Seq<char>) -> nat
    decreases s.len(),
{
    if s.len() == 0 {
        0
    } else {
        len_utf16(s[0]) + utf16_len(s.drop_first())
    }
}

/// Byte offset at which the character with index `k` starts.
pub open spec fn byte_offset(s: Seq<char>, k: int) -> nat {
    utf8_len(s.take(k))
}

/// UTF-16 offset at which the character with index `k` starts.
pub open spec fn utf16_offset(s: Seq<char>, k: int) -> nat {
    utf16_len(s.take(k))
}

/// `b` is a byte offset in `s` at which a character starts, or the byte length of `s`.
pub open spec fn on_char_boundary(s: Seq<char>, b: int) -> bool {
    exists|k: int| 0 <= k <= s.len() && #[trigger] byte_offset(s, k) == b
}

/// Index of the character that starts at byte offset `b` (the character count for `b` at the end).
pub open spec fn char_index(s: Seq<char>, b: int) -> int {
    choose|k: int| 0 <= k <= s.len() && #[trigger] byte_offset(s, k) == b
}

/// The characters of `s` from byte offset `a` to byte offset `b`.
pub open spec fn byte_slice(s: Seq<char>, a: int, b: int) -> Seq<char> {
    s.subrange(char_index(s, a), char_index(s, b))
}

/// `s` with the bytes from `a` to `b` replaced by `t`: the characters before byte `a`,
/// then `t`, then the characters from byte `b` on.
pub open spec fn splice(s: Seq<char>, a: int, b: int, t: Seq<char>) -> Seq<char> {
    s.take(char_index(s, a)) + t + s.skip(char_index(s, b))
}

/// UTF-8 offset for UTF-16 offset `o`: the characters are counted until their UTF-16
/// length reaches `o` (or the text ends), and their UTF-8 length is returned.
pub open spec fn from_utf16_offset(s: Seq<char>, o: int) -> nat
    decreases s.len(),
{
    if o <= 0 || s.len() == 0 {
        0
    } else {
        len_utf8(s[0]) + from_utf16_offset(s.drop_first(), o - len_utf16(s[0]))
    }
}

/// UTF-16 offset for UTF-8 offset `o`: the characters are counted until their UTF-8
/// length reaches `o` (or the text ends), and their UTF-16 length is returned.
pub open spec fn to_utf16_offset(s: Seq<char>, o: int) -> nat
    decreases s.len(),
{
    if o <= 0 || s.len() == 0 {
        0
    } else {
        len_utf16(s[0]) + to_utf16_offset(s.drop_first(), o - len_utf8(s[0]))
    }
}

/// `s` with every line feed replaced by a space.
pub open spec fn newlines_to_spaces(s: Seq<char>) -> Seq<char> {
    s.map_values(|c: char| if c == '\n' { ' ' } else { c })
}

pub proof fn lemma_len_utf8_bounds(c: char)
    ensures
        1 <= len_utf16(c) <= len_utf8(c) <= 4,
{
}

pub proof fn lemma_utf8_len_concat(a: Seq<char>, b: Seq<char>)
    ensures
        utf8_len(a + b) == utf8_len(a) + utf8_len(b),
        utf16_len(a + b) == utf16_len(a) + utf16_len(b),
    decreases a.len(),
{
    if a.len() == 0 {
        assert(a + b =~= b);
    } else {
        assert((a + b).drop_first() =~= a.drop_first() + b);
        lemma_utf8_len_concat(a.drop_first(), b);
    }
}

pub proof fn lemma_utf8_len_single(c: char)
    ensures
        utf8_len(seq![c]) == len_utf8(c),
        utf16_len(seq![c]) == len_utf16(c),
{
    let e = seq![c].drop_first();
    assert(e.len() == 0);
    assert(utf8_len(e) == 0);
    assert(utf16_len(e) == 0);
    assert(seq![c][0] == c);
}

/// Each character adds its width to the byte and UTF-16 offsets.
pub proof fn lemma_offset_step(s: Seq<char>, k: int)
    requires
        0 <= k < s.len(),
    ensures
        byte_offset(s, k + 1) == byte_offset(s, k) + len_utf8(s[k]),
        utf16_offset(s, k + 1) == utf16_offset(s, k) + len_utf16(s[k]),
{
    assert(s.take(k + 1) =~= s.take(k) + seq![s[k]]);
    lemma_utf8_len_concat(s.take(k), seq![s[k]]);
    lemma_utf8_len_single(s[k]);
}

/// The byte offset grows strictly with the character index, and is at least it;
/// the UTF-16 offset never exceeds the byte offset.
pub proof fn lemma_offset_monotonic(s: Seq<char>, j: int, k: int)
    requires
        0 <= j <= k <= s.len(),
    ensures
        byte_offset(s, j) + (k - j) <= byte_offset(s, k),
        utf16_offset(s, j) + (k - j) <= utf16_offset(s, k),
        utf16_offset(s, k) <= byte_offset(s, k),
        k <= byte_offset(s, k),
    decreases k,
{
    if k == 0 {
        assert(s.take(0) =~= Seq::<char>::empty());
    } else {
        lemma_offset_step(s, k - 1);
        lemma_len_utf8_bounds(s[k - 1]);
        lemma_offset_monotonic(s, 0, k - 1);
        if j < k {
            lemma_offset_monotonic(s, j, k - 1);
        }
    }
}

pub proof fn lemma_offset_full(s: Seq<char>)
    ensures
        byte_offset(s, s.len() as int) == utf8_len(s),
        utf16_offset(s, s.len() as int) == utf16_len(s),
{
    assert(s.take(s.len() as int) =~= s);
}

/// A boundary determines the character index uniquely.
pub proof fn lemma_char_index(s: Seq<char>, k: int)
    requires
        0 <= k <= s.len(),
    ensures
        on_char_boundary(s, byte_offset(s, k) as int),
        char_index(s, byte_offset(s, k) as int) == k,
{
    let b = byte_offset(s, k) as int;
    assert(0 <= k <= s.len() && byte_offset(s, k) == b);
    let j = char_index(s, b);
    if j < k {
        lemma_offset_monotonic(s, j, k);
    } else if k < j {
        lemma_offset_monotonic(s, k, j);
    }
}

/// What `char_index` gives at a boundary.
pub proof fn lemma_char_index_of_boundary(s: Seq<char>, b: int)
    requires
        on_char_boundary(s, b),
    ensures
        0 <= char_index(s, b) <= s.len(),
        byte_offset(s, char_index(s, b)) == b,
        0 <= b <= utf8_len(s),
{
    let k = choose|k: int| 0 <= k <= s.len() && #[trigger] byte_offset(s, k) == b;
    lemma_char_index(s, k);
    lemma_offset_monotonic(s, k, s.len() as int);
    lemma_offset_full(s);
}

/// The UTF-8 encoding that vstd gives a string has `utf8_len` bytes.
pub proof fn lemma_encode_utf8_len(s: Seq<char>)
    ensures
        vstd::utf8::encode_utf8(s).len() == utf8_len(s),
    decreases s.len(),
{
    if s.len() > 0 {
        vstd::utf8::char_is_scalar(s[0]);
        lemma_encode_utf8_len(s.drop_first());
    }
}

/// Spliced text: its length, and where the inserted text ends.
pub proof fn lemma_splice(s: Seq<char>, a: int, b: int, t: Seq<char>)
    requires
        on_char_boundary(s, a),
        on_char_boundary(s, b),
    ensures
        utf8_len(splice(s, a, b, t)) == a + utf8_len(t) + (utf8_len(s) - b),
        on_char_boundary(splice(s, a, b, t), a),
        on_char_boundary(splice(s, a, b, t), a + utf8_len(t)),
{
    lemma_char_index_of_boundary(s, a);
    lemma_char_index_of_boundary(s, b);
    let ka = char_index(s, a);
    let kb = char_index(s, b);
    let r = splice(s, a, b, t);
    assert(s =~= s.take(kb) + s.skip(kb));
    lemma_utf8_len_concat(s.take(kb), s.skip(kb));
    lemma_offset_full(s);
    lemma_utf8_len_concat(s.take(ka), t);
    lemma_utf8_len_concat(s.take(ka) + t, s.skip(kb));
    assert(r.take(ka) =~= s.take(ka));
    assert(r.take(ka + t.len()) =~= s.take(ka) + t);
    lemma_char_index(r, ka);
    lemma_char_index(r, ka + t.len());
}

/// The result of `from_utf16_offset` is a boundary.
pub proof fn lemma_from_utf16_boundary(s: Seq<char>, o: int)
    ensures
        on_char_boundary(s, from_utf16_offset(s, o) as int),
    decreases s.len(),
{
    if o <= 0 || s.len() == 0 {
        assert(s.take(0) =~= Seq::<char>::empty());
        lemma_char_index(s, 0);
    } else {
        let r = s.drop_first();
        lemma_from_utf16_boundary(r, o - len_utf16(s[0]));
        let k = char_index(r, from_utf16_offset(r, o - len_utf16(s[0])) as int);
        lemma_char_index_of_boundary(r, from_utf16_offset(r, o - len_utf16(s[0])) as int);
        assert(s.take(k + 1) =~= seq![s[0]] + r.take(k));
        lemma_utf8_len_concat(seq![s[0]], r.take(k));
        lemma_utf8_len_single(s[0]);
        lemma_char_index(s, k + 1);
    }
}

/// The UTF-16 to UTF-8 conversion never decreases, and never goes past the text.
pub proof fn lemma_from_utf16_monotonic(s: Seq<char>, a: int, b: int)
    requires
        a <= b,
    ensures
        from_utf16_offset(s, a) <= from_utf16_offset(s, b),
        from_utf16_offset(s, b) <= utf8_len(s),
    decreases s.len(),
{
    if s.len() > 0 {
        lemma_from_utf16_monotonic(s.drop_first(), a - len_utf16(s[0]), b - len_utf16(s[0]));
    }
}

/// The UTF-8 to UTF-16 conversion never decreases, and never goes past the text.
pub proof fn lemma_to_utf16_monotonic(s: Seq<char>, a: int, b: int)
    requires
        a <= b,
    ensures
        to_utf16_offset(s, a) <= to_utf16_offset(s, b),
        to_utf16_offset(s, b) <= utf16_len(s),
    decreases s.len(),
{
    if s.len() > 0 {
        lemma_to_utf16_monotonic(s.drop_first(), a - len_utf8(s[0]), b - len_utf8(s[0]));
    }
}

/// Counting characters from the start: while the UTF-16 length of the first `i`
/// characters stays below `o`, the conversion continues on the rest.
pub proof fn lemma_from_utf16_prefix(s: Seq<char>, o: int, i: int)
    requires
        0 <= i <= s.len(),
        forall|j: int| 0 <= j < i ==> #[trigger] utf16_offset(s, j) < o,
    ensures
        from_utf16_offset(s, o) == byte_offset(s, i) + from_utf16_offset(
            s.skip(i),
            o - utf16_offset(s, i),
        ),
    decreases i,
{
    if i == 0 {
        assert(s.skip(0) =~= s);
        assert(s.take(0) =~= Seq::<char>::empty());
    } else {
        lemma_from_utf16_prefix(s, o, i - 1);
        assert(utf16_offset(s, i - 1) < o);
        lemma_offset_step(s, i - 1);
        assert(s.skip(i - 1).drop_first() =~= s.skip(i));
        assert(s.skip(i - 1)[0] == s[i - 1]);
    }
}

/// Counting characters from the start for the opposite conversion.
pub proof fn lemma_to_utf16_prefix(s: Seq<char>, o: int, i: int)
    requires
        0 <= i <= s.len(),
        forall|j: int| 0 <= j < i ==> #[trigger] byte_offset(s, j) < o,
    ensures
        to_utf16_offset(s, o) == utf16_offset(s, i) + to_utf16_offset(
            s.skip(i),
            o - byte_offset(s, i),
        ),
    decreases i,
{
    if i == 0 {
        assert(s.skip(0) =~= s);
        assert(s.take(0) =~= Seq::<char>::empty());
    } else {
        lemma_to_utf16_prefix(s, o, i - 1);
        assert(byte_offset(s, i - 1) < o);
        lemma_offset_step(s, i - 1);
        assert(s.skip(i - 1).drop_first() =~= s.skip(i));
        assert(s.skip(i - 1)[0] == s[i - 1]);
    }
}

/// Bytes taken by the UTF-8 encoding of `c`.
pub fn char_len_utf8(c: char) -> (n: usize)
    ensures
        n == len_utf8(c),
{
    let v = c as u32;
    if v < 0x80 {
        1
    } else if v < 0x800 {
        2
    } else if v < 0x10000 {
        3
    } else {
        4
    }
}

/// Code units taken by the UTF-16 encoding of `c`.
pub fn char_len_utf16(c: char) -> (n: usize)
    ensures
        n == len_utf16(c),
{
    let v = c as u32;
    if v < 0x10000 {
        1
    } else {
        2
    }
}

/// Number of UTF-8 bytes that encode `text` up to the UTF-16 offset passed into it.
pub fn utf8_offset_for_utf16(text: &str, offset_utf16: usize) -> (r: usize)
    ensures
        r == from_utf16_offset(text@, offset_utf16 as int),
        on_char_boundary(text@, r as int),
        r <= utf8_len(text@),
{
    let ghost s = text@;
    let n = byte_len(text);
    let mut utf8_offset: usize = 0;
    let mut utf16_count: usize = 0;
    let mut done = false;
    let ghost o = offset_utf16 as int;
    proof {
        assert(s.take(0) =~= Seq::<char>::empty());
    }
    for character in it: text.chars()
        invariant
            it.seq() == s,
            n == utf8_len(s),
            o == offset_utf16,
            !done ==> utf8_offset == byte_offset(s, it.index()) && utf16_count == utf16_offset(
                s,
                it.index(),
            ) && forall|j: int| 0 <= j < it.index() ==> #[trigger] utf16_offset(s, j) < o,
            done ==> utf8_offset == from_utf16_offset(s, o),
    {
        if !done {
            proof {
                lemma_offset_step(s, it.index());
                lemma_offset_monotonic(s, it.index() + 1, s.len() as int);
                lemma_offset_full(s);
            }
            if utf16_count >= offset_utf16 {
                proof {
                    lemma_from_utf16_prefix(s, o, it.index());
                }
                done = true;
            } else {
                utf16_count = utf16_count + char_len_utf16(character);
                utf8_offset = utf8_offset + char_len_utf8(character);
            }
        }
    }
    proof {
        if !done {
            lemma_from_utf16_prefix(s, o, s.len() as int);
            assert(s.skip(s.len() as int) =~= Seq::<char>::empty());
        }
        lemma_from_utf16_boundary(s, o);
        lemma_char_index_of_boundary(s, utf8_offset as int);
    }
    utf8_offset
}

/// Number of UTF-16 code units that encode `text` up to the UTF-8 offset passed into it.
pub fn utf16_offset_for_utf8(text: &str, offset_utf8: usize) -> (r: usize)
    ensures
        r == to_utf16_offset(text@, offset_utf8 as int),
{
    let ghost s = text@;
    let n = byte_len(text);
    let mut units: usize = 0;
    let mut utf8_count: usize = 0;
    let mut done = false;
    let ghost o = offset_utf8 as int;
    proof {
        assert(s.take(0) =~= Seq::<char>::empty());
    }
    for character in it: text.chars()
        invariant
            it.seq() == s,
            n == utf8_len(s),
            o == offset_utf8,
            !done ==> units == utf16_offset(s, it.index()) && utf8_count
                == byte_offset(s, it.index()) && forall|j: int|
                0 <= j < it.index() ==> #[trigger] byte_offset(s, j) < o,
            done ==> units == to_utf16_offset(s, o),
    {
        if !done {
            proof {
                lemma_offset_step(s, it.index());
                lemma_offset_monotonic(s, it.index() + 1, s.len() as int);
                lemma_offset_full(s);
            }
            if utf8_count >= offset_utf8 {
                proof {
                    lemma_to_utf16_prefix(s, o, it.index());
                }
                done = true;
            } else {
                utf8_count = utf8_count + char_len_utf8(character);
                units = units + char_len_utf16(character);
            }
        }
    }
    proof {
        if !done {
            lemma_to_utf16_prefix(s, o, s.len() as int);
            assert(s.skip(s.len() as int) =~= Seq::<char>::empty());
        }
    }
    units
}

/// Whether byte offset `b` is a character boundary of `text` (its end included).
pub fn is_boundary(text: &str, b: usize) -> (r: bool)
    ensures
        r == on_char_boundary(text@, b as int),
{
    let ghost s = text@;
    let n = byte_len(text);
    let mut bytes: usize = 0;
    let mut found = false;
    proof {
        assert(s.take(0) =~= Seq::<char>::empty());
    }
    for c in it: text.chars()
        invariant
            it.seq() == s,
            n == utf8_len(s),
            bytes == byte_offset(s, it.index()),
            found == exists|j: int| 0 <= j < it.index() && #[trigger] byte_offset(s, j) == b,
    {
        proof {
            lemma_offset_step(s, it.index());
            lemma_offset_monotonic(s, it.index() + 1, s.len() as int);
            lemma_offset_full(s);
        }
        if bytes == b {
            found = true;
        }
        bytes = bytes + char_len_utf8(c);
    }
    proof {
        lemma_offset_full(s);
    }
    found || bytes == b
}

/// `str::len`: the length of `s` in bytes, which is the length of its UTF-8 encoding.
/// The contract claims that the value is not truncated: a string held in memory
/// has fewer bytes than `usize` can count.
#[verifier::external_body]
fn str_len(s: &str) -> (n: usize)
    ensures
        n == vstd::utf8::encode_utf8(s@).len(),
{
    s.len()
}

/// `String::push`: appends one character.
#[verifier::external_body]
pub(crate) fn push_char(s: &mut String, c: char)
    ensures
        final(s)@ == old(s)@.push(c),
{
    s.push(c)
}

/// Length of `s` in bytes.
pub fn byte_len(s: &str) -> (n: usize)
    ensures
        n == utf8_len(s@),
{
    let n = str_len(s);
    proof {
        lemma_encode_utf8_len(s@);
    }
    n
}

/// Index of the character that starts at byte offset `b` of `s`.
pub fn char_index_at(s: &str, b: usize) -> (k: usize)
    requires
        on_char_boundary(s@, b as int),
    ensures
        k == char_index(s@, b as int),
        k <= s@.len(),
        byte_offset(s@, k as int) == b,
{
    let ghost t = s@;
    let n = byte_len(s);
    proof {
        lemma_char_index_of_boundary(t, b as int);
        lemma_offset_monotonic(t, 0, t.len() as int);
        lemma_offset_full(t);
    }
    let ghost k0 = char_index(t, b as int);
    let mut k: usize = 0;
    let mut bytes: usize = 0;
    for c in it: s.chars()
        invariant
            it.seq() == t,
            n == utf8_len(t),
            t.len() <= n,
            0 <= k0 <= t.len(),
            byte_offset(t, k0) == b,
            bytes == byte_offset(t, it.index()),
            k == (if it.index() <= k0 { it.index() } else { k0 }),
    {
        proof {
            lemma_offset_step(t, it.index());
            lemma_offset_monotonic(t, it.index() + 1, t.len() as int);
            lemma_offset_full(t);
            if it.index() < k0 {
                lemma_offset_monotonic(t, it.index(), k0);
            } else {
                lemma_offset_monotonic(t, k0, it.index());
            }
        }
        if bytes < b {
            k = k + 1;
        }
        bytes = bytes + char_len_utf8(c);
    }
    k
}

/// The characters of `s` from byte `a` to byte `b`, as a new string.
pub fn slice_bytes(s: &str, a: usize, b: usize) -> (r: String)
    requires
        on_char_boundary(s@, a as int),
        on_char_boundary(s@, b as int),
        a <= b,
    ensures
        r@ == byte_slice(s@, a as int, b as int),
{
    let ka = char_index_at(s, a);
    let kb = char_index_at(s, b);
    proof {
        if kb < ka {
            lemma_offset_monotonic(s@, kb as int, ka as int);
        }
    }
    s.substring_char(ka, kb).to_owned()
}

/// `s` with the bytes from `a` to `b` replaced by `t`.
pub fn splice_bytes(s: &str, a: usize, b: usize, t: &str) -> (r: String)
    requires
        on_char_boundary(s@, a as int),
        on_char_boundary(s@, b as int),
    ensures
        r@ == splice(s@, a as int, b as int, t@),
{
    let ka = char_index_at(s, a);
    let kb = char_index_at(s, b);
    let n = s.unicode_len();
    let mut r = s.substring_char(0, ka).to_owned();
    r.append(t);
    r.append(s.substring_char(kb, n));
    proof {
        assert(s@.subrange(0, ka as int) =~= s@.take(ka as int));
        assert(s@.subrange(kb as int, n as int) =~= s@.skip(kb as int));
    }
    r
}

/// `s` with every line feed replaced by a space.
pub fn replace_newlines(s: &str) -> (r: String)
    ensures
        r@ == newlines_to_spaces(s@),
{
    let mut r = String::new();
    for c in it: s.chars()
        invariant
            it.seq() == s@,
            r@ == newlines_to_spaces(s@.take(it.index())),
    {
        proof {
            assert(s@.take(it.index() + 1) =~= s@.take(it.index()).push(s@[it.index()]));
        }
        if c == '\n' {
            push_char(&mut r, ' ');
        } else {
            push_char(&mut r, c);
        }
        assert(r@ =~= newlines_to_spaces(s@.take(it.index() + 1)));
    }
    proof {
        assert(s@.take(s@.len() as int) =~= s@);
    }
    r
}

} // verus!
