//! Byte offsets into text. A cursor is a byte offset that stands on a character
//! boundary, and so cuts its text into what is before it and what is after it.
use vstd::prelude::*;
use vstd::string::StringExecFns;
use vstd::utf8::*;

use crate::text;
use crate::text::{chars_of, is_whitespace, string_of};

verus! {

// ---------- what an offset means ----------

/// The number of bytes in the UTF-8 encoding of `s`.
pub open spec fn byte_len(s: Seq<char>) -> nat {
    encode_utf8(s).len()
}

/// True when the byte offset `i` stands on a character boundary of `s`.
pub open spec fn on_boundary(s: Seq<char>, i: int) -> bool {
    is_char_boundary(encode_utf8(s), i)
}

/// The characters of `s` before the byte offset `i`.
pub open spec fn before(s: Seq<char>, i: int) -> Seq<char> {
    decode_utf8(encode_utf8(s).subrange(0, i))
}

/// The characters of `s` from the byte offset `i` on.
pub open spec fn after(s: Seq<char>, i: int) -> Seq<char> {
    decode_utf8(encode_utf8(s).subrange(i, encode_utf8(s).len() as int))
}

// ---------- facts about offsets ----------

/// The encoding of a concatenation is the concatenation of the encodings.
pub proof fn lemma_encode_concat(a: Seq<char>, b: Seq<char>)
    ensures
        encode_utf8(a + b) == encode_utf8(a) + encode_utf8(b),
    decreases a.len(),
{
    if a.len() == 0 {
        assert(a + b =~= b);
        assert(encode_utf8(a) + encode_utf8(b) =~= encode_utf8(b));
    } else {
        assert((a + b).drop_first() =~= a.drop_first() + b);
        lemma_encode_concat(a.drop_first(), b);
        assert(encode_utf8(a + b) =~= encode_utf8(a) + encode_utf8(b));
    }
}

/// Every character takes up at least one byte, and at most four.
pub proof fn lemma_byte_len_bounds(s: Seq<char>)
    ensures
        s.len() <= byte_len(s) <= 4 * s.len(),
    decreases s.len(),
{
    if s.len() > 0 {
        lemma_byte_len_bounds(s.drop_first());
    }
}

/// A text that is cut in two has a boundary at the cut, and the cut is found
/// again from the byte offset.
pub proof fn lemma_cut(a: Seq<char>, b: Seq<char>)
    ensures
        on_boundary(a + b, byte_len(a) as int),
        before(a + b, byte_len(a) as int) == a,
        after(a + b, byte_len(a) as int) == b,
        byte_len(a + b) == byte_len(a) + byte_len(b),
{
    lemma_encode_concat(a, b);
    encode_utf8_decode_utf8(a);
    encode_utf8_decode_utf8(b);
    let all = encode_utf8(a + b);
    assert(all.subrange(0, byte_len(a) as int) =~= encode_utf8(a));
    assert(all.subrange(byte_len(a) as int, all.len() as int) =~= encode_utf8(b));
    lemma_cut_boundary(a, b);
}

proof fn lemma_cut_boundary(a: Seq<char>, b: Seq<char>)
    ensures
        on_boundary(a + b, byte_len(a) as int),
    decreases a.len(),
{
    encode_utf8_valid_utf8(a + b);
    if a.len() > 0 {
        let s = a + b;
        lemma_encode_concat(a, b);
        encode_utf8_first_scalar(s);
        lemma_cut_boundary(a.drop_first(), b);
        assert(s.drop_first() =~= a.drop_first() + b);
        assert(pop_first_scalar(encode_utf8(s)) =~= encode_utf8(s.drop_first()));
    }
}

/// An offset on a boundary cuts the text in two.
pub proof fn lemma_boundary_cuts(s: Seq<char>, i: int)
    requires
        on_boundary(s, i),
    ensures
        0 <= i <= byte_len(s),
        s == before(s, i) + after(s, i),
        byte_len(before(s, i)) == i,
        byte_len(after(s, i)) == byte_len(s) - i,
    decreases s.len(),
{
    let bytes = encode_utf8(s);
    encode_utf8_valid_utf8(s);
    lemma_boundary_in_range(bytes, i);
    valid_utf8_split(bytes, i);
    decode_utf8_split(bytes, i);
    encode_utf8_decode_utf8(s);
    decode_utf8_encode_utf8(bytes.subrange(0, i));
    decode_utf8_encode_utf8(bytes.subrange(i, bytes.len() as int));
}

proof fn lemma_boundary_in_range(bytes: Seq<u8>, i: int)
    requires
        valid_utf8(bytes),
        is_char_boundary(bytes, i),
    ensures
        0 <= i <= bytes.len(),
{
}

/// Both ends of a text are boundaries.
pub proof fn lemma_ends(s: Seq<char>)
    ensures
        on_boundary(s, 0),
        on_boundary(s, byte_len(s) as int),
        before(s, 0) == Seq::<char>::empty(),
        after(s, 0) == s,
        before(s, byte_len(s) as int) == s,
        after(s, byte_len(s) as int) == Seq::<char>::empty(),
{
    let none = Seq::<char>::empty();
    assert(none + s =~= s);
    assert(s + none =~= s);
    lemma_cut(none, s);
    lemma_cut(s, none);
}

/// Of two boundaries of one text the earlier one has fewer characters before it.
proof fn lemma_order(s: Seq<char>, i: int, j: int)
    requires
        on_boundary(s, i),
        on_boundary(s, j),
        i < j,
    ensures
        before(s, i).len() < before(s, j).len(),
{
    lemma_boundary_cuts(s, i);
    lemma_boundary_cuts(s, j);
    let a = before(s, i);
    let b = before(s, j);
    if b.len() <= a.len() {
        assert(a =~= s.take(a.len() as int));
        assert(b =~= s.take(b.len() as int));
        let rest = a.skip(b.len() as int);
        assert(a =~= b + rest);
        lemma_cut(b, rest);
        assert(false);
    }
}

/// One character to the left: the boundary before `byte_len(a)` in `a + b` is
/// where the last character of `a` begins.
pub proof fn lemma_step_left(a: Seq<char>, b: Seq<char>, j: int)
    requires
        a.len() > 0,
        on_boundary(a + b, j),
        j < byte_len(a),
        forall|k: int| j < k < byte_len(a) ==> !on_boundary(a + b, k),
    ensures
        j == byte_len(a.drop_last()),
{
    let p = a.drop_last();
    let q = seq![a.last()] + b;
    assert(a + b =~= p + q);
    lemma_cut(p, q);
    lemma_cut(a, b);
    lemma_cut(p, seq![a.last()]);
    assert(p + seq![a.last()] =~= a);
    lemma_byte_len_bounds(seq![a.last()]);
    if j < byte_len(p) {
        assert(false);
    }
    if j > byte_len(p) {
        lemma_order(a + b, byte_len(p) as int, j);
        lemma_order(a + b, j, byte_len(a) as int);
    }
}

/// One character to the right: the boundary after `byte_len(a)` in `a + b` is
/// where the first character of `b` ends.
pub proof fn lemma_step_right(a: Seq<char>, b: Seq<char>, j: int)
    requires
        b.len() > 0,
        on_boundary(a + b, j),
        j > byte_len(a),
        forall|k: int| byte_len(a) < k < j ==> !on_boundary(a + b, k),
    ensures
        j == byte_len(a.push(b[0])),
{
    let p = a.push(b[0]);
    let q = b.drop_first();
    assert(a + b =~= p + q);
    lemma_cut(p, q);
    lemma_cut(a, b);
    lemma_cut(a, seq![b[0]]);
    assert(a + seq![b[0]] =~= p);
    lemma_byte_len_bounds(seq![b[0]]);
    if j > byte_len(p) {
        assert(false);
    }
    if j < byte_len(p) {
        lemma_order(a + b, byte_len(a) as int, j);
        lemma_order(a + b, j, byte_len(p) as int);
    }
}

// ---------- moving ----------

/// The number of bytes in `s`.
pub fn bytes_in(s: &str) -> (r: usize)
    ensures
        r == byte_len(s@),
{
    s.as_bytes().len()
}

/// The number of bytes that `c` takes up.
pub fn bytes_of_char(c: char) -> (r: usize)
    ensures
        r == byte_len(seq![c]),
{
    proof {
        let one = seq![c];
        assert(one.drop_first() =~= Seq::<char>::empty());
        reveal_with_fuel(encode_utf8, 2);
        assert(encode_utf8(one) =~= encode_scalar(c as u32));
    }
    if c <= '\u{7f}' {
        1
    } else if c <= '\u{7ff}' {
        2
    } else if c <= '\u{ffff}' {
        3
    } else {
        4
    }
}

/// The last character boundary of `s` before the byte offset `i`; 0 if `i` is 0.
pub fn prev_boundary(s: &str, i: usize) -> (r: usize)
    ensures
        on_boundary(s@, r as int),
        i == 0 ==> r == 0,
        i > 0 ==> r < i,
        forall|k: int| r < k < i ==> !on_boundary(s@, k),
{
    proof {
        lemma_ends(s@);
    }
    if i == 0 {
        return 0;
    }
    let mut j: usize = i - 1;
    while j > 0 && !s.is_char_boundary(j)
        invariant
            j < i,
            on_boundary(s@, 0),
            forall|k: int| j < k < i ==> !on_boundary(s@, k),
        decreases j,
    {
        j = j - 1;
    }
    j
}

/// The first character boundary of `s` after the byte offset `i`; the length of
/// `s` if `i` is not before the end.
pub fn next_boundary(s: &str, i: usize) -> (r: usize)
    ensures
        on_boundary(s@, r as int),
        i >= byte_len(s@) ==> r == byte_len(s@),
        i < byte_len(s@) ==> i < r,
        forall|k: int| i < k < r ==> !on_boundary(s@, k),
{
    let len = bytes_in(s);
    proof {
        lemma_ends(s@);
    }
    if i >= len {
        return len;
    }
    let mut j: usize = i + 1;
    while j < len && !s.is_char_boundary(j)
        invariant
            i < j <= len,
            len == byte_len(s@),
            on_boundary(s@, len as int),
            forall|k: int| i < k < j ==> !on_boundary(s@, k),
        decreases len - j,
    {
        j = j + 1;
    }
    j
}

// ---------- editing at a cursor ----------

/// What deleting the word before the cursor leaves of the text before it: white
/// space at the end goes, then everything back to the white space before it.
pub open spec fn without_last_word(a: Seq<char>) -> Seq<char> {
    a.take(text::last_word_start(text::trimmed_end(a)) as int)
}

/// True when the white space that ends such a deletion is an ASCII character (or
/// there is none). One byte is stepped over there, so that a wider character
/// would be cut in half.
pub open spec fn word_break_is_ascii(a: Seq<char>) -> bool {
    let t = text::trimmed_end(a);
    let k = text::last_word_start(t) as int;
    k > 0 ==> t[k - 1] <= '\u{7f}'
}

/// `s` cut in two at the byte offset `i`.
pub fn cut(s: &str, i: usize) -> (r: (&str, &str))
    requires
        on_boundary(s@, i as int),
    ensures
        r.0@ == before(s@, i as int),
        r.1@ == after(s@, i as int),
{
    let (a, b) = s.split_at(i);
    proof {
        encode_utf8_decode_utf8(a@);
        encode_utf8_decode_utf8(b@);
    }
    (a, b)
}

/// The text and the cursor that `a`, before the cursor, and `b`, after it, make.
fn rejoin(a: &str, b: &str) -> (r: (String, usize))
    ensures
        on_boundary(r.0@, r.1 as int),
        before(r.0@, r.1 as int) == a@,
        after(r.0@, r.1 as int) == b@,
{
    let mut text = String::from_str(a);
    text.append(b);
    proof {
        lemma_cut(a@, b@);
    }
    (text, bytes_in(a))
}

/// Puts `s` in at the cursor, and the cursor behind it.
pub fn insert_at(text: &str, cursor: usize, s: &str) -> (r: (String, usize))
    requires
        on_boundary(text@, cursor as int),
    ensures
        on_boundary(r.0@, r.1 as int),
        before(r.0@, r.1 as int) == before(text@, cursor as int) + s@,
        after(r.0@, r.1 as int) == after(text@, cursor as int),
{
    let (a, b) = cut(text, cursor);
    let mut head = String::from_str(a);
    head.append(s);
    rejoin(head.as_str(), b)
}

/// Takes out the character before the cursor, if there is one.
pub fn remove_before(text: &str, cursor: usize) -> (r: (String, usize))
    requires
        on_boundary(text@, cursor as int),
    ensures
        on_boundary(r.0@, r.1 as int),
        before(r.0@, r.1 as int) == (if cursor == 0 {
            before(text@, cursor as int)
        } else {
            before(text@, cursor as int).drop_last()
        }),
        after(r.0@, r.1 as int) == after(text@, cursor as int),
{
    if cursor == 0 {
        return (String::from_str(text), cursor);
    }
    let p = prev_boundary(text, cursor);
    let (_, b) = cut(text, cursor);
    let (a, _) = cut(text, p);
    proof {
        let x = before(text@, cursor as int);
        lemma_boundary_cuts(text@, cursor as int);
        lemma_byte_len_bounds(x);
        lemma_step_left(x, b@, p as int);
        let q = seq![x.last()] + b@;
        assert(x.drop_last() + q =~= text@);
        lemma_cut(x.drop_last(), q);
    }
    rejoin(a, b)
}

/// Takes out the character after the cursor, if there is one.
pub fn remove_after(text: &str, cursor: usize) -> (r: (String, usize))
    requires
        on_boundary(text@, cursor as int),
    ensures
        on_boundary(r.0@, r.1 as int),
        before(r.0@, r.1 as int) == before(text@, cursor as int),
        after(r.0@, r.1 as int) == (if cursor >= byte_len(text@) {
            after(text@, cursor as int)
        } else {
            after(text@, cursor as int).drop_first()
        }),
{
    if cursor >= bytes_in(text) {
        return (String::from_str(text), cursor);
    }
    let n = next_boundary(text, cursor);
    let (a, _) = cut(text, cursor);
    let (_, b) = cut(text, n);
    proof {
        let y = after(text@, cursor as int);
        lemma_boundary_cuts(text@, cursor as int);
        lemma_byte_len_bounds(y);
        lemma_step_right(a@, y, n as int);
        let p = a@.push(y[0]);
        assert(p + y.drop_first() =~= text@);
        lemma_cut(p, y.drop_first());
    }
    rejoin(a, b)
}

/// How many characters of `a` a word deletion leaves, and whether the white
/// space that it stops at is an ASCII character.
fn word_cut(a: &Vec<char>) -> (r: (usize, bool))
    ensures
        r.0 <= a@.len(),
        r.0 == text::last_word_start(text::trimmed_end(a@)),
        r.1 == word_break_is_ascii(a@),
{
    let mut j: usize = a.len();
    assert(a@.take(j as int) =~= a@);
    while j > 0 && is_whitespace(a[j - 1])
        invariant
            j <= a@.len(),
            text::trimmed_end(a@.take(j as int)) == text::trimmed_end(a@),
        decreases j,
    {
        assert(a@.take(j as int).drop_last() =~= a@.take(j - 1));
        j = j - 1;
    }
    let ghost t = a@.take(j as int);
    let mut k: usize = j;
    assert(t.take(k as int) =~= t);
    while k > 0 && !is_whitespace(a[k - 1])
        invariant
            k <= j <= a@.len(),
            t == a@.take(j as int),
            text::last_word_start(t.take(k as int)) == text::last_word_start(t),
        decreases k,
    {
        assert(t.take(k as int).drop_last() =~= t.take(k - 1));
        assert(t.take(k as int).last() == a@[k - 1]);
        k = k - 1;
    }
    if k > 0 {
        assert(t.take(k as int).last() == a@[k - 1]);
    }
    (k, k == 0 || a[k - 1] <= '\u{7f}')
}

/// True when the word before the cursor can be taken out.
pub fn can_remove_word(text: &str, cursor: usize) -> (r: bool)
    requires
        on_boundary(text@, cursor as int),
    ensures
        r == word_break_is_ascii(before(text@, cursor as int)),
{
    let (a, _) = cut(text, cursor);
    word_cut(&chars_of(a)).1
}

/// Takes out the word before the cursor.
pub fn remove_word(text: &str, cursor: usize) -> (r: (String, usize))
    requires
        on_boundary(text@, cursor as int),
        word_break_is_ascii(before(text@, cursor as int)),
    ensures
        on_boundary(r.0@, r.1 as int),
        before(r.0@, r.1 as int) == without_last_word(before(text@, cursor as int)),
        after(r.0@, r.1 as int) == after(text@, cursor as int),
{
    let (a, b) = cut(text, cursor);
    let head = chars_of(a);
    let (k, _) = word_cut(&head);
    let kept = string_of(&head, 0, k);
    assert(kept@ =~= without_last_word(a@));
    rejoin(kept.as_str(), b)
}

} // verus!
