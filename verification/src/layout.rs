//! The input buffer as rows on the screen.
use vstd::prelude::*;

use crate::cursor;
use crate::cursor::bytes_of_char;
use crate::text;
use crate::text::chars_of;

verus! {

/// `rows` with one more character set behind them. A newline opens a row, and so
/// does a character that finds the last row full.
pub open spec fn placed(rows: Seq<Seq<char>>, c: char, width: nat) -> Seq<Seq<char>> {
    if c == '\n' {
        rows.push(seq![])
    } else if rows.last().len() == width {
        rows.push(seq![c])
    } else {
        rows.update(rows.len() - 1, rows.last().push(c))
    }
}

/// The rows that `s` takes up, `width` characters to a row.
pub open spec fn rows_of(s: Seq<char>, width: nat) -> Seq<Seq<char>>
    decreases s.len(),
{
    if s.len() == 0 {
        seq![seq![]]
    } else {
        placed(rows_of(s.drop_last(), width), s.last(), width)
    }
}

/// Rows are never narrower than one character.
pub open spec fn row_width(width: usize) -> nat {
    if width == 0 { 1 } else { width as nat }
}

/// The part of `s` whose end is where the cursor is shown: what is before it, or
/// all of `s` when the offset is not on a boundary.
pub open spec fn shown_before(s: Seq<char>, offset: int) -> Seq<char> {
    if cursor::on_boundary(s, offset) {
        cursor::before(s, offset)
    } else {
        s
    }
}

/// The row and the column behind the last character of `s`.
pub open spec fn end_of(s: Seq<char>, width: nat) -> (int, int) {
    (rows_of(s, width).len() - 1, rows_of(s, width).last().len() as int)
}

/// There is always a row, no row is wider than `width`, and none holds a newline.
pub proof fn rows_fit(s: Seq<char>, width: nat)
    requires
        width > 0,
    ensures
        rows_of(s, width).len() > 0,
        forall|i: int|
            0 <= i < rows_of(s, width).len() ==> #[trigger] rows_of(s, width)[i].len() <= width,
        forall|i: int, j: int|
            0 <= i < rows_of(s, width).len() && 0 <= j < rows_of(s, width)[i].len()
                ==> #[trigger] rows_of(s, width)[i][j] != '\n',
    decreases s.len(),
{
    if s.len() > 0 {
        rows_fit(s.drop_last(), width);
    }
}

/// Read one after the other, the rows are the text without its newlines: nothing
/// is lost, added or reordered.
pub proof fn rows_keep_the_text(s: Seq<char>, width: nat)
    requires
        width > 0,
    ensures
        rows_of(s, width).flatten() == s.filter(|c: char| c != '\n'),
    decreases s.len(),
{
    let keep = |c: char| c != '\n';
    reveal(Seq::filter);
    if s.len() == 0 {
        rows_of(s, width).lemma_flatten_one_element();
        assert(s.filter(keep) =~= Seq::<char>::empty());
    } else {
        let t = s.drop_last();
        let c = s.last();
        let rows = rows_of(t, width);
        rows_fit(t, width);
        rows_keep_the_text(t, width);
        let new = rows_of(s, width);
        if c == '\n' {
            rows.lemma_flatten_push(seq![]);
            assert(new.flatten() =~= rows.flatten());
        } else if rows.last().len() == width {
            rows.lemma_flatten_push(seq![c]);
            assert(new.flatten() =~= rows.flatten().push(c));
        } else {
            let head = rows.drop_last();
            assert(rows =~= head.push(rows.last()));
            assert(new =~= head.push(rows.last().push(c)));
            head.lemma_flatten_push(rows.last());
            head.lemma_flatten_push(rows.last().push(c));
            assert(new.flatten() =~= rows.flatten().push(c));
        }
    }
}

/// A paragraph cut into pieces of `width` characters; the last piece is what is left.
pub open spec fn pieces(p: Seq<char>, width: nat) -> Seq<Seq<char>>
    decreases p.len(),
{
    if width == 0 || p.len() <= width {
        seq![p]
    } else {
        seq![p.take(width as int)] + pieces(p.skip(width as int), width)
    }
}

/// The rows are the paragraphs of the text, one after the other, each cut into pieces
/// of `width` characters.
pub proof fn rows_are_cut_paragraphs(s: Seq<char>, width: nat)
    requires
        width > 0,
    ensures
        rows_of(s, width) == text::paragraphs(s).map_values(
            |p: Seq<char>| pieces(p, width),
        ).flatten(),
    decreases s.len(),
{
    let cut = |p: Seq<char>| pieces(p, width);
    if s.len() == 0 {
        let ps = text::paragraphs(s);
        assert(ps =~= seq![s]);
        assert(ps.map_values(cut) =~= seq![pieces(s, width)]);
        ps.map_values(cut).lemma_flatten_one_element();
        assert(s =~= seq![]);
        assert(rows_of(s, width) =~= pieces(s, width));
    } else {
        let t = s.drop_last();
        let c = s.last();
        let ps = text::paragraphs(t);
        rows_are_cut_paragraphs(t, width);
        assert(s =~= t.push(c));
        paragraphs_grow(t, c);
        let head = ps.drop_last();
        let last = ps.last();
        let above = head.map_values(cut).flatten();
        assert(ps =~= head.push(last));
        assert(ps.map_values(cut) =~= head.map_values(cut).push(cut(last)));
        head.map_values(cut).lemma_flatten_push(cut(last));
        pieces_grow(last, c, width);
        let rows = rows_of(t, width);
        assert(rows =~= above + pieces(last, width));
        assert(rows.last() == pieces(last, width).last());
        if c == '\n' {
            let none = Seq::<char>::empty();
            assert(ps.push(none).map_values(cut) =~= ps.map_values(cut).push(cut(none)));
            ps.map_values(cut).lemma_flatten_push(cut(none));
            assert(rows_of(s, width) =~= rows + pieces(none, width));
        } else {
            let longer = last.push(c);
            let new = ps.update(ps.len() - 1, longer);
            assert(new.map_values(cut) =~= head.map_values(cut).push(cut(longer)));
            head.map_values(cut).lemma_flatten_push(cut(longer));
            assert(rows_of(s, width) =~= above + pieces(longer, width));
        }
    }
}

/// Every piece but the last is as long as can be, and none is longer.
pub proof fn pieces_are_full(p: Seq<char>, width: nat)
    requires
        width > 0,
    ensures
        pieces(p, width).len() > 0,
        forall|i: int|
            0 <= i < pieces(p, width).len() - 1 ==> #[trigger] pieces(p, width)[i].len() == width,
        pieces(p, width).last().len() <= width,
        p.len() > 0 ==> pieces(p, width).last().len() > 0,
        pieces(p, width).flatten() == p,
    decreases p.len(),
{
    if p.len() <= width {
        pieces(p, width).lemma_flatten_one_element();
    } else {
        let first = p.take(width as int);
        let rest = pieces(p.skip(width as int), width);
        pieces_are_full(p.skip(width as int), width);
        let all = pieces(p, width);
        assert(all.last() == rest.last());
        assert(all.drop_first() =~= rest);
        assert(all.flatten() =~= first + rest.flatten());
        assert(first + p.skip(width as int) =~= p);
        assert forall|i: int| 0 <= i < all.len() - 1 implies #[trigger] all[i].len() == width by {
            if i > 0 {
                assert(all[i] == rest[i - 1]);
            }
        }
    }
}

proof fn pieces_grow(p: Seq<char>, c: char, width: nat)
    requires
        width > 0,
    ensures
        pieces(p, width).len() > 0,
        pieces(p.push(c), width) == (if pieces(p, width).last().len() == width {
            pieces(p, width).push(seq![c])
        } else {
            pieces(p, width).update(
                pieces(p, width).len() - 1,
                pieces(p, width).last().push(c),
            )
        }),
    decreases p.len(),
{
    let q = p.push(c);
    let w = width as int;
    if p.len() < width {
        assert(pieces(q, width) =~= seq![q]);
    } else if p.len() == width {
        assert(q.take(w) =~= p);
        assert(q.skip(w) =~= seq![c]);
        assert(pieces(seq![c], width) =~= seq![seq![c]]);
        assert(pieces(q, width) =~= seq![p].push(seq![c]));
    } else {
        let rest = p.skip(w);
        pieces_grow(rest, c, width);
        assert(q.take(w) =~= p.take(w));
        assert(q.skip(w) =~= rest.push(c));
        let first = seq![p.take(w)];
        let below = pieces(rest, width);
        assert((first + below).last() == below.last());
        if below.last().len() == width {
            assert(first + below.push(seq![c]) =~= (first + below).push(seq![c]));
        } else {
            assert(first + below.update(below.len() - 1, below.last().push(c)) =~= (first
                + below).update(below.len() as int, below.last().push(c)));
        }
    }
}

proof fn paragraphs_grow(s: Seq<char>, c: char)
    ensures
        text::paragraphs(s).len() > 0,
        text::paragraphs(s.push(c)) == (if c == '\n' {
            text::paragraphs(s).push(seq![])
        } else {
            text::paragraphs(s).update(
                text::paragraphs(s).len() - 1,
                text::paragraphs(s).last().push(c),
            )
        }),
    decreases s.len(),
{
    let t = s.push(c);
    let k = text::newline_at(s) as int;
    text::lemma_newline_is_found(s);
    if k < s.len() {
        assert forall|j: int| 0 <= j < k implies #[trigger] t[j] != '\n' by {
            assert(t[j] == s[j]);
        }
        text::lemma_newline_at(t, k);
        let rest = s.skip(k + 1);
        paragraphs_grow(rest, c);
        assert(t.take(k) =~= s.take(k));
        assert(t.skip(k + 1) =~= rest.push(c));
        let first = seq![s.take(k)];
        let below = text::paragraphs(rest);
        assert((first + below).last() == below.last());
        if c == '\n' {
            assert(first + below.push(seq![]) =~= (first + below).push(seq![]));
        } else {
            assert(first + below.update(below.len() - 1, below.last().push(c)) =~= (first
                + below).update(below.len() as int, below.last().push(c)));
        }
    } else {
        assert forall|j: int| 0 <= j < s.len() implies #[trigger] t[j] != '\n' by {
            assert(t[j] == s[j]);
        }
        if c == '\n' {
            text::lemma_newline_at(t, s.len() as int);
            assert(t.take(s.len() as int) =~= s);
            let none = Seq::<char>::empty();
            assert(t.skip(s.len() as int + 1) =~= none);
            assert(text::paragraphs(none) =~= seq![none]);
            assert(text::paragraphs(t) =~= seq![s].push(none));
        } else {
            text::lemma_newline_at(t, t.len() as int);
            assert(text::paragraphs(t) =~= seq![t]);
        }
    }
}

/// Text that is added at the end only adds to the last row and below it: the rows
/// of `a + b` begin with those of `a`.
pub proof fn rows_only_grow(a: Seq<char>, b: Seq<char>, width: nat)
    requires
        width > 0,
    ensures
        ({
            let (small, big) = (rows_of(a, width), rows_of(a + b, width));
            &&& small.len() <= big.len()
            &&& forall|i: int| 0 <= i < small.len() - 1 ==> #[trigger] big[i] == small[i]
            &&& small.last().is_prefix_of(big[small.len() - 1])
        }),
    decreases b.len(),
{
    rows_fit(a, width);
    if b.len() == 0 {
        assert(a + b =~= a);
    } else {
        assert((a + b).drop_last() =~= a + b.drop_last());
        rows_only_grow(a, b.drop_last(), width);
        rows_fit(a + b.drop_last(), width);
        let mid = rows_of(a + b.drop_last(), width);
        let big = rows_of(a + b, width);
        let k = rows_of(a, width).len() - 1;
        let last = rows_of(a, width).last();
        assert(mid[k].is_prefix_of(big[k])) by {
            if big[k] != mid[k] {
                assert(big[k] == mid[k].push((a + b).last()));
            }
        }
        assert(last =~= big[k].take(last.len() as int));
    }
}

/// The cursor is shown on the character that follows it, unless that character
/// begins the next row.
pub proof fn cursor_shows_the_next_char(a: Seq<char>, b: Seq<char>, width: nat)
    requires
        width > 0,
        b.len() > 0,
        b[0] != '\n',
        end_of(a, width).1 < width,
    ensures
        end_of(a, width).1 < rows_of(a + b, width)[end_of(a, width).0].len(),
        rows_of(a + b, width)[end_of(a, width).0][end_of(a, width).1] == b[0],
{
    rows_fit(a, width);
    let one = a.push(b[0]);
    assert(one.drop_last() =~= a);
    assert(one + b.drop_first() =~= a + b);
    rows_only_grow(one, b.drop_first(), width);
    let (row, col) = end_of(a, width);
    let small = rows_of(one, width).last();
    let big = rows_of(a + b, width)[row];
    assert(small[col] == b[0]);
    assert(small =~= big.take(small.len() as int));
    assert(big[col] == big.take(small.len() as int)[col]);
}

/// The cursor stands in the last of the rows that the text before it takes up, behind
/// what is in that row. An offset that is not on a boundary counts as the end.
pub proof fn the_cursor_stands_behind_the_text(s: Seq<char>, offset: int, width: nat)
    ensures
        ({
            let before = if cursor::on_boundary(s, offset) {
                cursor::before(s, offset)
            } else {
                s
            };
            let rows = rows_of(before, width);
            end_of(shown_before(s, offset), width) == (
                rows.len() - 1,
                rows[rows.len() - 1].len() as int,
            )
        }),
        row_width(0) == 1,
        forall|w: usize| w > 0 ==> #[trigger] row_width(w) == w,
{
}

/// Lay the input buffer out into display rows and locate the cursor.
///
/// Hard wrap at `width` so the cursor arithmetic stays exact; the scrollback
/// uses word wrapping instead.
pub fn layout_input(text: &str, cursor: usize, width: usize) -> (r: (Vec<String>, usize, usize))
    ensures
        r.0.deep_view() == rows_of(text@, row_width(width)),
        (r.1 as int, r.2 as int) == end_of(
            shown_before(text@, cursor as int),
            row_width(width),
        ),
{
    let width: usize = if width == 0 { 1 } else { width };
    let ghost w = width as nat;
    let v = chars_of(text);
    let total = cursor::bytes_in(text);

    let mut done: Vec<String> = Vec::new();
    let mut row = String::new();
    let mut col: usize = 0;
    let mut idx: usize = 0;

    let mut crow: usize = 0;
    let mut ccol: usize = 0;
    let mut found = false;

    assert(done.deep_view().push(row@) =~= rows_of(v@.take(0), w));
    for i in 0..v.len()
        invariant
            v@ == text@,
            width > 0,
            w == width,
            w == row_width(width),
            total == cursor::byte_len(text@),
            idx == cursor::byte_len(v@.take(i as int)),
            col == row@.len(),
            col <= width,
            done.deep_view().push(row@) == rows_of(v@.take(i as int), w),
            found ==> cursor::on_boundary(text@, cursor as int) && (crow as int, ccol as int)
                == end_of(cursor::before(text@, cursor as int), w),
            !found ==> forall|k: int|
                0 <= k < i ==> cursor::byte_len(#[trigger] v@.take(k)) != cursor,
    {
        let ghost seen = v@.take(i as int);
        proof {
            assert(seen + v@.skip(i as int) =~= text@);
            cursor::lemma_cut(seen, v@.skip(i as int));
        }
        let ghost rows = rows_of(seen, w);
        assert(rows.last() == row@);
        assert(rows.len() == done@.len() + 1);
        if idx == cursor {
            crow = done.len();
            ccol = col;
            found = true;
        }
        let c = v[i];
        let ghost next = v@.take(i + 1);
        proof {
            assert(next.drop_last() =~= seen);
            assert(next =~= seen + seq![c]);
            cursor::lemma_cut(seen, seq![c]);
            assert(next + v@.skip(i + 1) =~= text@);
            cursor::lemma_cut(next, v@.skip(i + 1));
        }
        let ghost old_done = done.deep_view();
        let ghost old_row = row@;
        if c == '\n' {
            done.push(row);
            row = String::new();
            col = 0;
            assert(done.deep_view() =~= old_done.push(old_row));
        } else {
            if col == width {
                done.push(row);
                row = String::new();
                col = 0;
                assert(done.deep_view() =~= old_done.push(old_row));
            }
            row.push(c);
            col = col + 1;
        }
        assert(done.deep_view().push(row@) =~= rows_of(next, w));
        idx = idx + bytes_of_char(c);
    }
    assert(v@.take(v@.len() as int) =~= text@);
    if !found {
        crow = done.len();
        ccol = col;
        proof {
            assert(rows_of(text@, w).last() == row@);
            if cursor::on_boundary(text@, cursor as int) {
                cursor::lemma_boundary_cuts(text@, cursor as int);
                let a = cursor::before(text@, cursor as int);
                assert(a =~= v@.take(a.len() as int));
                assert(a =~= text@);
            }
        }
    }
    let ghost old_done = done.deep_view();
    let ghost old_row = row@;
    done.push(row);
    assert(done.deep_view() =~= old_done.push(old_row));
    (done, crow, ccol)
}

} // verus!
