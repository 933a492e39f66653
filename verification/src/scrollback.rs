//! The entries of the scrollback, and how they are wrapped into styled lines.
use vstd::prelude::*;
use vstd::string::StringExecFns;

use crate::cursor;
use crate::cursor::bytes_in;
use crate::text;
use crate::text::{blanks, chars_of, split_newlines};

verus! {

/// Who or what an entry comes from.
#[derive(Clone, Copy, Debug, PartialEq, Eq, Structural)]
pub enum Kind {
    User,
    Agent,
    System,
    Source,
    Error,
}

/// One entry of the scrollback.
#[derive(Debug)]
pub struct Entry {
    pub kind: Kind,
    pub text: String,
}

pub struct EntryModel {
    pub kind: Kind,
    pub text: Seq<char>,
}

impl View for Entry {
    type V = EntryModel;

    open spec fn view(&self) -> EntryModel {
        EntryModel { kind: self.kind, text: self.text@ }
    }
}

impl DeepView for Entry {
    type V = EntryModel;

    open spec fn deep_view(&self) -> EntryModel {
        self@
    }
}

/// The colours that entries are shown in.
#[derive(Clone, Copy, Debug, PartialEq, Eq, Structural)]
pub enum Color {
    Default,
    Cyan,
    DarkGray,
    Blue,
    Red,
}

/// How an entry is shown.
#[derive(Clone, Copy, Debug, PartialEq, Eq, Structural)]
pub struct Style {
    pub color: Color,
    pub bold: bool,
}

/// The marker in front of an entry's first line.
pub open spec fn gutter_of(kind: Kind) -> Seq<char> {
    match kind {
        Kind::User => "› "@,
        Kind::Agent => ""@,
        Kind::System => "· "@,
        Kind::Source => "  "@,
        Kind::Error => "! "@,
    }
}

/// How an entry is shown.
pub open spec fn style_of(kind: Kind) -> Style {
    match kind {
        Kind::User => Style { color: Color::Cyan, bold: true },
        Kind::Agent => Style { color: Color::Default, bold: false },
        Kind::System => Style { color: Color::DarkGray, bold: false },
        Kind::Source => Style { color: Color::Blue, bold: false },
        Kind::Error => Style { color: Color::Red, bold: false },
    }
}

/// The marker in front of an entry's first line, and how the entry is shown.
pub fn kind_style(kind: Kind) -> (r: (&'static str, Style))
    ensures
        r.0@ == gutter_of(kind),
        r.1 == style_of(kind),
{
    match kind {
        Kind::User => ("› ", Style { color: Color::Cyan, bold: true }),
        Kind::Agent => ("", Style { color: Color::Default, bold: false }),
        Kind::System => ("· ", Style { color: Color::DarkGray, bold: false }),
        Kind::Source => ("  ", Style { color: Color::Blue, bold: false }),
        Kind::Error => ("! ", Style { color: Color::Red, bold: false }),
    }
}

/// A line of the scrollback: empty, or a gutter and a piece of text in one style.
#[derive(Debug)]
pub enum Line {
    Blank,
    Text { gutter: String, piece: String, style: Style },
}

pub enum LineModel {
    Blank,
    Text { gutter: Seq<char>, piece: Seq<char>, style: Style },
}

impl View for Line {
    type V = LineModel;

    open spec fn view(&self) -> LineModel {
        match self {
            Line::Blank => LineModel::Blank,
            Line::Text { gutter, piece, style } => LineModel::Text {
                gutter: gutter@,
                piece: piece@,
                style: *style,
            },
        }
    }
}

impl DeepView for Line {
    type V = LineModel;

    open spec fn deep_view(&self) -> LineModel {
        self@
    }
}

impl Line {
    /// The same line once more.
    pub fn copy(&self) -> (r: Line)
        ensures
            r@ == self@,
    {
        match self {
            Line::Blank => Line::Blank,
            Line::Text { gutter, piece, style } => Line::Text {
                gutter: gutter.clone(),
                piece: piece.clone(),
                style: *style,
            },
        }
    }
}

// ---------- word wrapping ----------

/// The lines that word wrapping makes of `text`, `width` columns to a line.
pub uninterp spec fn wrapped(text: Seq<char>, width: usize) -> Seq<Seq<char>>;

/// `text` without the spaces at its end.
pub open spec fn without_trailing_spaces(text: Seq<char>) -> Seq<char>
    decreases text.len(),
{
    if text.len() > 0 && text.last() == ' ' {
        without_trailing_spaces(text.drop_last())
    } else {
        text
    }
}

/// True for a text that is not empty, has no newline, and takes up fewer bytes than
/// the width.
pub open spec fn fits_a_line(text: Seq<char>, width: usize) -> bool {
    text.len() > 0 && !text.contains('\n') && cursor::byte_len(text) < width
}

/// `textwrap::wrap` with a width and no other option. The result is named, and
/// depends on the text and the width alone. There is at least one line. A text
/// without a newline that takes up fewer bytes than the width is one line, less
/// the spaces at its end.
#[verifier::external_body]
fn wrap(text: &str, width: usize) -> (r: Vec<String>)
    ensures
        r.deep_view() == wrapped(text@, width),
        r@.len() > 0,
        !text@.contains('\n') && cursor::byte_len(text@) < width ==> r.deep_view() == seq![
            without_trailing_spaces(text@),
        ],
{
    textwrap::wrap(text, width).into_iter().map(|line| line.to_string()).collect()
}

/// How many columns an entry's text is wrapped to: those of the screen, which count
/// as eight at least, less the bytes of the gutter, and four at least.
pub open spec fn inner_width(kind: Kind, width: u16) -> usize {
    let total: int = if width < 8 { 8 } else { width as int };
    let rest = total - cursor::byte_len(gutter_of(kind));
    if rest < 4 {
        4
    } else {
        rest as usize
    }
}

/// The lines that the wrapped `pieces` of a paragraph make. The first line of an
/// entry (`first`) has the marker in its gutter, and all others matching
/// indentation.
pub open spec fn piece_lines(kind: Kind, pieces: Seq<Seq<char>>, first: bool) -> Seq<LineModel> {
    Seq::new(
        pieces.len(),
        |i: int|
            LineModel::Text {
                gutter: if first && i == 0 {
                    gutter_of(kind)
                } else {
                    text::spaces(gutter_of(kind).len())
                },
                piece: pieces[i],
                style: style_of(kind),
            },
    )
}

/// True when nothing has been written yet: all paragraphs so far are empty.
pub open spec fn all_empty(paragraphs: Seq<Seq<char>>) -> bool {
    forall|i: int| 0 <= i < paragraphs.len() ==> (#[trigger] paragraphs[i]).len() == 0
}

/// The lines that the paragraphs of an entry make.
pub open spec fn body_lines(kind: Kind, paragraphs: Seq<Seq<char>>, width: u16) -> Seq<LineModel>
    decreases paragraphs.len(),
{
    if paragraphs.len() == 0 {
        seq![]
    } else {
        let above = body_lines(kind, paragraphs.drop_last(), width);
        let last = paragraphs.last();
        if last.len() == 0 {
            above.push(LineModel::Blank)
        } else {
            above + piece_lines(
                kind,
                wrapped(last, inner_width(kind, width)),
                all_empty(paragraphs.drop_last()),
            )
        }
    }
}

/// The lines that an entry makes, `width` columns wide, with an empty line below.
pub open spec fn entry_lines(entry: EntryModel, width: u16) -> Seq<LineModel> {
    body_lines(entry.kind, text::paragraphs(entry.text), width).push(LineModel::Blank)
}

/// The lines that a paragraph's pieces make.
pub fn gutter_lines(kind: Kind, pieces: &Vec<String>, first: bool) -> (r: Vec<Line>)
    ensures
        r.deep_view() == piece_lines(kind, pieces.deep_view(), first),
{
    let (prefix, style) = kind_style(kind);
    let pad = blanks(chars_of(prefix).len());
    let mut r: Vec<Line> = Vec::new();
    let ghost want = piece_lines(kind, pieces.deep_view(), first);
    assert(r.deep_view() =~= want.take(0));
    for i in 0..pieces.len()
        invariant
            prefix@ == gutter_of(kind),
            style == style_of(kind),
            pad@ == text::spaces(gutter_of(kind).len()),
            want == piece_lines(kind, pieces.deep_view(), first),
            r.deep_view() == want.take(i as int),
    {
        let ghost old_r = r.deep_view();
        let gutter = if first && i == 0 { String::from_str(prefix) } else { pad.clone() };
        let line = Line::Text { gutter, piece: pieces[i].clone(), style };
        r.push(line);
        assert(r.deep_view() =~= old_r.push(line@));
        assert(want[i as int] == line@);
        assert(r.deep_view() =~= want.take(i + 1));
    }
    assert(want.take(pieces@.len() as int) =~= want);
    r
}

/// Word-wrap one entry into styled lines, with a gutter marker on the first
/// line and matching indentation on continuations.
pub fn wrap_entry(entry: &Entry, width: u16) -> (r: Vec<Line>)
    ensures
        r.deep_view() == entry_lines(entry@, width),
        r@.len() >= 2,
        forall|j: int|
            0 <= j < text::paragraphs(entry.text@).len() && fits_a_line(
                #[trigger] text::paragraphs(entry.text@)[j],
                inner_width(entry.kind, width),
            ) ==> wrapped(text::paragraphs(entry.text@)[j], inner_width(entry.kind, width))
                == seq![without_trailing_spaces(text::paragraphs(entry.text@)[j])],
        fits_a_line(entry.text@, inner_width(entry.kind, width)) ==> r.deep_view() == piece_lines(
            entry.kind,
            seq![without_trailing_spaces(entry.text@)],
            true,
        ).push(LineModel::Blank),
{
    let (prefix, _) = kind_style(entry.kind);
    let total: usize = if width < 8 { 8 } else { width as usize };
    let taken = bytes_in(prefix);
    let inner: usize = if total < taken || total - taken < 4 { 4 } else { total - taken };
    assert(inner == inner_width(entry.kind, width));

    let mut out: Vec<Line> = Vec::new();
    let mut first = true;
    let paragraphs = split_newlines(entry.text.as_str());
    let ghost all = paragraphs.deep_view();
    proof {
        lemma_some_paragraph(entry.text@);
        assert(out.deep_view() =~= body_lines(entry.kind, all.take(0), width));
    }
    for i in 0..paragraphs.len()
        invariant
            all == paragraphs.deep_view(),
            inner == inner_width(entry.kind, width),
            first == all_empty(all.take(i as int)),
            out.deep_view() == body_lines(entry.kind, all.take(i as int), width),
            out@.len() >= i,
            forall|j: int|
                0 <= j < i && fits_a_line(#[trigger] all[j], inner) ==> wrapped(all[j], inner)
                    == seq![without_trailing_spaces(all[j])],
    {
        let ghost seen = all.take(i + 1);
        let ghost above = out.deep_view();
        let raw = paragraphs[i].as_str();
        proof {
            assert(seen.drop_last() =~= all.take(i as int));
            assert(seen.last() == raw@);
            assert(all.take(i as int) =~= seen.take(i as int));
            assert(all_empty(seen) <==> all_empty(seen.drop_last()) && raw@.len() == 0) by {
                if all_empty(seen.drop_last()) && raw@.len() == 0 {
                    assert forall|j: int| 0 <= j < seen.len() implies (#[trigger] seen[j]).len()
                        == 0 by {
                        if j < i {
                            assert(seen[j] == seen.drop_last()[j]);
                        }
                    }
                }
                if all_empty(seen) {
                    assert forall|j: int| 0 <= j < i implies (#[trigger] seen.drop_last()[j]).len()
                        == 0 by {
                        assert(seen[j] == seen.drop_last()[j]);
                    }
                    assert(seen[i as int].len() == 0);
                }
            }
        }
        if raw.is_empty() {
            out.push(Line::Blank);
            assert(out.deep_view() =~= above.push(LineModel::Blank));
        } else {
            let pieces = wrap(raw, inner);
            let mut more = gutter_lines(entry.kind, &pieces, first);
            first = false;
            let ghost added = more.deep_view();
            out.append(&mut more);
            assert(out.deep_view() =~= above + added);
        }
    }
    assert(all.take(paragraphs@.len() as int) =~= all);
    proof {
        if fits_a_line(entry.text@, inner) {
            lemma_one_paragraph(entry.text@);
            assert(fits_a_line(all[0], inner));
            assert(all.drop_last() =~= seq![]);
            assert(all_empty(all.drop_last()));
            assert(body_lines(entry.kind, all.drop_last(), width) =~= seq![]);
            assert(body_lines(entry.kind, all, width) =~= piece_lines(
                entry.kind,
                seq![without_trailing_spaces(entry.text@)],
                true,
            ));
        }
    }
    let ghost above = out.deep_view();
    out.push(Line::Blank);
    assert(out.deep_view() =~= above.push(LineModel::Blank));
    out
}

proof fn lemma_one_paragraph(s: Seq<char>)
    requires
        !s.contains('\n'),
    ensures
        text::paragraphs(s) == seq![s],
{
    assert forall|j: int| 0 <= j < s.len() implies #[trigger] s[j] != '\n' by {
        assert(s.contains(s[j]));
    }
    text::lemma_newline_at(s, s.len() as int);
}

proof fn lemma_some_paragraph(s: Seq<char>)
    ensures
        text::paragraphs(s).len() > 0,
{
}

/// The lines of all entries, one after the other.
pub open spec fn all_lines(entries: Seq<EntryModel>, width: u16) -> Seq<LineModel>
    decreases entries.len(),
{
    if entries.len() == 0 {
        seq![]
    } else {
        all_lines(entries.drop_last(), width) + entry_lines(entries.last(), width)
    }
}

/// Every gutter of an entry is as wide as its marker.
pub proof fn gutters_line_up(kind: Kind, pieces: Seq<Seq<char>>, first: bool, i: int)
    requires
        0 <= i < pieces.len(),
    ensures
        piece_lines(kind, pieces, first)[i]->gutter.len() == gutter_of(kind).len(),
{
}

// ---------- what holds of every wrapped entry ----------

/// The pieces of text on the lines, from top to bottom.
pub open spec fn pieces_on(lines: Seq<LineModel>) -> Seq<Seq<char>>
    decreases lines.len(),
{
    if lines.len() == 0 {
        seq![]
    } else {
        match lines.last() {
            LineModel::Text { piece, .. } => pieces_on(lines.drop_last()).push(piece),
            LineModel::Blank => pieces_on(lines.drop_last()),
        }
    }
}

proof fn pieces_on_add_up(a: Seq<LineModel>, b: Seq<LineModel>)
    ensures
        pieces_on(a + b) == pieces_on(a) + pieces_on(b),
    decreases b.len(),
{
    if b.len() == 0 {
        assert(a + b =~= a);
        assert(pieces_on(a) + pieces_on(b) =~= pieces_on(a));
    } else {
        assert((a + b).drop_last() =~= a + b.drop_last());
        pieces_on_add_up(a, b.drop_last());
        if let LineModel::Text { piece, .. } = b.last() {
            assert((pieces_on(a) + pieces_on(b.drop_last())).push(piece) =~= pieces_on(a) + (
            pieces_on(b.drop_last()).push(piece)));
        }
    }
}

proof fn pieces_on_text_lines(lines: Seq<LineModel>, pieces: Seq<Seq<char>>)
    requires
        lines.len() == pieces.len(),
        forall|i: int|
            0 <= i < lines.len() ==> ((#[trigger] lines[i]) matches LineModel::Text { piece, .. }
                && piece == pieces[i]),
    ensures
        pieces_on(lines) == pieces,
    decreases lines.len(),
{
    if lines.len() > 0 {
        pieces_on_text_lines(lines.drop_last(), pieces.drop_last());
        assert(lines[lines.len() - 1] is Text);
        assert(pieces_on(lines) =~= pieces);
    } else {
        assert(pieces =~= seq![]);
    }
}

/// A paragraph comes below those before it, and leaves these as they are. An empty one
/// is a blank line. Any other one is all the pieces that word wrapping makes of it, one to
/// a line, in order and in the style of the entry; its gutter is the marker on the first
/// line of the entry that has text, and blank on every other.
pub proof fn paragraphs_come_one_below_the_other(
    kind: Kind,
    above: Seq<Seq<char>>,
    p: Seq<char>,
    width: u16,
)
    ensures
        ({
            let before = body_lines(kind, above, width);
            let lines = body_lines(kind, above.push(p), width);
            let pieces = wrapped(p, inner_width(kind, width));
            let n = before.len() as int;
            &&& lines.take(n) == before
            &&& p.len() == 0 ==> lines.len() == n + 1 && lines[n] is Blank
            &&& p.len() > 0 ==> lines.len() == n + pieces.len() && forall|i: int|
                0 <= i < pieces.len() ==> (#[trigger] lines[n + i] matches LineModel::Text {
                    gutter,
                    piece,
                    style,
                } && {
                    &&& piece == pieces[i]
                    &&& style == style_of(kind)
                    &&& i == 0 && all_empty(above) ==> gutter == gutter_of(kind)
                    &&& !(i == 0 && all_empty(above)) ==> gutter.len() == gutter_of(kind).len()
                        && forall|k: int| 0 <= k < gutter.len() ==> #[trigger] gutter[k] == ' '
                })
        }),
        body_lines(kind, seq![], width).len() == 0,
{
    let all = above.push(p);
    assert(all.drop_last() =~= above);
    let before = body_lines(kind, above, width);
    let lines = body_lines(kind, all, width);
    let n = before.len() as int;
    assert(lines.take(n) =~= before);
    if p.len() > 0 {
        let pieces = wrapped(p, inner_width(kind, width));
        let more = piece_lines(kind, pieces, all_empty(above));
        assert forall|i: int| 0 <= i < pieces.len() implies (#[trigger] lines[n + i])
            == more[i] by {}
    }
}

proof fn bodies_show_every_piece(kind: Kind, paragraphs: Seq<Seq<char>>, width: u16)
    ensures
        pieces_on(body_lines(kind, paragraphs, width)) == paragraphs.filter(
            |p: Seq<char>| p.len() > 0,
        ).map_values(|p: Seq<char>| wrapped(p, inner_width(kind, width))).flatten(),
        body_lines(kind, paragraphs, width).len() == pieces_on(
            body_lines(kind, paragraphs, width),
        ).len() + paragraphs.filter(|p: Seq<char>| p.len() == 0).len(),
    decreases paragraphs.len(),
{
    let full = |p: Seq<char>| p.len() > 0;
    let empty = |p: Seq<char>| p.len() == 0;
    let wrap = |p: Seq<char>| wrapped(p, inner_width(kind, width));
    reveal(Seq::filter);
    if paragraphs.len() == 0 {
        assert(paragraphs.filter(full).map_values(wrap) =~= Seq::<Seq<Seq<char>>>::empty());
        assert(paragraphs.filter(full).map_values(wrap).flatten() =~= seq![]);
    } else {
        let rest = paragraphs.drop_last();
        let last = paragraphs.last();
        bodies_show_every_piece(kind, rest, width);
        let before = body_lines(kind, rest, width);
        let lines = body_lines(kind, paragraphs, width);
        if last.len() == 0 {
            assert(lines.drop_last() =~= before);
        } else {
            let more = piece_lines(kind, wrap(last), all_empty(rest));
            pieces_on_add_up(before, more);
            pieces_on_text_lines(more, wrap(last));
            assert(paragraphs.filter(full).map_values(wrap) =~= rest.filter(full).map_values(
                wrap,
            ).push(wrap(last)));
            rest.filter(full).map_values(wrap).lemma_flatten_push(wrap(last));
        }
    }
}

/// An entry is shown whole: the pieces on its lines are, in order, all the pieces that
/// word wrapping makes of each paragraph that is not empty, and besides there is a blank
/// line for each empty paragraph and one at the end.
pub proof fn every_piece_of_an_entry_is_shown(entry: EntryModel, width: u16)
    ensures
        ({
            let lines = entry_lines(entry, width);
            let paragraphs = text::paragraphs(entry.text);
            &&& pieces_on(lines) == paragraphs.filter(|p: Seq<char>| p.len() > 0).map_values(
                |p: Seq<char>| wrapped(p, inner_width(entry.kind, width)),
            ).flatten()
            &&& lines.len() == pieces_on(lines).len() + paragraphs.filter(
                |p: Seq<char>| p.len() == 0,
            ).len() + 1
            &&& lines.last() is Blank
            &&& lines.drop_last() == body_lines(entry.kind, paragraphs, width)
        }),
{
    let paragraphs = text::paragraphs(entry.text);
    bodies_show_every_piece(entry.kind, paragraphs, width);
    let lines = entry_lines(entry, width);
    assert(lines.drop_last() =~= body_lines(entry.kind, paragraphs, width));
}

/// Text is wrapped to the columns that the gutter leaves, of eight at least, and to four
/// at least.
pub proof fn text_is_wrapped_beside_the_gutter(kind: Kind, width: u16)
    ensures
        inner_width(kind, width) >= 4,
        inner_width(kind, width) > 4 ==> inner_width(kind, width) + cursor::byte_len(
            gutter_of(kind),
        ) == (if width < 8 { 8 } else { width as int }),
        inner_width(kind, width) == 4 ==> (if width < 8 { 8 } else { width as int })
            <= cursor::byte_len(gutter_of(kind)) + 4,
{
}

/// The scrollback is its entries one below the other: what comes later changes nothing of
/// what is above.
pub proof fn entries_come_one_below_the_other(
    a: Seq<EntryModel>,
    b: Seq<EntryModel>,
    entry: EntryModel,
    width: u16,
)
    ensures
        all_lines(a + b, width) == all_lines(a, width) + all_lines(b, width),
        all_lines(seq![entry], width) == entry_lines(entry, width),
        all_lines(seq![], width).len() == 0,
    decreases b.len(),
{
    let one = seq![entry];
    assert(one.drop_last() =~= seq![]);
    assert(all_lines(one.drop_last(), width).len() == 0);
    assert(all_lines(one, width) =~= entry_lines(entry, width));
    if b.len() == 0 {
        assert(a + b =~= a);
        assert(all_lines(a, width) + all_lines(b, width) =~= all_lines(a, width));
    } else {
        assert((a + b).drop_last() =~= a + b.drop_last());
        entries_come_one_below_the_other(a, b.drop_last(), entry, width);
        assert(all_lines(a, width) + all_lines(b.drop_last(), width) + entry_lines(b.last(), width)
            =~= all_lines(a, width) + (all_lines(b.drop_last(), width) + entry_lines(
            b.last(),
            width,
        )));
    }
}

/// Every kind is told apart by its marker or by its style.
pub proof fn kinds_look_different(a: Kind, b: Kind)
    requires
        style_of(a) == style_of(b),
    ensures
        a == b,
{
}

} // verus!
