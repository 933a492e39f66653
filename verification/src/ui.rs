//! The screen: where everything is drawn, and what is drawn there.
use vstd::prelude::*;
use vstd::string::StringExecFns;

use crate::app::App;
use crate::cursor;
use crate::hint::{Cmd, CmdModel, Hint, HintModel};
use crate::layout;
use crate::layout::layout_input;
use crate::model::Model;
use crate::scrollback;
use crate::scrollback::{wrap_entry, Color, Line, LineModel};
use crate::text;
use crate::text::{chars_of, pad_right};

verus! {

// ---------- areas ----------

/// An area of the screen, in cells.
#[derive(Clone, Copy, Debug, PartialEq, Eq, Structural)]
pub struct Rect {
    pub x: u16,
    pub y: u16,
    pub width: u16,
    pub height: u16,
}

/// The direction in which an area is divided.
#[derive(Clone, Copy, Debug, PartialEq, Eq, Structural)]
pub enum Direction {
    Horizontal,
    Vertical,
}

impl Rect {
    /// Where the area begins, along `d`.
    pub open spec fn start(self, d: Direction) -> int {
        match d {
            Direction::Horizontal => self.x as int,
            Direction::Vertical => self.y as int,
        }
    }

    /// How long the area is, along `d`.
    pub open spec fn len(self, d: Direction) -> int {
        match d {
            Direction::Horizontal => self.width as int,
            Direction::Vertical => self.height as int,
        }
    }

    /// Where the area ends, along `d`: the first coordinate outside, `u16::MAX` at most.
    pub open spec fn end(self, d: Direction) -> int {
        let end = self.start(d) + self.len(d);
        if end > u16::MAX { u16::MAX as int } else { end }
    }

    /// The extent of the area at right angles to `d`.
    pub open spec fn across(self, d: Direction) -> (u16, u16) {
        match d {
            Direction::Horizontal => (self.y, self.height),
            Direction::Vertical => (self.x, self.width),
        }
    }
}

/// The sum of `lengths`.
pub open spec fn total(lengths: Seq<u16>) -> int
    decreases lengths.len(),
{
    if lengths.len() == 0 {
        0
    } else {
        total(lengths.drop_last()) + lengths.last()
    }
}

/// True when `parts` divide `area` along `d`, into a first part that takes what the
/// others leave, though no less than `min`, and one part for each of `lengths`. The
/// parts follow each other without a gap, and none leaves the area. Where there is
/// room for `min` the first part has it, and where there is room for all, every
/// part has its length. Where there is not, the first part has `min` and no more, as
/// far as there is room, and the others fill the rest, none of them longer than its
/// length.
pub open spec fn divides(
    parts: Seq<Rect>,
    area: Rect,
    d: Direction,
    min: u16,
    lengths: Seq<u16>,
) -> bool {
    let size = area.end(d) - area.start(d);
    &&& parts.len() == lengths.len() + 1
    &&& parts[0].start(d) == area.start(d)
    &&& forall|i: int| 0 <= i < parts.len() ==> (#[trigger] parts[i]).across(d) == area.across(d)
    &&& forall|i: int|
        0 <= i < parts.len() ==> (#[trigger] parts[i]).start(d) + parts[i].len(d) <= area.end(d)
    &&& forall|i: int, j: int|
        0 <= i < parts.len() && j == i + 1 && j < parts.len() ==> (#[trigger] parts[j]).start(d)
            == (#[trigger] parts[i]).start(d) + parts[i].len(d)
    &&& min <= size ==> parts[0].len(d) >= min
    &&& min + total(lengths) <= size ==> {
        &&& parts[0].len(d) == size - total(lengths)
        &&& forall|i: int|
            1 <= i < parts.len() ==> (#[trigger] parts[i]).len(d) == lengths[i - 1]
    }
    &&& min + total(lengths) >= size ==> {
        &&& parts[0].len(d) == (if min < size { min as int } else { size })
        &&& parts[parts.len() - 1].start(d) + parts[parts.len() - 1].len(d) == area.end(d)
        &&& forall|i: int|
            1 <= i < parts.len() ==> (#[trigger] parts[i]).len(d) <= lengths[i - 1]
    }
}

/// `ratatui::layout::Layout::split`, for one `Constraint::Min` and any number of
/// `Constraint::Length` behind it. `divides` says what holds of the parts. A
/// minimum comes before the lengths, and both before filling the area up. In an area
/// that is too small for all lengths, how these share what the minimum leaves is left
/// to the solver, and is not claimed to be the same each time.
#[verifier::external_body]
fn split(area: Rect, d: Direction, min: u16, lengths: &Vec<u16>) -> (r: Vec<Rect>)
    requires
        min <= i16::MAX,
    ensures
        divides(r@, area, d, min, lengths@),
{
    let d = match d {
        Direction::Horizontal => ratatui::layout::Direction::Horizontal,
        Direction::Vertical => ratatui::layout::Direction::Vertical,
    };
    let rest = lengths.iter().map(|n| ratatui::layout::Constraint::Length(*n));
    let first = std::iter::once(ratatui::layout::Constraint::Min(min));
    let area = ratatui::layout::Rect { x: area.x, y: area.y, width: area.width, height: area.height };
    let parts = ratatui::layout::Layout::default().direction(d).constraints(first.chain(rest)).split(area);
    parts.iter().map(|p| Rect { x: p.x, y: p.y, width: p.width, height: p.height }).collect()
}

// ---------- the scrollback ----------

impl Model {
    /// Every entry but the last is wrapped, to `width` columns.
    pub open spec fn wrapped_to(self, width: u16) -> Model {
        let upto: nat = if self.entries.len() == 0 { 0 } else { (self.entries.len() - 1) as nat };
        Model {
            wrap_width: width,
            stable: scrollback::all_lines(self.entries.take(upto as int), width),
            stable_upto: upto,
            ..self
        }
    }

    /// The place of the first line in view when the last one is.
    pub open spec fn bottom(self, width: u16, height: u16) -> nat {
        let n = scrollback::all_lines(self.entries, width).len();
        if n < height { 0 } else { (n - height) as nat }
    }

    /// A scrollback that is pinned, or was scrolled to its end, shows its end.
    pub open spec fn scrolled(self, width: u16, height: u16) -> Model {
        let bottom = self.bottom(width, height);
        if self.pinned || self.scroll >= bottom {
            Model { scroll: bottom, pinned: true, ..self.wrapped_to(width) }
        } else {
            self.wrapped_to(width)
        }
    }

    /// The lines that are in view, once the scrollback is scrolled.
    pub open spec fn in_view(self, width: u16, height: u16) -> Seq<LineModel> {
        let all = scrollback::all_lines(self.entries, width);
        let start = self.scrolled(width, height).scroll;
        let end = if start + height < all.len() { start + height } else { all.len() as int };
        all.subrange(start as int, end)
    }
}

/// Wrap everything except the final entry once, and re-wrap only the final
/// entry each frame. That keeps a streaming answer cheap no matter how long
/// the session's scrollback gets. The lines of the final entry are returned.
pub fn ensure_wrapped(app: &mut App, width: u16) -> (tail: Vec<Line>)
    requires
        old(app).wf(),
    ensures
        final(app).wf(),
        final(app)@ == old(app)@.wrapped_to(width),
        final(app)@.stable + tail.deep_view() == scrollback::all_lines(old(app)@.entries, width),
{
    let ghost m = app@;
    let ghost entries = m.entries;
    if app.wrap_width != width {
        app.wrap_width = width;
        app.stable.clear();
        app.stable_upto = 0;
        assert(app.stable.deep_view() =~= seq![]);
        assert(entries.take(0) =~= seq![]);
    }
    while app.entries.len() > 0 && app.stable_upto < app.entries.len() - 1
        invariant
            entries == m.entries,
            app.entries.deep_view() == entries,
            app.stable_upto == 0 || app.stable_upto < entries.len(),
            app@ == (Model {
                wrap_width: width,
                stable: scrollback::all_lines(entries.take(app.stable_upto as int), width),
                stable_upto: app.stable_upto as nat,
                ..m
            }),
            cursor::on_boundary(app.input@, app.cursor as int),
        decreases entries.len() - app.stable_upto,
    {
        let i = app.stable_upto;
        let ghost above = app.stable.deep_view();
        let mut more = wrap_entry(&app.entries[i], width);
        let ghost added = more.deep_view();
        proof {
            assert(entries[i as int] == app.entries@[i as int]@);
            assert(entries.take(i + 1).drop_last() =~= entries.take(i as int));
        }
        app.stable.append(&mut more);
        assert(app.stable.deep_view() =~= above + added);
        app.stable_upto = i + 1;
    }
    if app.entries.len() > 0 {
        let last = app.entries.len() - 1;
        let tail = wrap_entry(&app.entries[last], width);
        proof {
            assert(entries[last as int] == app.entries@[last as int]@);
            assert(entries.drop_last() =~= entries.take(last as int));
        }
        tail
    } else {
        let tail: Vec<Line> = Vec::new();
        assert(tail.deep_view() =~= seq![]);
        tail
    }
}

/// The lines of the scrollback that are in view, in an area `width` columns wide
/// and `height` rows high.
pub fn draw_scrollback(app: &mut App, width: u16, height: u16) -> (r: Vec<Line>)
    requires
        old(app).wf(),
    ensures
        final(app).wf(),
        final(app)@ == old(app)@.scrolled(width, height),
        r.deep_view() == old(app)@.in_view(width, height),
{
    let ghost m = app@;
    let mut tail = ensure_wrapped(app, width);
    let ghost kept = app.stable.deep_view();
    let ghost all = scrollback::all_lines(m.entries, width);
    let stable = app.stable.len();
    let ghost added = tail.deep_view();
    app.stable.append(&mut tail);
    assert(app.stable.deep_view() =~= kept + added);
    let total = app.stable.len();
    let h = height as usize;
    let max_off = total.saturating_sub(h);

    if app.pinned || app.scroll >= max_off {
        app.scroll = max_off;
        app.pinned = true;
    }
    let start = app.scroll;
    let end: usize = if h < total - start { start + h } else { total };
    let mut visible: Vec<Line> = Vec::new();
    assert(visible.deep_view() =~= all.subrange(start as int, start as int));
    for i in start..end
        invariant
            start <= end <= all.len(),
            app.stable.deep_view() == all,
            visible.deep_view() == all.subrange(start as int, i as int),
    {
        let ghost seen = visible.deep_view();
        let line = app.stable[i].copy();
        visible.push(line);
        assert(visible.deep_view() =~= seen.push(line@));
        assert(all[i as int] == app.stable@[i as int]@);
        assert(visible.deep_view() =~= all.subrange(start as int, i + 1));
    }
    app.stable.truncate(stable);
    assert(app.stable.deep_view() =~= kept);
    visible
}

// ---------- the input box ----------

/// The input box grows with its content, up to this many rows.
pub const INPUT_ROWS: usize = 8;

/// The input box: its frame, the rows of the input buffer that are in view, and
/// where the cursor is shown, if it is.
#[derive(Debug)]
pub struct InputBox {
    pub area: Rect,
    pub title: &'static str,
    pub border: Color,
    pub rows: Vec<String>,
    pub cursor: Option<(u16, u16)>,
}

pub struct InputModel {
    pub area: Rect,
    pub title: Seq<char>,
    pub border: Color,
    pub rows: Seq<Seq<char>>,
    pub cursor: Option<(u16, u16)>,
}

impl View for InputBox {
    type V = InputModel;

    open spec fn view(&self) -> InputModel {
        InputModel {
            area: self.area,
            title: self.title@,
            border: self.border,
            rows: self.rows.deep_view(),
            cursor: self.cursor,
        }
    }
}

/// How many characters fit in a row of the input box, on a screen `width` columns
/// wide.
pub open spec fn input_width(width: u16) -> nat {
    if width < 8 { 4 } else { (width - 4) as nat }
}

/// How many of `n` rows are above those that are in view.
pub open spec fn rows_above(n: nat) -> nat {
    if n > INPUT_ROWS { (n - INPUT_ROWS) as nat } else { 0 }
}

impl Model {
    /// The rows of the input buffer.
    pub open spec fn input_rows(self, width: u16) -> Seq<Seq<char>> {
        layout::rows_of(self.input(), input_width(width))
    }

    /// How high the input box is, with its frame.
    pub open spec fn input_height(self, width: u16) -> u16 {
        let n = self.input_rows(width).len();
        (n - rows_above(n) + 2) as u16
    }

    /// Where the cursor is shown in the input box at `area`, on a screen `width`
    /// columns wide: the column, and the row.
    pub open spec fn cursor_cell(self, area: Rect, width: u16) -> (int, int) {
        let (row, col) = layout::end_of(self.before, input_width(width));
        let above = rows_above(self.input_rows(width).len());
        let shown = if row < above { 0 } else { row - above };
        (area.x + 2 + col, area.y + 1 + shown)
    }

    /// True when the cursor's cell has coordinates, and so has the lower edge of
    /// the frame.
    pub open spec fn cursor_fits(self, area: Rect, width: u16) -> bool {
        let (x, y) = self.cursor_cell(area, width);
        x <= u16::MAX && y <= u16::MAX && 1 <= area.y + area.height <= u16::MAX
    }

    /// The input box at `area`. The cursor is shown as long as it is above the
    /// lower edge.
    pub open spec fn input_box(self, area: Rect, width: u16) -> InputModel {
        let rows = self.input_rows(width);
        let (x, y) = self.cursor_cell(area, width);
        InputModel {
            area,
            title: if self.busy is Some { " working "@ } else { " task "@ },
            border: if self.busy is Some { Color::DarkGray } else { Color::Cyan },
            rows: rows.skip(rows_above(rows.len()) as int),
            cursor: if y < area.y + area.height - 1 { Some((x as u16, y as u16)) } else { None },
        }
    }
}

/// Lays the input buffer out for a screen `width` columns wide: its rows, and the
/// row and the column of the cursor.
fn input_layout(app: &App, width: u16) -> (r: (Vec<String>, usize, usize))
    requires
        app.wf(),
    ensures
        r.0.deep_view() == app@.input_rows(width),
        r.0@.len() > 0,
        (r.1 as int, r.2 as int) == layout::end_of(app@.before, input_width(width)),
        r.1 < r.0@.len(),
        r.2 <= input_width(width),
{
    let inner_w: usize = if width < 8 { 4 } else { width as usize - 4 };
    proof {
        cursor::lemma_boundary_cuts(app.input@, app.cursor as int);
        let w = input_width(width);
        layout::rows_fit(app@.input(), w);
        layout::rows_fit(app@.before, w);
        layout::rows_only_grow(app@.before, app@.after, w);
    }
    layout_input(app.input.as_str(), app.cursor, inner_w)
}

/// How high the input box is, when the input buffer takes up `rows` rows.
fn input_box_height(rows: usize) -> (r: u16)
    requires
        rows > 0,
    ensures
        r == rows - rows_above(rows as nat) + 2,
{
    if rows > INPUT_ROWS {
        10
    } else {
        rows as u16 + 2
    }
}

/// The input box at `area`, on a screen `width` columns wide; `None` where the
/// cursor's coordinates, or those of the frame, would not fit a `u16`.
pub fn draw_input(app: &App, area: Rect, width: u16) -> (r: Option<InputBox>)
    requires
        app.wf(),
    ensures
        r is Some <==> app@.cursor_fits(area, width),
        r is Some ==> r->0@ == app@.input_box(area, width),
{
    let (all, crow, ccol) = input_layout(app, width);
    let skip = all.len().saturating_sub(INPUT_ROWS);
    let row = crow.saturating_sub(skip);
    let cx: u32 = area.x as u32 + 2 + ccol as u32;
    let cy: u32 = area.y as u32 + 1 + row as u32;
    let bottom: u32 = area.y as u32 + area.height as u32;
    if cx > 65535 || cy > 65535 || bottom < 1 || bottom > 65535 {
        return None;
    }
    let mut rows: Vec<String> = Vec::new();
    let ghost want = all.deep_view().skip(skip as int);
    assert(rows.deep_view() =~= want.take(0));
    for i in skip..all.len()
        invariant
            skip <= all@.len(),
            want == all.deep_view().skip(skip as int),
            rows.deep_view() == want.take(i - skip),
    {
        let ghost seen = rows.deep_view();
        let line = all[i].clone();
        rows.push(line);
        assert(rows.deep_view() =~= seen.push(line@));
        assert(want[i - skip] == line@);
        assert(rows.deep_view() =~= want.take(i + 1 - skip));
    }
    assert(want.take(all@.len() - skip) =~= want);
    let busy = app.busy.is_some();
    Some(
        InputBox {
            area,
            title: if busy { " working " } else { " task " },
            border: if busy { Color::DarkGray } else { Color::Cyan },
            rows,
            cursor: if cy < bottom - 1 { Some((cx as u16, cy as u16)) } else { None },
        },
    )
}

// ---------- the status line ----------

/// The status line: a hint on the left, and what is going on on the right.
#[derive(Debug)]
pub struct StatusLine {
    pub left_area: Rect,
    pub left: String,
    pub right_area: Rect,
    pub right: String,
}

pub struct StatusModel {
    pub left_area: Rect,
    pub left: Seq<char>,
    pub right_area: Rect,
    pub right: Seq<char>,
}

impl View for StatusLine {
    type V = StatusModel;

    open spec fn view(&self) -> StatusModel {
        StatusModel {
            left_area: self.left_area,
            left: self.left@,
            right_area: self.right_area,
            right: self.right@,
        }
    }
}

/// How many columns `n` characters on the right are given: one more than there are,
/// counted in sixteen bits, as far as there is room.
pub open spec fn right_width(n: nat, width: u16) -> u16 {
    let wanted = n % 65536 + 1;
    if wanted < width { wanted as u16 } else { width }
}

impl Model {
    /// True when the columns for the right side can be counted.
    pub open spec fn status_fits(self) -> bool {
        self.status().len() % 65536 < u16::MAX
    }

    /// The status line, in the two columns `cols`.
    pub open spec fn status_line(self, cols: Seq<Rect>, now: u128) -> StatusModel {
        StatusModel {
            left_area: cols[0],
            left: match self.hint(now) {
                HintModel::Tip(t) => t,
                _ => seq![],
            },
            right_area: cols[1],
            right: self.status(),
        }
    }
}

/// The status line at `area`; `None` where the columns for its right side cannot be
/// counted.
pub fn draw_status(app: &App, area: Rect, now: u128) -> (r: Option<StatusLine>)
    requires
        app.wf(),
    ensures
        r is Some <==> app@.status_fits(),
        r is Some ==> exists|cols: Seq<Rect>|
            #[trigger] divides(
                cols,
                area,
                Direction::Horizontal,
                0,
                seq![right_width(app@.status().len(), area.width)],
            ) && r->0@ == app@.status_line(cols, now),
{
    let right = app.status_right();
    let n = (chars_of(right.as_str()).len() % 65536) as u16;
    if n == u16::MAX {
        return None;
    }
    let rw: u16 = if n + 1 < area.width { n + 1 } else { area.width };
    let mut lengths: Vec<u16> = Vec::new();
    lengths.push(rw);
    let cols = split(area, Direction::Horizontal, 0, &lengths);
    assert(lengths@ =~= seq![right_width(app@.status().len(), area.width)]);
    let left = match app.hint(now) {
        Hint::Tip(t) => t,
        _ => String::new(),
    };
    let line = StatusLine { left_area: cols[0], left, right_area: cols[1], right };
    assert(line@ == app@.status_line(cols@, now));
    Some(line)
}

// ---------- the completion menu ----------

/// The menu offers this many commands at most.
pub const MENU_ROWS: usize = 6;

/// A row of the menu: three columns.
#[derive(Debug)]
pub struct MenuRow {
    pub name: String,
    pub args: String,
    pub help: String,
}

impl DeepView for MenuRow {
    type V = CmdModel;

    open spec fn deep_view(&self) -> CmdModel {
        CmdModel { name: self.name@, args: self.args@, help: self.help@ }
    }
}

/// The completion menu.
#[derive(Debug)]
pub struct MenuBox {
    pub area: Rect,
    pub rows: Vec<MenuRow>,
}

pub struct MenuModel {
    pub area: Rect,
    pub rows: Seq<CmdModel>,
}

impl DeepView for MenuBox {
    type V = MenuModel;

    open spec fn deep_view(&self) -> MenuModel {
        MenuModel { area: self.area, rows: self.rows.deep_view() }
    }
}

/// A command as a row of the menu.
pub open spec fn menu_row(c: CmdModel) -> CmdModel {
    CmdModel { name: text::padded(c.name, 10), args: text::padded(c.args, 12), help: c.help }
}

/// The menu of the commands `cmds`. It sits directly above the input box, and is left
/// out where there is no room for it.
pub open spec fn menu_of(cmds: Seq<CmdModel>, input: Rect) -> Option<MenuModel> {
    let n: int = if cmds.len() < MENU_ROWS { cmds.len() as int } else { MENU_ROWS as int };
    if n == 0 || input.y < n + 2 {
        None
    } else {
        Some(
            MenuModel {
                area: Rect {
                    x: input.x,
                    y: (input.y - (n + 2)) as u16,
                    width: if input.width < 60 { input.width } else { 60 },
                    height: (n + 2) as u16,
                },
                rows: Seq::new(n as nat, |i: int| menu_row(cmds[i])),
            },
        )
    }
}

/// The completion menu for `cmds`, directly above the input box.
pub fn draw_menu(cmds: &Vec<Cmd>, input: Rect) -> (r: Option<MenuBox>)
    ensures
        r.deep_view() == menu_of(cmds.deep_view(), input),
{
    let n: usize = if cmds.len() < MENU_ROWS { cmds.len() } else { MENU_ROWS };
    let height: u16 = n as u16 + 2;
    if n == 0 || input.y < height {
        return None;
    }
    let mut rows: Vec<MenuRow> = Vec::new();
    let ghost want = Seq::new(n as nat, |i: int| menu_row(cmds.deep_view()[i]));
    assert(rows.deep_view() =~= want.take(0));
    for i in 0..n
        invariant
            n <= cmds@.len(),
            want == Seq::new(n as nat, |i: int| menu_row(cmds.deep_view()[i])),
            rows.deep_view() == want.take(i as int),
    {
        let ghost seen = rows.deep_view();
        let c = cmds[i];
        assert(cmds.deep_view()[i as int] == c@);
        let row = MenuRow {
            name: pad_right(c.name, 10),
            args: pad_right(c.args, 12),
            help: String::from_str(c.help),
        };
        rows.push(row);
        assert(rows.deep_view() =~= seen.push(row.deep_view()));
        assert(rows.deep_view() =~= want.take(i + 1));
    }
    assert(want.take(n as int) =~= want);
    let area = Rect {
        x: input.x,
        y: input.y - height,
        width: if input.width < 60 { input.width } else { 60 },
        height,
    };
    Some(MenuBox { area, rows })
}

// ---------- the whole screen ----------

/// Everything that is drawn.
#[derive(Debug)]
pub struct Screen {
    pub scrollback_area: Rect,
    pub scrollback: Vec<Line>,
    pub input: InputBox,
    pub status: StatusLine,
    pub menu: Option<MenuBox>,
}

pub struct ScreenModel {
    pub scrollback_area: Rect,
    pub scrollback: Seq<LineModel>,
    pub input: InputModel,
    pub status: StatusModel,
    pub menu: Option<MenuModel>,
}

impl View for Screen {
    type V = ScreenModel;

    open spec fn view(&self) -> ScreenModel {
        ScreenModel {
            scrollback_area: self.scrollback_area,
            scrollback: self.scrollback.deep_view(),
            input: self.input@,
            status: self.status@,
            menu: self.menu.deep_view(),
        }
    }
}

impl Model {
    /// True when `chunks` are the scrollback, the input box and the status line of
    /// a screen, from top to bottom.
    pub open spec fn lays_out(self, chunks: Seq<Rect>, area: Rect) -> bool {
        divides(chunks, area, Direction::Vertical, 1, seq![self.input_height(area.width), 1])
    }

    /// True when `cols` are the two sides of the status line at `area`.
    pub open spec fn lays_out_status(self, cols: Seq<Rect>, area: Rect) -> bool {
        divides(
            cols,
            area,
            Direction::Horizontal,
            0,
            seq![right_width(self.status().len(), area.width)],
        )
    }

    /// True when everything in the chunks has coordinates.
    pub open spec fn can_be_drawn(self, chunks: Seq<Rect>, area: Rect) -> bool {
        self.cursor_fits(chunks[1], area.width) && self.status_fits()
    }

    /// The screen in the chunks `chunks`, with the status line in `cols`.
    pub open spec fn screen(
        self,
        chunks: Seq<Rect>,
        cols: Seq<Rect>,
        area: Rect,
        now: u128,
    ) -> ScreenModel {
        ScreenModel {
            scrollback_area: chunks[0],
            scrollback: self.in_view(chunks[0].width, chunks[0].height),
            input: self.input_box(chunks[1], area.width),
            status: self.status_line(cols, now),
            menu: match self.hint(now) {
                HintModel::Menu(cmds) => menu_of(cmds, chunks[1]),
                _ => None,
            },
        }
    }
}

/// Draws the session at the time `now`, on a screen that takes up `area`. The
/// scrollback is wrapped and scrolled on the way. Nothing is drawn, and nothing
/// changes, where something would have coordinates that do not fit a `u16`.
pub fn draw(app: &mut App, area: Rect, now: u128) -> (r: Option<Screen>)
    requires
        old(app).wf(),
    ensures
        final(app).wf(),
        exists|chunks: Seq<Rect>|
            {
                &&& #[trigger] old(app)@.lays_out(chunks, area)
                &&& r is Some <==> old(app)@.can_be_drawn(chunks, area)
                &&& r is None ==> final(app)@ == old(app)@
                &&& r is Some ==> final(app)@ == old(app)@.scrolled(
                    chunks[0].width,
                    chunks[0].height,
                )
                &&& r is Some ==> exists|cols: Seq<Rect>|
                    #[trigger] old(app)@.lays_out_status(cols, chunks[2]) && r->0@ == old(
                        app,
                    )@.screen(chunks, cols, area, now)
            },
{
    let ghost m = app@;
    let (rows, _, _) = input_layout(app, area.width);
    let mut lengths: Vec<u16> = Vec::new();
    lengths.push(input_box_height(rows.len()));
    lengths.push(1);
    assert(lengths@ =~= seq![m.input_height(area.width), 1]);
    let chunks = split(area, Direction::Vertical, 1, &lengths);
    assert(m.lays_out(chunks@, area));
    let input = match draw_input(app, chunks[1], area.width) {
        Some(input) => input,
        None => return None,
    };
    let status = match draw_status(app, chunks[2], now) {
        Some(status) => status,
        None => return None,
    };
    let menu = match app.hint(now) {
        Hint::Menu(cmds) => draw_menu(&cmds, chunks[1]),
        _ => None,
    };
    let scrollback = draw_scrollback(app, chunks[0].width, chunks[0].height);
    let ghost cols = choose|cols: Seq<Rect>|
        #[trigger] divides(
            cols,
            chunks@[2],
            Direction::Horizontal,
            0,
            seq![right_width(m.status().len(), chunks@[2].width)],
        ) && status@ == m.status_line(cols, now);
    assert(m.lays_out_status(cols, chunks@[2]));
    let screen = Screen { scrollback_area: chunks[0], scrollback, input, status, menu };
    assert(screen@ == m.screen(chunks@, cols, area, now));
    Some(screen)
}

// ---------- what holds of every screen ----------

/// As many lines are in view as there are, or as there is room for; and where the
/// scrollback is pinned the last line is among them.
pub proof fn the_view_is_full(m: Model, width: u16, height: u16)
    ensures
        ({
            let all = scrollback::all_lines(m.entries, width);
            let view = m.in_view(width, height);
            &&& m.scrolled(width, height).scroll <= m.bottom(width, height)
            &&& view.len() == (if all.len() < height { all.len() } else { height as nat })
            &&& m.scrolled(width, height).pinned && view.len() > 0 ==> view.last() == all.last()
        }),
{
}

/// Drawing once more changes nothing, and shows the same lines.
pub proof fn drawing_again_changes_nothing(m: Model, width: u16, height: u16)
    ensures
        m.scrolled(width, height).scrolled(width, height) == m.scrolled(width, height),
        m.scrolled(width, height).in_view(width, height) == m.in_view(width, height),
{
}

/// Wrapping keeps what holds of the session, and so does scrolling.
pub proof fn drawing_keeps_the_invariant(m: Model, width: u16, height: u16)
    requires
        m.inv(),
    ensures
        m.scrolled(width, height).inv(),
{
}

/// On a screen with room for everything the three parts have their heights and fill
/// the screen, and the cursor is shown.
pub proof fn roomy_screens(m: Model, chunks: Seq<Rect>, area: Rect)
    requires
        m.lays_out(chunks, area),
        area.y + area.height <= u16::MAX,
        m.input_height(area.width) + 2 <= area.height,
    ensures
        chunks.len() == 3,
        chunks[0] == (Rect {
            height: (area.height - m.input_height(area.width) - 1) as u16,
            ..area
        }),
        chunks[1].y == chunks[0].y + chunks[0].height,
        chunks[1].height == m.input_height(area.width),
        chunks[2].y == chunks[1].y + chunks[1].height,
        chunks[2].height == 1,
        chunks[2].y + chunks[2].height == area.y + area.height,
        m.input_box(chunks[1], area.width).cursor is Some,
{
    let lengths = seq![m.input_height(area.width), 1u16];
    let d = Direction::Vertical;
    let w = input_width(area.width);
    layout::rows_fit(m.input(), w);
    layout::rows_only_grow(m.before, m.after, w);
    layout::rows_fit(m.before, w);
    assert(total(lengths) == m.input_height(area.width) + 1) by {
        reveal_with_fuel(total, 3);
        assert(lengths.drop_last().drop_last() =~= seq![]);
    }
    assert(chunks[0].across(d) == area.across(d));
    assert(chunks[1].len(d) == lengths[0]);
    assert(chunks[2].len(d) == lengths[1]);
    assert(chunks[1].start(d) == chunks[0].start(d) + chunks[0].len(d));
    assert(chunks[2].start(d) == chunks[1].start(d) + chunks[1].len(d));
}

/// On a screen without room for everything the scrollback keeps one row, and the input
/// box and the status line fill all the others. The input box lacks no more than one
/// of these.
pub proof fn low_screens(m: Model, chunks: Seq<Rect>, area: Rect)
    requires
        m.lays_out(chunks, area),
        area.y + area.height <= u16::MAX,
        0 < area.height < m.input_height(area.width) + 2,
    ensures
        chunks.len() == 3,
        chunks[0] == (Rect { height: 1, ..area }),
        chunks[1].y == area.y + 1,
        chunks[1].height <= m.input_height(area.width),
        chunks[2].y == chunks[1].y + chunks[1].height,
        chunks[2].height <= 1,
        chunks[2].y + chunks[2].height == area.y + area.height,
        chunks[1].height + 2 >= area.height,
{
    let lengths = seq![m.input_height(area.width), 1u16];
    let d = Direction::Vertical;
    assert(total(lengths) == m.input_height(area.width) + 1) by {
        reveal_with_fuel(total, 3);
        assert(lengths.drop_last().drop_last() =~= seq![]);
    }
    assert(chunks[0].across(d) == area.across(d));
    assert(chunks[1].len(d) <= lengths[0]);
    assert(chunks[2].len(d) <= lengths[1]);
    assert(chunks[1].start(d) == chunks[0].start(d) + chunks[0].len(d));
    assert(chunks[2].start(d) == chunks[1].start(d) + chunks[1].len(d));
}

/// The two sides of a status line that is on the screen share it: the right side
/// has the columns that it wants, at the right edge.
pub proof fn the_status_line_is_shared(m: Model, cols: Seq<Rect>, area: Rect)
    requires
        m.lays_out_status(cols, area),
        area.x + area.width <= u16::MAX,
    ensures
        cols.len() == 2,
        cols[1].width == right_width(m.status().len(), area.width),
        cols[0].width + cols[1].width == area.width,
        cols[0].x == area.x,
        cols[1].x == area.x + cols[0].width,
{
    let lengths = seq![right_width(m.status().len(), area.width)];
    let d = Direction::Horizontal;
    assert(total(lengths) == lengths[0]) by {
        reveal_with_fuel(total, 2);
        assert(lengths.drop_last() =~= seq![]);
    }
    assert(cols[1].len(d) == lengths[0]);
    assert(cols[1].start(d) == cols[0].start(d) + cols[0].len(d));
}

/// The menu sits directly above the input box, on the screen, with a row for each
/// command that it offers.
pub proof fn the_menu_sits_on_the_input_box(cmds: Seq<CmdModel>, input: Rect)
    requires
        menu_of(cmds, input) is Some,
    ensures
        ({
            let menu = menu_of(cmds, input)->0;
            &&& menu.area.y + menu.area.height == input.y
            &&& menu.area.x == input.x
            &&& menu.area.width <= input.width
            &&& menu.area.height == menu.rows.len() + 2
            &&& 0 < menu.rows.len() <= MENU_ROWS
            &&& menu.rows.len() <= cmds.len()
        }),
{
}

/// What is in view is a window on the lines of the scrollback, as they are and in order.
/// One that is neither pinned nor scrolled to its end begins where it was scrolled to.
/// Drawing changes nothing but the cache, the place and whether it is pinned.
pub proof fn the_view_is_a_window(m: Model, width: u16, height: u16)
    ensures
        ({
            let all = scrollback::all_lines(m.entries, width);
            let n = m.scrolled(width, height);
            let view = m.in_view(width, height);
            &&& n.scroll + view.len() <= all.len()
            &&& forall|i: int| 0 <= i < view.len() ==> #[trigger] view[i] == all[n.scroll + i]
            &&& !m.pinned && m.scroll + height < all.len() ==> n.scroll == m.scroll && !n.pinned
            &&& m.pinned ==> n.pinned && (n.scroll == 0 || n.scroll + height == all.len())
            &&& n == Model {
                wrap_width: width,
                stable: n.stable,
                stable_upto: n.stable_upto,
                scroll: n.scroll,
                pinned: n.pinned,
                ..m
            }
        }),
{
}

/// The input box shows the last rows of the input as they are, eight or as many as there
/// are. It is titled and framed by whether a request is in flight.
pub proof fn the_input_box_shows_the_last_rows(m: Model, area: Rect, width: u16)
    ensures
        ({
            let rows = layout::rows_of(m.before + m.after, input_width(width));
            let shown = m.input_box(area, width).rows;
            &&& shown.len() == (if rows.len() < 8 { rows.len() } else { 8 })
            &&& forall|i: int|
                0 <= i < shown.len() ==> #[trigger] shown[i] == rows[rows.len() - shown.len() + i]
            &&& m.input_height(width) == shown.len() + 2
            &&& m.input_box(area, width).area == area
            &&& m.input_box(area, width).title == (if m.busy is Some {
                " working "@
            } else {
                " task "@
            })
            &&& m.input_box(area, width).border == (if m.busy is Some {
                Color::DarkGray
            } else {
                Color::Cyan
            })
        }),
{
    layout::rows_fit(m.input(), input_width(width));
}

/// The cursor is shown in the row and the column behind what is before it, two columns
/// and one row into the box, as far as that row is in view; where it is above, it is
/// shown in the first row. It is shown exactly where it is above the lower edge.
pub proof fn the_cursor_is_shown_behind_what_is_before_it(m: Model, area: Rect, width: u16)
    requires
        m.cursor_fits(area, width),
    ensures
        ({
            let w = input_width(width);
            let box_shown = m.input_box(area, width);
            let all = layout::rows_of(m.before + m.after, w).len();
            let behind = layout::rows_of(m.before, w);
            let hidden = all - box_shown.rows.len();
            let row = behind.len() - 1 - hidden;
            let x = area.x + 2 + behind.last().len();
            let y = area.y + 1 + (if row < 0 { 0 } else { row });
            &&& box_shown.cursor is Some <==> y < area.y + area.height - 1
            &&& box_shown.cursor is Some ==> box_shown.cursor == Some((x as u16, y as u16))
        }),
{
    layout::rows_fit(m.input(), input_width(width));
}

/// The rows of the input are four columns narrower than the screen, and four characters
/// wide at least.
pub proof fn input_rows_leave_a_margin(width: u16)
    ensures
        input_width(width) >= 4,
        width >= 8 ==> input_width(width) + 4 == width,
        width < 8 ==> input_width(width) == 4,
{
}

/// The left of the status line is the hint, where it is a tip, and the right says what
/// goes on; it gets one column more than it has characters, as far as there is room.
pub proof fn the_status_line_shows_hint_and_status(
    m: Model,
    cols: Seq<Rect>,
    width: u16,
    now: u128,
)
    ensures
        ({
            let line = m.status_line(cols, now);
            &&& line.left_area == cols[0]
            &&& line.right_area == cols[1]
            &&& line.right == m.status()
            &&& m.hint(now) matches HintModel::Tip(t) ==> line.left == t
            &&& !(m.hint(now) is Tip) ==> line.left.len() == 0
        }),
        m.status().len() < 65535 && m.status().len() + 1 <= width ==> right_width(
            m.status().len(),
            width,
        ) == m.status().len() + 1,
        m.status().len() < 65535 && m.status().len() + 1 > width ==> right_width(
            m.status().len(),
            width,
        ) == width,
{
}

/// The menu has a row for each of the first six commands, in their order, with the whole
/// of its name, its arguments and its help. It is left out exactly where there is no
/// command, or no room above the input box.
pub proof fn the_menu_shows_the_commands(cmds: Seq<CmdModel>, input: Rect, i: int)
    ensures
        menu_of(cmds, input) is None <==> cmds.len() == 0 || input.y < 2 + (if cmds.len() < 6 {
            cmds.len() as int
        } else {
            6
        }),
        menu_of(cmds, input) matches Some(menu) ==> {
            &&& menu.rows.len() == (if cmds.len() < 6 { cmds.len() } else { 6 })
            &&& menu.area.width == (if input.width < 60 { input.width } else { 60 })
            &&& 0 <= i < menu.rows.len() ==> {
                &&& cmds[i].name.is_prefix_of(menu.rows[i].name)
                &&& menu.rows[i].name.len() == (if cmds[i].name.len() < 10 {
                    10
                } else {
                    cmds[i].name.len()
                })
                &&& cmds[i].args.is_prefix_of(menu.rows[i].args)
                &&& menu.rows[i].args.len() == (if cmds[i].args.len() < 12 {
                    12
                } else {
                    cmds[i].args.len()
                })
                &&& menu.rows[i].help == cmds[i].help
            }
        },
{
    text::padding_adds_spaces_only(cmds[i].name, 10);
    text::padding_adds_spaces_only(cmds[i].args, 12);
}

/// The screen is the scrollback, the input box and the status line, each in its part,
/// and the menu above the input box exactly while the hint offers commands.
pub proof fn the_screen_shows_every_part(
    m: Model,
    chunks: Seq<Rect>,
    cols: Seq<Rect>,
    area: Rect,
    now: u128,
)
    ensures
        ({
            let screen = m.screen(chunks, cols, area, now);
            &&& screen.scrollback_area == chunks[0]
            &&& screen.scrollback == m.in_view(chunks[0].width, chunks[0].height)
            &&& screen.input == m.input_box(chunks[1], area.width)
            &&& screen.status == m.status_line(cols, now)
            &&& m.hint(now) matches HintModel::Menu(cmds) ==> screen.menu == menu_of(
                cmds,
                chunks[1],
            )
            &&& !(m.hint(now) is Menu) ==> screen.menu is None
        }),
{
}

} // verus!
