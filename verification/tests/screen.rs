use amadeus_tui::app::App;
use amadeus_tui::config::Config;
use amadeus_tui::event::{AppEvent, KeyCode, KeyEvent, TermEvent};
use amadeus_tui::hint::{commands, matches as matching};
use amadeus_tui::scrollback::{kind_style, wrap_entry, Color, Entry, Kind, Line, Style};
use amadeus_tui::ui::{draw, draw_menu, draw_scrollback, ensure_wrapped, Rect, Screen};
use ratatui::layout::{Constraint, Direction, Layout};

const SECOND: u128 = 1_000_000_000;

fn session() -> App {
    App::new(Config::from_env(&Vec::new(), "/work", 1), true, 0)
}

fn paste(app: &mut App, text: &str) {
    app.handle(AppEvent::Term(TermEvent::Paste(text.to_string())), 0);
}

fn press(app: &mut App, code: KeyCode) {
    let k = KeyEvent { code, ctrl: false, alt: false, release: false };
    app.handle(AppEvent::Term(TermEvent::Key(k)), 0);
}

fn screen(width: u16, height: u16) -> Rect {
    Rect { x: 0, y: 0, width, height }
}

fn shown(app: &mut App, width: u16, height: u16) -> Screen {
    draw(app, screen(width, height), 3 * SECOND).unwrap()
}

/// What a line looks like without its style.
fn plain(line: &Line) -> String {
    match line {
        Line::Blank => String::new(),
        Line::Text { gutter, piece, .. } => format!("{gutter}{piece}"),
    }
}

fn wrapped(kind: Kind, text: &str, width: u16) -> Vec<String> {
    wrap_entry(&Entry { kind, text: text.to_string() }, width).iter().map(plain).collect()
}

#[test]
fn every_kind_has_its_marker_and_its_style() {
    let style = |color, bold| Style { color, bold };
    assert_eq!(kind_style(Kind::User), ("› ", style(Color::Cyan, true)));
    assert_eq!(kind_style(Kind::Agent), ("", style(Color::Default, false)));
    assert_eq!(kind_style(Kind::System), ("· ", style(Color::DarkGray, false)));
    assert_eq!(kind_style(Kind::Source), ("  ", style(Color::Blue, false)));
    assert_eq!(kind_style(Kind::Error), ("! ", style(Color::Red, false)));
}

#[test]
fn entries_are_wrapped_by_words_under_their_marker() {
    assert_eq!(wrapped(Kind::Error, "one two three", 12), vec!["! one two", "  three", ""]);
    assert_eq!(wrapped(Kind::Agent, "one two", 80), vec!["one two", ""]);
    assert_eq!(wrapped(Kind::Agent, "", 80), vec!["", ""]);
    assert_eq!(wrapped(Kind::Error, "a\n\nb", 80), vec!["! a", "", "  b", ""]);
    assert_eq!(wrapped(Kind::Error, "\na", 80), vec!["", "! a", ""]);
    assert_eq!(wrapped(Kind::Agent, "abcdefghij", 2), vec!["abcdefgh", "ij", ""]);
    assert_eq!(wrapped(Kind::Agent, "trailing  ", 80), vec!["trailing", ""]);
}

#[test]
fn continuations_are_indented_to_match_the_marker() {
    let lines = wrapped(Kind::User, "one two three four", 12);
    assert_eq!(lines, vec!["› one two", "  three", "  four", ""]);
    assert_eq!(wrapped(Kind::System, "a\nb", 80), vec!["· a", "  b", ""]);
}

#[test]
fn the_cache_and_the_tail_are_all_lines() {
    let mut app = session();
    for width in [80, 20, 20, 10, 80] {
        let tail = ensure_wrapped(&mut app, width);
        let mut lines: Vec<String> = app.stable.iter().map(plain).collect();
        lines.extend(tail.iter().map(plain));
        let mut want = Vec::new();
        for e in &app.entries {
            want.extend(wrapped(e.kind, &e.text, width));
        }
        assert_eq!(lines, want);
        assert_eq!(app.stable_upto, app.entries.len() - 1);
        app.push(Kind::Agent, "one more entry".to_string());
    }
}

#[test]
fn no_entries_make_no_lines() {
    let mut app = session();
    app.entries.clear();
    assert!(draw_scrollback(&mut app, 80, 10).is_empty());
    assert_eq!((app.scroll, app.pinned, app.stable_upto), (0, true, 0));
}

#[test]
fn the_end_is_shown_while_pinned() {
    let mut app = session();
    for n in 0..10 {
        app.push(Kind::Agent, n.to_string());
    }
    let lines: Vec<String> = draw_scrollback(&mut app, 80, 4).iter().map(plain).collect();
    assert_eq!(lines, vec!["8", "", "9", ""]);
    assert_eq!(app.scroll, 22);
    // The same once more.
    let again: Vec<String> = draw_scrollback(&mut app, 80, 4).iter().map(plain).collect();
    assert_eq!(again, lines);
    press(&mut app, KeyCode::PageUp);
    let lines: Vec<String> = draw_scrollback(&mut app, 80, 4).iter().map(plain).collect();
    assert_eq!(lines, vec!["3", "", "4", ""]);
    assert_eq!((app.scroll, app.pinned), (12, false));
    press(&mut app, KeyCode::PageDown);
    draw_scrollback(&mut app, 80, 4);
    assert_eq!((app.scroll, app.pinned), (22, true));
    // Growing answers are followed.
    app.push(Kind::Agent, "last".to_string());
    let lines: Vec<String> = draw_scrollback(&mut app, 80, 2).iter().map(plain).collect();
    assert_eq!(lines, vec!["last", ""]);
}

#[test]
fn a_roomy_screen_has_everything_in_its_place() {
    let mut app = session();
    let s = shown(&mut app, 80, 24);
    assert_eq!(s.scrollback_area, screen(80, 20));
    assert_eq!(s.scrollback.len(), 6);
    assert_eq!(plain(&s.scrollback[0]), "· AMADEUS — session 1");
    assert_eq!(s.input.area, Rect { x: 0, y: 20, width: 80, height: 3 });
    assert_eq!((s.input.title, s.input.border), (" task ", Color::Cyan));
    assert_eq!(s.input.rows, vec![""]);
    assert_eq!(s.input.cursor, Some((2, 21)));
    assert_eq!(s.status.left_area, Rect { x: 0, y: 23, width: 58, height: 1 });
    assert_eq!(s.status.left, "/rag <question>  — codebase-grounded answer");
    assert_eq!(s.status.right_area, Rect { x: 58, y: 23, width: 22, height: 1 });
    assert_eq!(s.status.right, "main qwen2.5-coder:3b");
    assert!(s.menu.is_none());
}

#[test]
fn a_busy_session_shows_that_it_works() {
    let mut app = session();
    paste(&mut app, "/shell ls");
    press(&mut app, KeyCode::Enter);
    let s = shown(&mut app, 80, 24);
    assert_eq!((s.input.title, s.input.border), (" working ", Color::DarkGray));
    assert_eq!(s.status.right, "⠋ main qwen2.5-coder:3b");
}

#[test]
fn the_input_box_grows_to_eight_rows() {
    let mut app = session();
    for rows in 1..12u16 {
        let s = shown(&mut app, 80, 24);
        let visible = if rows > 8 { 8 } else { rows };
        assert_eq!(s.input.area.height, visible + 2);
        assert_eq!(s.input.rows.len(), visible as usize);
        assert_eq!(s.input.area.y + s.input.area.height, 23);
        let column = if rows > 1 { 3 } else { 2 };
        assert_eq!(s.input.cursor, Some((column, s.input.area.y + visible)));
        paste(&mut app, "\nx");
    }
    // The cursor stays in view when it is above the rows that are.
    press(&mut app, KeyCode::Home);
    let s = shown(&mut app, 80, 24);
    assert_eq!(s.input.cursor, Some((2, s.input.area.y + 1)));
    assert_eq!(s.input.rows, vec!["x"; 8]);
}

#[test]
fn narrow_screens_keep_four_columns_of_input() {
    let mut app = session();
    paste(&mut app, "abcdefgh");
    let s = shown(&mut app, 5, 24);
    assert_eq!(s.input.rows, vec!["abcd", "efgh"]);
    let s = shown(&mut app, 10, 24);
    assert_eq!(s.input.rows, vec!["abcdef", "gh"]);
    assert_eq!(s.status.right_area.width, 10);
    assert_eq!(s.status.left_area.width, 0);
}

#[test]
fn the_menu_sits_on_the_input_box() {
    let mut app = session();
    paste(&mut app, "/a");
    let s = shown(&mut app, 80, 24);
    let menu = s.menu.unwrap();
    assert_eq!(menu.area, Rect { x: 0, y: 16, width: 60, height: 4 });
    let rows: Vec<String> =
        menu.rows.iter().map(|r| format!("{}{}{}", r.name, r.args, r.help)).collect();
    assert_eq!(
        rows,
        vec![
            "/ask      <task>      ask the model with no retrieval",
            "/agent    <task>      autonomous coding agent",
        ]
    );
    assert_eq!(s.status.left, "");
}

#[test]
fn the_menu_is_left_out_where_there_is_no_room() {
    let input = Rect { x: 3, y: 8, width: 40, height: 3 };
    let menu = draw_menu(&commands(), input).unwrap();
    assert_eq!(menu.area, Rect { x: 3, y: 0, width: 40, height: 8 });
    assert_eq!(menu.rows.len(), 6);
    assert!(draw_menu(&commands(), Rect { y: 7, ..input }).is_none());
    assert!(draw_menu(&matching("/zz"), input).is_none());
}

#[test]
fn screens_without_a_row_are_not_drawn() {
    let mut app = session();
    assert!(draw(&mut app, screen(80, 0), 0).is_none());
    assert_eq!(app.wrap_width, 0);
    assert!(draw(&mut app, screen(80, 1), 0).is_some());
    assert!(draw(&mut app, Rect { x: 65535, y: 0, width: 0, height: 9 }, 0).is_none());
    assert!(draw(&mut app, Rect { x: 0, y: 65535, width: 9, height: 0 }, 0).is_none());
}

#[test]
fn a_status_that_cannot_be_counted_is_not_drawn() {
    let mut app = session();
    app.cfg.main_model = "m".repeat(65535 - 5);
    assert!(draw(&mut app, screen(80, 24), 0).is_none());
    app.cfg.main_model = "m".repeat(65536 - 5);
    let s = draw(&mut app, screen(80, 24), 0).unwrap();
    assert_eq!(s.status.right_area.width, 1);
}

/// What is relied on where an area is divided, on the areas of the outside crate.
fn divided(direction: Direction, start: u16, size: u16, min: u16, lengths: &[u16]) {
    let area = match direction {
        Direction::Vertical => ratatui::layout::Rect { x: 3, y: start, width: 5, height: size },
        Direction::Horizontal => ratatui::layout::Rect { x: start, y: 3, width: size, height: 5 },
    };
    let first = std::iter::once(Constraint::Min(min));
    let rest = lengths.iter().map(|n| Constraint::Length(*n));
    let parts =
        Layout::default().direction(direction).constraints(first.chain(rest)).split(area);
    let spans: Vec<(u16, u16)> = parts
        .iter()
        .map(|p| match direction {
            Direction::Vertical => {
                assert_eq!((p.x, p.width), (3, 5));
                (p.y, p.height)
            }
            Direction::Horizontal => {
                assert_eq!((p.y, p.height), (3, 5));
                (p.x, p.width)
            }
        })
        .collect();
    let end = start.saturating_add(size);
    let room = end - start;
    assert_eq!(spans.len(), lengths.len() + 1);
    let mut at = start;
    for (from, len) in &spans {
        assert_eq!(*from, at);
        at += len;
        assert!(at <= end);
    }
    if min <= room {
        assert!(spans[0].1 >= min);
    }
    let wanted: u32 = lengths.iter().map(|n| *n as u32).sum();
    if min as u32 + wanted <= room as u32 {
        assert_eq!(spans[0].1 as u32, room as u32 - wanted);
        for (i, len) in lengths.iter().enumerate() {
            assert_eq!(spans[i + 1].1, *len);
        }
    }
    if min as u32 + wanted >= room as u32 {
        assert_eq!(spans[0].1, min.min(room));
        assert_eq!(at, end);
        for (i, len) in lengths.iter().enumerate() {
            assert!(spans[i + 1].1 <= *len);
        }
    }
}

#[test]
fn areas_are_divided_as_they_should_be() {
    for direction in [Direction::Vertical, Direction::Horizontal] {
        for start in [0, 1, 40, 65530] {
            for size in 0..16 {
                for min in [0, 1, 5] {
                    divided(direction, start, size, min, &[]);
                    for a in [0, 1, 3, 10] {
                        divided(direction, start, size, min, &[a]);
                        divided(direction, start, size, min, &[a, 1]);
                    }
                }
            }
        }
        for a in 0..8 {
            for b in 0..8 {
                for size in 0..16 {
                    divided(direction, 2, size, 1, &[a, b, 3]);
                    divided(direction, 2, size, 3, &[a, b]);
                }
            }
        }
        divided(direction, 0, 100, 20, &[1, 100]);
        divided(direction, 0, 65535, 30000, &[65535, 65535, 9]);
        divided(direction, 0, 65535, 1, &[10, 1]);
        divided(direction, 0, 65535, 32767, &[32768]);
        divided(direction, 0, 100, 32767, &[65535, 7]);
    }
}

#[test]
fn low_screens_keep_the_input_in_view() {
    let mut app = session();
    paste(&mut app, "1\n2\n3\n4\n5\n6\n7\n8");
    for height in 1..12 {
        let s = shown(&mut app, 80, height);
        assert_eq!(s.scrollback_area, screen(80, 1));
        assert_eq!(s.input.area.y, 1);
        assert!(s.input.area.height <= 10 && s.input.area.height + 2 >= height);
        assert!(s.status.right_area.height <= 1);
        assert_eq!(s.status.right_area.y, 1 + s.input.area.height);
        assert_eq!(s.status.right_area.y + s.status.right_area.height, height);
    }
}

#[test]
fn every_short_paragraph_is_one_line() {
    assert_eq!(
        wrapped(Kind::Error, "one  \ntwo words\n\n  three", 80),
        vec!["! one", "  two words", "", "    three", ""]
    );
}
