use amadeus_tui::app::{App, QUIET_REDRAW};
use amadeus_tui::config::{Config, Tier};
use amadeus_tui::event::{AppEvent, KeyCode, KeyEvent, TermEvent};
use amadeus_tui::hint::{commands, Hint};
use amadeus_tui::model::{build_prompt, recent_history, write_history, Action, SYSTEM_PROMPT};
use amadeus_tui::ollama::{generate, Answer, StreamInput};
use amadeus_tui::rag::{
    agent_launch, agent_line, agent_poll, index, retrieved, AgentPoll, Ending, IndexInput, Pipe,
    QueryOutcome, Retrieved,
};
use amadeus_tui::scrollback::Kind;

const SECOND: u128 = 1_000_000_000;

fn session() -> App {
    let vars = vec![("AMADEUS_HOME".to_string(), "/opt/amadeus".to_string())];
    App::new(Config::from_env(&vars, "/work", 1783372494), true, 0)
}

fn take_at(app: &mut App, ev: AppEvent, now: u128) -> Option<Action> {
    assert!(app.accepts(&ev));
    app.handle(ev, now)
}

fn take(app: &mut App, ev: AppEvent) -> Option<Action> {
    take_at(app, ev, 0)
}

fn key(code: KeyCode, ctrl: bool, alt: bool) -> AppEvent {
    AppEvent::Term(TermEvent::Key(KeyEvent { code, ctrl, alt, release: false }))
}

fn press(app: &mut App, code: KeyCode) -> Option<Action> {
    take(app, key(code, false, false))
}

fn ctrl(app: &mut App, c: char) -> Option<Action> {
    take(app, key(KeyCode::Char(c), true, false))
}

fn type_in(app: &mut App, text: &str) {
    for c in text.chars() {
        assert!(press(app, KeyCode::Char(c)).is_none());
    }
}

fn send(app: &mut App, text: &str) -> Option<Action> {
    type_in(app, text);
    press(app, KeyCode::Enter)
}

fn token(id: u64, delta: &str) -> AppEvent {
    AppEvent::Token { id, delta: delta.to_string() }
}

fn note(id: u64, text: &str) -> AppEvent {
    AppEvent::Note { id, text: text.to_string() }
}

fn last(app: &App) -> (Kind, &str) {
    let entry = &app.entries[app.entries.len() - 1];
    (entry.kind, entry.text.as_str())
}

/// Sends a task, and has it asked.
fn ask(app: &mut App, task: &str) -> Action {
    match send(app, task) {
        Some(Action::Ask { task }) => app.ask(task, ""),
        other => panic!("expected to ask, got {other:?}"),
    }
}

#[test]
fn a_session_begins_with_a_greeting() {
    let app = session();
    let texts: Vec<&str> = app.entries.iter().map(|e| e.text.as_str()).collect();
    assert_eq!(
        texts,
        vec![
            "AMADEUS — session 1783372494",
            "root /work",
            "type / for commands, ctrl+t for model tier",
        ]
    );
    assert!(app.entries.iter().all(|e| e.kind == Kind::System));
    assert_eq!(app.tier, Tier::Main);
    assert_eq!((app.busy, app.should_quit, app.pinned), (None, false, true));
    assert_eq!(QUIET_REDRAW, 250);
}

#[test]
fn a_missing_script_is_reported() {
    let vars = vec![("AMADEUS_HOME".to_string(), "/opt/amadeus".to_string())];
    let app = App::new(Config::from_env(&vars, "/work", 1), false, 0);
    assert_eq!(app.entries.len(), 4);
    assert_eq!(app.entries[2].kind, Kind::Error);
    assert_eq!(
        app.entries[2].text,
        "AMADEUS RAG script not found — expected /opt/amadeus/rag/rag.py. \
         set AMADEUS_HOME to your AMADEUS checkout."
    );
}

#[test]
fn plain_text_is_a_task_for_the_model() {
    let mut app = session();
    let action = send(&mut app, "  say hi ");
    assert!(matches!(&action, Some(Action::Ask { task }) if task == "say hi"));
    assert_eq!(last(&app), (Kind::User, "say hi"));
    assert_eq!((app.input.as_str(), app.cursor, app.busy), ("", 0, None));
    match app.ask("say hi".to_string(), "old\nnews\n") {
        Action::Generate { id, model, prompt } => {
            assert_eq!(id, 1);
            assert_eq!(model, "qwen2.5-coder:3b");
            assert_eq!(
                prompt,
                format!(
                    "{SYSTEM_PROMPT}\n\n--- Recent History ---\nold\nnews\n--- End History ---\n\n\n\
                     Task: say hi"
                )
            );
        }
        other => panic!("expected a prompt, got {other:?}"),
    }
    assert_eq!(app.busy, Some(1));
    assert_eq!(app.last_user, "say hi");
}

#[test]
fn nothing_is_sent_when_nothing_is_typed() {
    let mut app = session();
    let before = app.entries.len();
    assert!(send(&mut app, "  ").is_none());
    assert_eq!(app.entries.len(), before);
    assert_eq!(app.input, "  ");
}

#[test]
fn an_answer_grows_and_goes_into_the_history() {
    let mut app = session();
    ask(&mut app, "greet");
    let before = app.entries.len();
    assert!(take(&mut app, token(1, "Hel")).is_none());
    assert!(take(&mut app, token(1, "lo")).is_none());
    assert_eq!(app.entries.len(), before + 1);
    assert_eq!(last(&app), (Kind::Agent, "Hello"));
    assert_eq!(app.agent_idx, Some(before));
    match take(&mut app, AppEvent::Done { id: 1 }) {
        Some(Action::AppendHistory { record }) => assert_eq!(
            record,
            "[SESSION:1783372494] User: greet\nAgent: Hello\n---\n\n"
        ),
        other => panic!("expected a record, got {other:?}"),
    }
    assert_eq!((app.busy, app.agent_idx, app.response.as_str()), (None, None, ""));
}

#[test]
fn a_blank_answer_leaves_no_record() {
    let mut app = session();
    ask(&mut app, "greet");
    take(&mut app, token(1, " \n"));
    assert!(take(&mut app, AppEvent::Done { id: 1 }).is_none());
    assert_eq!(app.busy, None);
}

#[test]
fn a_failure_ends_the_request_without_a_record() {
    let mut app = session();
    ask(&mut app, "greet");
    take(&mut app, token(1, "half"));
    assert!(take(&mut app, AppEvent::Failed { id: 1, text: "boom".to_string() }).is_none());
    assert_eq!(last(&app), (Kind::Error, "boom"));
    assert_eq!((app.busy, app.agent_idx, app.response.as_str()), (None, None, ""));
    assert!(take(&mut app, AppEvent::Done { id: 1 }).is_none());
}

#[test]
fn events_of_other_requests_are_ignored() {
    let mut app = session();
    ask(&mut app, "greet");
    let before = app.entries.len();
    take(&mut app, token(7, "x"));
    take(&mut app, AppEvent::Sources { id: 7, hits: vec!["h".to_string()] });
    take(&mut app, note(7, "n"));
    take(&mut app, AppEvent::Failed { id: 7, text: "f".to_string() });
    assert!(take(&mut app, AppEvent::Done { id: 7 }).is_none());
    assert_eq!(app.entries.len(), before);
    assert_eq!((app.busy, app.response.as_str()), (Some(1), ""));
}

#[test]
fn a_late_notice_is_shown_when_nothing_runs() {
    let mut app = session();
    take(&mut app, note(7, "late"));
    assert_eq!(last(&app), (Kind::System, "late"));
}

#[test]
fn sources_are_listed() {
    let mut app = session();
    send(&mut app, "/rag why");
    let before = app.entries.len();
    take(&mut app, AppEvent::Sources { id: 1, hits: Vec::new() });
    assert_eq!(app.entries.len(), before);
    let hits = vec!["0.3 a".to_string(), "0.4 b".to_string()];
    take(&mut app, AppEvent::Sources { id: 1, hits });
    assert_eq!(
        last(&app),
        (Kind::Source, "top-k candidates (pre-rerank, pre-margin)\n0.3 a\n0.4 b")
    );
}

#[test]
fn a_busy_session_refuses_and_keeps_the_input() {
    let mut app = session();
    ask(&mut app, "first");
    assert!(send(&mut app, "second").is_none());
    assert_eq!(last(&app), (Kind::Error, "still working — ctrl+c to cancel"));
    assert_eq!((app.input.as_str(), app.busy, app.next_id), ("second", Some(1), 1));
}

#[test]
fn requests_are_numbered() {
    let mut app = session();
    assert!(matches!(send(&mut app, "/shell ls"), Some(Action::Shell { id: 1, .. })));
    ctrl(&mut app, 'c');
    assert!(app.cancel);
    take(&mut app, AppEvent::Done { id: 1 });
    assert!(matches!(send(&mut app, "/index"), Some(Action::Index { id: 2, .. })));
    assert_eq!((app.busy, app.cancel), (Some(2), false));
}

#[test]
fn commands_become_work() {
    let run = |line: &str| {
        let mut app = session();
        let action = send(&mut app, line);
        (format!("{action:?}"), app)
    };
    assert_eq!(run("/index").0, "Some(Index { id: 1, dir: \".\" })");
    assert_eq!(run("/index  src ").0, "Some(Index { id: 1, dir: \"src\" })");
    assert_eq!(run("/shell ls -l").0, "Some(Shell { id: 1, cmd: \"ls -l\" })");
    let (action, app) = run("/rag why so");
    assert_eq!(action, "Some(Rag { id: 1, question: \"why so\", model: \"qwen3:8b\" })");
    assert_eq!(app.last_user, "rag why so");
    let (action, app) = run("/agent do it");
    assert_eq!(action, "Some(Agent { id: 1, task: \"do it\", model: \"qwen2.5-coder:3b\" })");
    assert_eq!(app.last_user, "agent do it");
    assert_eq!(run("/ask a thing").0, "Some(Ask { task: \"a thing\" })");
    assert_eq!(run("/file a b.rs").0, "Some(ReadFile { path: \"a b.rs\" })");
    assert_eq!(run("/history").0, "Some(ShowHistory)");
    assert!(run("/quit").1.should_quit);
    assert!(run("/exit").1.should_quit);
}

#[test]
fn commands_that_lack_an_argument_say_so() {
    for (line, text) in [
        ("/file", "usage: /file <path>"),
        ("/shell ", "usage: /shell <cmd>"),
        ("/rag", "usage: /rag <question>"),
        ("/ask", "usage: /ask <task>"),
        ("/agent", "usage: /agent <task>"),
        ("/nope x", "unknown command /nope"),
    ] {
        let mut app = session();
        assert!(send(&mut app, line).is_none());
        assert_eq!(last(&app), (Kind::Error, text));
        assert_eq!(app.busy, None);
    }
}

#[test]
fn clearing_forgets_everything() {
    let mut app = session();
    app.stage_file("a.rs", Ok("x".to_string()));
    assert!(matches!(send(&mut app, "/clear"), Some(Action::ClearHistory)));
    assert_eq!(app.entries.len(), 1);
    assert_eq!(last(&app), (Kind::System, "history cleared"));
    assert!(app.staged.is_empty() && app.file_context.is_empty());
}

#[test]
fn the_tier_is_cycled_by_command_and_by_key() {
    let mut app = session();
    assert!(send(&mut app, "/model").is_none());
    assert_eq!(app.tier, Tier::Heavy);
    assert_eq!(last(&app), (Kind::System, "model tier → heavy (qwen3:8b)"));
    ctrl(&mut app, 't');
    assert_eq!(app.tier, Tier::Fast);
    assert_eq!(last(&app), (Kind::System, "model tier → fast (qwen2.5-coder:1.5b)"));
    ctrl(&mut app, 't');
    assert_eq!(app.tier, Tier::Main);
}

#[test]
fn files_stack_up_and_go_into_one_prompt() {
    let mut app = session();
    app.stage_file("a.rs", Ok("fn a() {}\n".to_string()));
    assert_eq!(last(&app), (Kind::System, "staged a.rs (1 lines) for the next prompt"));
    app.stage_file("b.rs", Ok("x\r\ny".to_string()));
    assert_eq!(last(&app), (Kind::System, "staged b.rs (2 lines) for the next prompt"));
    assert_eq!(app.staged, vec!["a.rs", "b.rs"]);
    match ask(&mut app, "go") {
        Action::Generate { prompt, .. } => assert!(prompt.ends_with(
            "\n--- End History ---\n\n\n### File: a.rs\n```\nfn a() {}\n\n```\
             \n\n### File: b.rs\n```\nx\r\ny\n```\n\nTask: go"
        )),
        other => panic!("expected a prompt, got {other:?}"),
    }
    assert!(app.staged.is_empty() && app.file_context.is_empty());
}

#[test]
fn a_file_that_cannot_be_read_is_reported() {
    let mut app = session();
    app.stage_file("a.rs", Err("no such file".to_string()));
    assert_eq!(last(&app), (Kind::Error, "a.rs: no such file"));
    assert!(app.staged.is_empty() && app.file_context.is_empty());
}

#[test]
fn the_history_is_shown() {
    let mut app = session();
    app.show_history("one\ntwo\n".to_string());
    assert_eq!(last(&app), (Kind::System, "one\ntwo\n"));
    app.show_history(" \n".to_string());
    assert_eq!(last(&app), (Kind::System, "(empty)"));
}

#[test]
fn the_last_forty_lines_go_into_a_prompt() {
    let all: Vec<String> = (0..50).map(|n| n.to_string()).collect();
    assert_eq!(recent_history(&all.join("\n")), all[10..].join("\n"));
    assert_eq!(recent_history(""), "");
    assert_eq!(recent_history("a\n\n"), "a\n");
    assert!(build_prompt(&all.join("\n"), "", "t").contains("---\n10\n11\n"));
}

#[test]
fn an_exchange_comes_back_in_the_next_prompt() {
    let mut history = write_history(1, "first", "one");
    history.push_str(&write_history(2, "ask\nme", "two"));
    assert_eq!(
        recent_history(&history),
        "[SESSION:1] User: first\nAgent: one\n---\n\n[SESSION:2] User: ask\nme\nAgent: two\n---\n"
    );
}

#[test]
fn control_c_cancels_clears_or_quits() {
    let mut app = session();
    type_in(&mut app, "abc");
    ctrl(&mut app, 'c');
    assert_eq!((app.input.as_str(), app.cursor, app.should_quit), ("", 0, false));
    ask(&mut app, "go");
    ctrl(&mut app, 'c');
    assert_eq!(last(&app), (Kind::System, "cancelling…"));
    assert_eq!((app.cancel, app.should_quit, app.busy), (true, false, Some(1)));
    take(&mut app, AppEvent::Done { id: 1 });
    ctrl(&mut app, 'c');
    assert!(app.should_quit);
    take(&mut app, AppEvent::Tick);
    assert!(app.should_quit);
}

#[test]
fn control_d_quits_only_when_nothing_is_typed() {
    let mut app = session();
    type_in(&mut app, "x");
    ctrl(&mut app, 'd');
    assert_eq!((app.input.as_str(), app.should_quit), ("xd", false));
    ctrl(&mut app, 'u');
    assert_eq!(app.input, "");
    ctrl(&mut app, 'd');
    assert!(app.should_quit);
}

#[test]
fn control_l_clears_the_scrollback() {
    let mut app = session();
    ctrl(&mut app, 'l');
    assert!(app.entries.is_empty() && app.stable.is_empty());
    // The rest of an answer is shown in an entry of its own.
    ask(&mut app, "go");
    take(&mut app, token(1, "a"));
    ctrl(&mut app, 'l');
    take(&mut app, token(1, "b"));
    take(&mut app, token(1, "c"));
    assert_eq!(app.entries.len(), 1);
    assert_eq!(last(&app), (Kind::Agent, "bc"));
    assert_eq!(app.response, "abc");
}

#[test]
fn the_cursor_moves_by_characters() {
    let mut app = session();
    type_in(&mut app, "aé€");
    assert_eq!(app.cursor, 6);
    press(&mut app, KeyCode::Left);
    assert_eq!(app.cursor, 3);
    press(&mut app, KeyCode::Left);
    assert_eq!(app.cursor, 1);
    press(&mut app, KeyCode::Delete);
    assert_eq!((app.input.as_str(), app.cursor), ("a€", 1));
    press(&mut app, KeyCode::Right);
    assert_eq!(app.cursor, 4);
    press(&mut app, KeyCode::Right);
    assert_eq!(app.cursor, 4);
    press(&mut app, KeyCode::Backspace);
    assert_eq!((app.input.as_str(), app.cursor), ("a", 1));
    press(&mut app, KeyCode::Home);
    press(&mut app, KeyCode::Backspace);
    press(&mut app, KeyCode::Left);
    assert_eq!((app.input.as_str(), app.cursor), ("a", 0));
    press(&mut app, KeyCode::End);
    assert_eq!(app.cursor, 1);
    press(&mut app, KeyCode::Delete);
    assert_eq!(app.input, "a");
    ctrl(&mut app, 'a');
    assert_eq!(app.cursor, 0);
    ctrl(&mut app, 'e');
    assert_eq!(app.cursor, 1);
    ctrl(&mut app, 'z');
    assert_eq!(app.input, "az");
}

#[test]
fn words_are_deleted_from_the_cursor_back() {
    let mut app = session();
    type_in(&mut app, "one two three");
    ctrl(&mut app, 'w');
    assert_eq!((app.input.as_str(), app.cursor), ("one two ", 8));
    ctrl(&mut app, 'w');
    assert_eq!((app.input.as_str(), app.cursor), ("one ", 4));
    ctrl(&mut app, 'w');
    ctrl(&mut app, 'w');
    assert_eq!((app.input.as_str(), app.cursor), ("", 0));
}

#[test]
fn a_word_behind_wide_white_space_is_not_taken() {
    let mut app = session();
    type_in(&mut app, "a\u{3000}b");
    let delete = key(KeyCode::Char('w'), true, false);
    assert!(!app.accepts(&delete));
    type_in(&mut app, " c");
    assert!(app.accepts(&delete));
}

#[test]
fn counters_that_are_full_are_not_counted_up() {
    let mut app = session();
    app.ticks = u64::MAX;
    assert!(!app.accepts(&AppEvent::Tick));
    app.scroll = usize::MAX - 5;
    assert!(!app.accepts(&key(KeyCode::PageDown, false, false)));
    assert!(app.accepts(&key(KeyCode::Down, true, false)));
    app.next_id = u64::MAX;
    assert!(!app.accepts(&key(KeyCode::Enter, false, false)));
    assert!(app.accepts(&key(KeyCode::Enter, false, true)));
    assert!(app.accepts(&token(1, "x")));
}

#[test]
fn alt_enter_inserts_a_newline_and_pastes_go_in_whole() {
    let mut app = session();
    type_in(&mut app, "a");
    take(&mut app, key(KeyCode::Enter, false, true));
    take(&mut app, AppEvent::Term(TermEvent::Paste("b\nc".to_string())));
    assert_eq!((app.input.as_str(), app.cursor), ("a\nb\nc", 5));
}

#[test]
fn tab_completes_to_the_first_offer() {
    let mut app = session();
    type_in(&mut app, "/a");
    press(&mut app, KeyCode::Tab);
    assert_eq!((app.input.as_str(), app.cursor), ("/ask ", 5));
    press(&mut app, KeyCode::Tab);
    assert_eq!(app.input, "/ask ");
    ctrl(&mut app, 'u');
    type_in(&mut app, "/zz");
    press(&mut app, KeyCode::Tab);
    assert_eq!(app.input, "/zz");
    ctrl(&mut app, 'u');
    press(&mut app, KeyCode::Tab);
    assert_eq!(app.input, "");
}

#[test]
fn keys_that_come_up_and_unknown_keys_do_nothing() {
    let mut app = session();
    let up = KeyEvent { code: KeyCode::Char('x'), ctrl: false, alt: false, release: true };
    take_at(&mut app, AppEvent::Term(TermEvent::Key(up)), SECOND);
    assert_eq!((app.input.as_str(), app.last_key), ("", 0));
    press(&mut app, KeyCode::Other);
    press(&mut app, KeyCode::Up);
    press(&mut app, KeyCode::Down);
    take(&mut app, AppEvent::Term(TermEvent::Other));
    assert_eq!((app.input.as_str(), app.scroll, app.pinned), ("", 0, true));
}

#[test]
fn scrolling_unpins_and_end_re_pins() {
    let mut app = session();
    app.scroll = 25;
    press(&mut app, KeyCode::PageUp);
    assert_eq!((app.scroll, app.pinned), (15, false));
    take(&mut app, key(KeyCode::Up, true, false));
    assert_eq!(app.scroll, 14);
    take(&mut app, key(KeyCode::Down, true, false));
    press(&mut app, KeyCode::PageDown);
    assert_eq!((app.scroll, app.pinned), (25, false));
    press(&mut app, KeyCode::End);
    assert!(app.pinned);
    app.scroll = 3;
    press(&mut app, KeyCode::PageUp);
    assert_eq!((app.scroll, app.pinned), (0, false));
    take(&mut app, note(0, "n"));
    assert!(app.pinned);
}

#[test]
fn a_resize_forgets_the_wrapped_lines() {
    let mut app = session();
    amadeus_tui::ui::ensure_wrapped(&mut app, 40);
    assert_eq!((app.stable.len(), app.stable_upto), (4, 2));
    take(&mut app, AppEvent::Term(TermEvent::Resize));
    assert_eq!((app.stable.len(), app.stable_upto), (0, 0));
    amadeus_tui::ui::ensure_wrapped(&mut app, 40);
    app.invalidate_wrap();
    assert!(app.stable.is_empty());
}

#[test]
fn the_clock_drives_the_hints() {
    let mut app = session();
    take_at(&mut app, key(KeyCode::Char('x'), false, false), SECOND);
    assert_eq!(app.hint(SECOND), Hint::Hidden);
    assert_eq!(app.last_key, SECOND);
    assert_eq!(app.idle_since, 0);
    assert_eq!(
        app.hint(2 * SECOND),
        Hint::Tip("enter to send · alt+enter for a newline".to_string())
    );
    take_at(&mut app, key(KeyCode::Backspace, false, false), 3 * SECOND);
    assert_eq!(app.idle_since, 3 * SECOND);
    // A clock that is behind counts as no time.
    assert_eq!(app.hint(SECOND), Hint::Hidden);
    assert!(matches!(app.hint(8 * SECOND), Hint::Tip(t) if t.starts_with("/ask")));
    send(&mut app, "/ask");
    assert!(app.used.contains("/ask"));
    assert!(matches!(app.hint(5 * SECOND), Hint::Tip(t) if t.starts_with("/index")));
}

#[test]
fn the_spinner_and_the_status_say_what_goes_on() {
    let mut app = session();
    assert_eq!(app.status_right(), "main qwen2.5-coder:3b");
    app.stage_file("a", Ok(String::new()));
    app.stage_file("b", Ok(String::new()));
    assert_eq!(app.status_right(), "2 staged · main qwen2.5-coder:3b");
    send(&mut app, "/shell ls");
    let frames = ["⠋", "⠙", "⠹", "⠸", "⠼", "⠴", "⠦", "⠧"];
    for n in 0..40 {
        assert_eq!(app.spinner(), frames[n / 2 % 8]);
        assert_eq!(
            app.status_right(),
            format!("{} 2 staged · main qwen2.5-coder:3b", frames[n / 2 % 8])
        );
        take(&mut app, AppEvent::Tick);
    }
}

#[test]
fn entries_can_be_pushed() {
    let mut app = session();
    app.pinned = false;
    app.push(Kind::Source, "s".to_string());
    assert_eq!(last(&app), (Kind::Source, "s"));
    assert!(app.pinned);
}

#[test]
fn answers_and_retrievals_free_the_session() {
    let answers = || {
        vec![
            Answer::Unreachable("refused".to_string()),
            Answer::Status { code: 500, detail: String::new() },
            Answer::Stream(vec![
                StreamInput::Line("{\"response\":\"a\"}".to_string()),
                StreamInput::Eof,
            ]),
            Answer::Stream(vec![StreamInput::Cancelled]),
        ]
    };
    for answer in answers() {
        let mut app = session();
        ask(&mut app, "go");
        for ev in generate("http://h", 1, &answer) {
            assert_eq!(app.busy, Some(1));
            take(&mut app, ev);
        }
        assert_eq!(app.busy, None);
    }
    for answer in answers() {
        let mut app = session();
        send(&mut app, "/rag why");
        let found = Retrieved { hits: vec!["h".to_string()], prompt: "p".to_string() };
        let (events, prompt) = retrieved(1, QueryOutcome::Found(found), false);
        assert!(prompt.is_some());
        for ev in events {
            take(&mut app, ev);
        }
        assert_eq!(app.busy, Some(1));
        for ev in generate("http://h", 1, &answer) {
            take(&mut app, ev);
        }
        assert_eq!(app.busy, None);
    }
}

#[test]
fn tokens_go_only_into_agent_entries() {
    let mut app = session();
    ask(&mut app, "go");
    let before = app.entries.len();
    take(&mut app, token(1, "a"));
    take(&mut app, note(1, "n"));
    take(&mut app, token(1, "b"));
    ctrl(&mut app, 'c');
    take(&mut app, token(1, "c"));
    take(&mut app, token(1, "d"));
    let shown: Vec<(Kind, &str)> =
        app.entries[before..].iter().map(|e| (e.kind, e.text.as_str())).collect();
    assert_eq!(
        shown,
        vec![
            (Kind::Agent, "a"),
            (Kind::System, "n"),
            (Kind::Agent, "b"),
            (Kind::System, "cancelling…"),
            (Kind::Agent, "cd"),
        ]
    );
    match take(&mut app, AppEvent::Done { id: 1 }) {
        Some(Action::AppendHistory { record }) => assert!(record.contains("\nAgent: abcd\n")),
        other => panic!("expected a record, got {other:?}"),
    }
}

#[test]
fn a_stale_index_does_not_catch_tokens() {
    // The scrollback is cleared, and another entry takes the place of the answer's.
    let mut app = session();
    ask(&mut app, "go");
    ctrl(&mut app, 'l');
    take(&mut app, token(1, "a"));
    assert_eq!(app.agent_idx, Some(0));
    ctrl(&mut app, 'l');
    take(&mut app, note(1, "n"));
    take(&mut app, token(1, "b"));
    assert_eq!((app.entries[0].kind, app.entries[0].text.as_str()), (Kind::System, "n"));
    assert_eq!(last(&app), (Kind::Agent, "b"));
}

#[test]
fn retrieval_is_answered_by_the_heavy_model() {
    let asked = |tier: Tier| {
        let mut app = session();
        app.tier = tier;
        match send(&mut app, "/rag why") {
            Some(Action::Rag { model, .. }) => model,
            other => panic!("expected a retrieval, got {other:?}"),
        }
    };
    assert_eq!(asked(Tier::Main), "qwen3:8b");
    assert_eq!(asked(Tier::Heavy), "qwen3:8b");
    assert_eq!(asked(Tier::Fast), "qwen2.5-coder:1.5b");
}

#[test]
fn commands_are_unknown_exactly_when_they_are_not_listed() {
    let mut lines: Vec<String> = commands().iter().map(|c| c.name.to_string()).collect();
    lines.push("/exit".to_string());
    for line in lines {
        let mut app = session();
        send(&mut app, &line);
        assert!(app.used.contains(&line));
        assert!(app.entries.iter().all(|e| !e.text.starts_with("unknown command")));
    }
    for line in ["/", "/ra", "/ragg", "/QUIT", "/exit2"] {
        let mut app = session();
        assert!(send(&mut app, line).is_none());
        assert!(app.used.contains(line));
        assert_eq!(last(&app), (Kind::Error, format!("unknown command {line}").as_str()));
        assert_eq!((app.busy, app.should_quit), (None, false));
    }
}

#[test]
fn agents_and_indexing_runs_free_the_session() {
    let mut app = session();
    send(&mut app, "/agent do it");
    let (notice, line) = agent_launch(&app.cfg, 1, true, true, true, "do it", "m");
    assert!(line.is_some());
    take(&mut app, notice);
    for text in ["one", "", "two"] {
        if let Some(ev) = agent_line(1, Pipe::Stdout, Ok(text.to_string())) {
            take(&mut app, ev);
        }
    }
    let (_, events) = agent_poll(1, AgentPoll::Running);
    assert!(events.is_empty());
    assert_eq!(app.busy, Some(1));
    let (kill, events) = agent_poll(1, AgentPoll::Cancelled);
    assert!(kill);
    for ev in events {
        take(&mut app, ev);
    }
    assert_eq!(app.busy, None);
    assert_eq!(last(&app), (Kind::System, "agent cancelled"));

    send(&mut app, "/index");
    take(&mut app, index(2, IndexInput::Line("10 files".to_string())));
    assert_eq!(app.busy, Some(2));
    let ending = Ending::Exited { success: true, status: String::new() };
    take(&mut app, index(2, IndexInput::Ended { errors: Vec::new(), ending }));
    assert_eq!(app.busy, None);
}

#[test]
fn keys_keep_the_cursor_on_a_boundary() {
    let mut app = session();
    let codes = [
        KeyCode::Char('é'),
        KeyCode::Char('€'),
        KeyCode::Left,
        KeyCode::Char(' '),
        KeyCode::Char('😀'),
        KeyCode::Left,
        KeyCode::Left,
        KeyCode::Delete,
        KeyCode::Right,
        KeyCode::Backspace,
        KeyCode::Home,
        KeyCode::Tab,
        KeyCode::End,
        KeyCode::Enter,
    ];
    for code in codes {
        for ctrl in [false, true] {
            app.on_key(KeyEvent { code, ctrl, alt: true, release: false }, 0);
            assert!(app.input.is_char_boundary(app.cursor));
        }
    }
}

#[test]
fn lines_can_be_routed_without_being_typed() {
    let mut app = session();
    assert!(app.route("/nope x").is_none());
    assert_eq!(last(&app), (Kind::Error, "unknown command /nope"));
    assert!(app.used.contains("/nope"));
    assert!(matches!(app.rag("why"), Action::Rag { id: 1, .. }));
    assert!(matches!(app.agent("do it"), Action::Agent { id: 2, .. }));
    assert_eq!(app.busy, Some(2));
}
