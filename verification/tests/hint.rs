use amadeus_tui::hint::{commands, find, hint, matches as matching, usage, Hint, UsedCommands, QUIET, ROTATE};

fn millis(n: u128) -> u128 {
    n * 1_000_000
}

fn secs(n: u128) -> u128 {
    n * 1_000_000_000
}

fn none() -> UsedCommands {
    UsedCommands::new()
}

#[test]
fn slash_prefix_offers_completions() {
    let h = hint("/r", 0, 0, &none());
    match h {
        Hint::Menu(m) => assert!(m.iter().any(|c| c.name == "/rag")),
        other => panic!("expected a menu, got {other:?}"),
    }
}

#[test]
fn completions_appear_immediately_even_mid_keystroke() {
    // The quiet window must not suppress the command menu.
    assert!(matches!(
        hint("/ind", millis(5), 0, &none()),
        Hint::Menu(_)
    ));
}

#[test]
fn typing_arguments_shows_usage() {
    let h = hint("/rag where is chunking", 0, 0, &none());
    match h {
        Hint::Tip(t) => assert!(t.contains("grounded")),
        other => panic!("expected usage, got {other:?}"),
    }
}

#[test]
fn unknown_command_is_named() {
    let h = hint("/nope ", 0, 0, &none());
    assert_eq!(h, Hint::Tip("unknown command /nope".into()));
}

#[test]
fn hidden_while_actively_typing_prose() {
    assert_eq!(
        hint("how does chunk", millis(120), 0, &none()),
        Hint::Hidden
    );
}

#[test]
fn prose_hint_returns_after_the_quiet_window() {
    assert!(matches!(
        hint("how does chunk", secs(2), 0, &none()),
        Hint::Tip(_)
    ));
}

#[test]
fn idle_hints_rotate_on_the_four_second_boundary() {
    let a = hint("", secs(3), secs(1), &none());
    let b = hint("", secs(3), secs(3), &none());
    let c = hint("", secs(3), secs(5), &none());
    assert_eq!(a, b);
    assert_ne!(b, c);
}

#[test]
fn used_commands_drop_out_of_the_rotation() {
    let mut used = UsedCommands::new();
    for c in commands() {
        used.insert(c.name);
    }
    // Only keybinding tips remain, so no hint should name a command.
    for s in 0..40 {
        if let Hint::Tip(t) = hint("", secs(3), secs(s), &used)
        {
            assert!(!t.starts_with('/'), "still advertising a used command: {t}");
        }
    }
}

#[test]
fn a_token_that_leads_nowhere_is_named() {
    assert_eq!(hint("/zzz", 0, 0, &none()), Hint::Tip("no command matches /zzz".into()));
}

#[test]
fn prose_is_told_how_to_send() {
    assert_eq!(
        hint("how", secs(1), 0, &none()),
        Hint::Tip("enter to send · alt+enter for a newline".into())
    );
}

#[test]
fn the_quiet_window_is_eight_tenths_of_a_second() {
    assert_eq!(QUIET, millis(800));
    assert_eq!(hint("x", QUIET - 1, 0, &none()), Hint::Hidden);
    assert!(matches!(hint("x", QUIET, 0, &none()), Hint::Tip(_)));
}

#[test]
fn a_bare_slash_offers_everything() {
    match hint("/", 0, 0, &none()) {
        Hint::Menu(m) => assert_eq!(m.len(), 10),
        other => panic!("expected a menu, got {other:?}"),
    }
}

#[test]
fn the_menu_holds_what_the_token_can_grow_into() {
    for token in ["/", "/a", "/as", "/s", "/model", "/x", ""] {
        let names: Vec<&str> = matching(token).iter().map(|c| c.name).collect();
        let want: Vec<&str> =
            commands().iter().map(|c| c.name).filter(|n| n.starts_with(token)).collect();
        assert_eq!(names, want);
    }
}

#[test]
fn the_rotation_goes_round() {
    let used = none();
    let shown = |n: u128| hint("", secs(3), n * ROTATE, &used);
    assert_eq!(shown(0), Hint::Tip("/rag <question>  — codebase-grounded answer".into()));
    assert_eq!(shown(6), Hint::Tip("/model  — cycle fast / main / heavy".into()));
    assert_eq!(shown(10), Hint::Tip("ctrl+t cycles the model tier".into()));
    assert_eq!(shown(14), Hint::Tip("type / to see every command".into()));
    assert_eq!(shown(15), shown(0));
    assert_eq!(shown(22), shown(7));
}

#[test]
fn commands_are_found_and_explained() {
    let c = find("/index").unwrap();
    assert_eq!(usage(&c), "/index [dir]  — build or refresh the RAG index");
    assert_eq!(usage(&find("/quit").unwrap()), "/quit  — exit");
    assert!(find("/inde").is_none());
    assert!(c == commands()[2]);
    assert!(c != commands()[3]);
}

#[test]
fn used_commands_are_kept_once() {
    let mut used = none();
    assert!(!used.contains("/rag"));
    used.insert("/rag");
    used.insert("/rag");
    assert!(used.contains("/rag"));
    assert!(!used.contains("/ra"));
    assert_eq!(
        hint("", secs(3), 0, &used),
        Hint::Tip("/ask <task>  — ask the model with no retrieval".into())
    );
}
