use amadeus_tui::config::{env_or, join_path, Config, Tier, HISTORY_NAME};
use amadeus_tui::event::AppEvent;
use amadeus_tui::rag::{
    agent_command, agent_launch, agent_line, agent_line_for, agent_poll, agent_script, agent_start, index, index_command, index_line_for, python,
    query, query_command, query_line_for, read_query, retrieved, script, shell, shell_command, AgentPoll, Ending,
    IndexInput, Pipe, ProcessOutput, QueryOutcome, Retrieved,
};

fn shown(events: &[AppEvent]) -> Vec<String> {
    events.iter().map(|ev| format!("{ev:?}")).collect()
}

fn output(success: bool, stdout: &[u8], stderr: &[u8]) -> Result<ProcessOutput, String> {
    Ok(ProcessOutput {
        success,
        status: "exit status: 2".to_string(),
        stdout: stdout.to_vec(),
        stderr: stderr.to_vec(),
    })
}

#[test]
fn the_environment_overrides_every_setting() {
    let var = |k: &str, v: &str| (k.to_string(), v.to_string());
    let vars = vec![
        var("AMADEUS_HOME", "/opt/amadeus"),
        var("AMADEUS_OLLAMA_URL", "http://box:1"),
        var("AMADEUS_FAST_MODEL", "f"),
        var("AMADEUS_MAIN_MODEL", "m"),
        var("AMADEUS_HEAVY_MODEL", ""),
        var("AMADEUS_FAST_MODEL", "later"),
    ];
    let cfg = Config::from_env(&vars, "/work", 5);
    assert_eq!(cfg.root, "/work");
    assert_eq!(cfg.home, "/opt/amadeus");
    assert_eq!(cfg.ollama_url, "http://box:1");
    assert_eq!(cfg.model(Tier::Fast), "f");
    assert_eq!(cfg.model(Tier::Main), "m");
    assert_eq!(cfg.model(Tier::Heavy), "");
    assert_eq!(cfg.session, 5);
    assert_eq!(env_or(&vars, "NOPE", "d"), "d");
}

#[test]
fn the_defaults_are_local() {
    let cfg = Config::from_env(&Vec::new(), "/work", 0);
    assert_eq!(cfg.home, "/work");
    assert_eq!(cfg.ollama_url, "http://localhost:11434");
    assert_eq!(cfg.model(Tier::Fast), "qwen2.5-coder:1.5b");
    assert_eq!(cfg.model(Tier::Main), "qwen2.5-coder:3b");
    assert_eq!(cfg.model(Tier::Heavy), "qwen3:8b");
    assert_eq!(cfg.history_file, "/work/.agent_history.txt");
    assert_eq!(HISTORY_NAME, ".agent_history.txt");
}

#[test]
fn paths_are_joined_with_one_slash() {
    assert_eq!(join_path("/a", "b/c"), "/a/b/c");
    assert_eq!(join_path("/", "b"), "/b");
    assert_eq!(join_path("", "b"), "b");
}

#[test]
fn tiers_go_round() {
    assert_eq!(Tier::Fast.next(), Tier::Main);
    assert_eq!(Tier::Main.next(), Tier::Heavy);
    assert_eq!(Tier::Heavy.next(), Tier::Fast);
    let labels = [Tier::Fast.label(), Tier::Main.label(), Tier::Heavy.label()];
    assert_eq!(labels, ["fast", "main", "heavy"]);
}

#[test]
fn the_virtual_environment_is_preferred() {
    assert_eq!(python("/a", true), "/a/rag/venv/bin/python3");
    assert_eq!(python("/a", false), "python3");
    assert_eq!(script("/a"), "/a/rag/rag.py");
    assert_eq!(agent_script("/a"), "/a/agent/agent.py");
}

#[test]
fn processes_get_their_arguments() {
    let c = query_command("/a", true, "why?");
    assert_eq!(c.program, "/a/rag/venv/bin/python3");
    assert_eq!(c.args, vec!["/a/rag/rag.py", "query", "why?", "--debug"]);
    let c = index_command("/a", false, ".");
    assert_eq!(c.program, "python3");
    assert_eq!(c.args, vec!["/a/rag/rag.py", "index", "."]);
    let c = shell_command("ls -l");
    assert_eq!(c.program, "sh");
    assert_eq!(c.args, vec!["-c", "ls -l"]);
    let c = agent_command("/a", true, "do it", "m");
    assert_eq!(c.program, "/a/rag/venv/bin/python3");
    assert_eq!(c.args, vec!["/a/agent/agent.py", "do it", "--model", "m", "--yes"]);
}

#[test]
fn retrieval_finds_hits_and_a_prompt() {
    let out = output(true, "the é prompt\n".as_bytes(), b" 0.31 a.rs \n\n\t0.37 b.rs\r\n");
    match query(out) {
        QueryOutcome::Found(r) => {
            assert_eq!(r.prompt, "the é prompt\n");
            assert_eq!(r.hits, vec!["0.31 a.rs", "0.37 b.rs"]);
        }
        other => panic!("expected a prompt, got {other:?}"),
    }
}

#[test]
fn bytes_that_are_not_text_are_replaced() {
    match query(output(true, b"a\xffb", b"")) {
        QueryOutcome::Found(r) => assert_eq!(r.prompt, "a\u{fffd}b"),
        other => panic!("expected a prompt, got {other:?}"),
    }
    assert_eq!(
        shown(&shell(1, output(true, b"\xc3", b"\xa9"))),
        vec!["Note { id: 1, text: \"\u{fffd}\u{fffd}\" }", "Done { id: 1 }"]
    );
}

#[test]
fn retrieval_can_find_nothing_or_fail() {
    assert!(matches!(query(output(true, b" NO_RELEVANT_CONTEXT\n", b"")), QueryOutcome::NoContext));
    let failure = |outcome| match outcome {
        QueryOutcome::Failed(e) => e,
        other => panic!("expected a failure, got {other:?}"),
    };
    assert_eq!(failure(query(output(true, b" \n", b"x"))), "rag.py produced no prompt");
    assert_eq!(failure(query(output(false, b"p", b" boom\n"))), "boom");
    assert_eq!(failure(query(output(false, b"p", b" \n"))), "rag.py exited exit status: 2");
    assert_eq!(failure(query(Err("gone".to_string()))), "cannot run rag.py: gone");
    assert!(matches!(read_query(true, "", "NO_RELEVANT_CONTEXT", ""), QueryOutcome::NoContext));
}

#[test]
fn a_retrieval_ends_the_request_or_goes_on_to_ask() {
    let found = || {
        QueryOutcome::Found(Retrieved { hits: vec!["h".to_string()], prompt: "p".to_string() })
    };
    let (events, prompt) = retrieved(4, found(), false);
    assert_eq!(shown(&events), vec!["Sources { id: 4, hits: [\"h\"] }"]);
    assert_eq!(prompt.as_deref(), Some("p"));
    let (events, prompt) = retrieved(4, found(), true);
    assert_eq!(shown(&events), vec!["Sources { id: 4, hits: [\"h\"] }", "Done { id: 4 }"]);
    assert_eq!(prompt, None);
    let (events, prompt) = retrieved(4, QueryOutcome::NoContext, false);
    assert_eq!(
        shown(&events),
        vec!["Failed { id: 4, text: \"nothing relevant in the index for that question\" }"]
    );
    assert_eq!(prompt, None);
    let (events, prompt) = retrieved(4, QueryOutcome::Failed("e".to_string()), true);
    assert_eq!(shown(&events), vec!["Failed { id: 4, text: \"e\" }"]);
    assert_eq!(prompt, None);
}

#[test]
fn indexing_reports_its_progress_and_its_end() {
    let text = |s: &str| s.to_string();
    let report = |input| format!("{:?}", index(9, input));
    let exited = |success| Ending::Exited { success, status: text("exit status: 1") };
    assert_eq!(
        report(IndexInput::NotStarted(text("e"))),
        "Failed { id: 9, text: \"cannot run rag.py: e\" }"
    );
    assert_eq!(report(IndexInput::Line(text(" l "))), "Note { id: 9, text: \" l \" }");
    assert_eq!(
        report(IndexInput::Ended { errors: vec![text("x")], ending: exited(true) }),
        "Done { id: 9 }"
    );
    assert_eq!(
        report(IndexInput::Ended { errors: vec![text(" a"), text("b ")], ending: exited(false) }),
        "Failed { id: 9, text: \"a\\nb\" }"
    );
    assert_eq!(
        report(IndexInput::Ended { errors: vec![text("")], ending: exited(false) }),
        "Failed { id: 9, text: \"index exited exit status: 1\" }"
    );
    assert_eq!(
        report(IndexInput::Ended { errors: Vec::new(), ending: Ending::Lost(text("gone")) }),
        "Failed { id: 9, text: \"gone\" }"
    );
}

#[test]
fn shell_output_is_shown() {
    assert_eq!(
        shown(&shell(2, output(true, b" out\n", b"err \n"))),
        vec!["Note { id: 2, text: \" out\\nerr\" }", "Done { id: 2 }"]
    );
    assert_eq!(
        shown(&shell(2, output(false, b"\n", b""))),
        vec![
            "Note { id: 2, text: \"(no output)\" }",
            "Note { id: 2, text: \"exit exit status: 2\" }",
            "Done { id: 2 }"
        ]
    );
    assert_eq!(
        shown(&shell(2, Err("no sh".to_string()))),
        vec!["Failed { id: 2, text: \"no sh\" }"]
    );
}

#[test]
fn the_agent_needs_its_interpreter_and_its_script() {
    let start = |py, sc| format!("{:?}", agent_start(3, "py", py, "s.py", sc, "m", "/w"));
    assert_eq!(
        start(false, true),
        "Failed { id: 3, text: \"agent Python interpreter not found: py\" }"
    );
    assert_eq!(start(true, false), "Failed { id: 3, text: \"agent.py not found: s.py\" }");
    assert_eq!(
        start(true, true),
        "Note { id: 3, text: \"starting AMADEUS agent with m in /w\" }"
    );
}

#[test]
fn the_agents_lines_are_notices() {
    let line = |pipe, l| agent_line(3, pipe, l).map(|ev| format!("{ev:?}"));
    assert_eq!(
        line(Pipe::Stdout, Ok(" x ".to_string())).as_deref(),
        Some("Note { id: 3, text: \" x \" }")
    );
    assert_eq!(line(Pipe::Stderr, Ok(" \t".to_string())), None);
    assert_eq!(
        line(Pipe::Stdout, Err("e".to_string())).as_deref(),
        Some("Note { id: 3, text: \"agent stdout error: e\" }")
    );
    assert_eq!(
        line(Pipe::Stderr, Err("e".to_string())).as_deref(),
        Some("Note { id: 3, text: \"agent stderr error: e\" }")
    );
}

#[test]
fn the_agent_is_watched_to_its_end() {
    let poll = |p| {
        let (kill, events) = agent_poll(3, p);
        (kill, shown(&events))
    };
    let status = || "exit status: 1".to_string();
    let none: Vec<String> = Vec::new();
    assert_eq!(poll(AgentPoll::Running), (false, none));
    assert_eq!(
        poll(AgentPoll::NotStarted("e".to_string())),
        (false, vec!["Failed { id: 3, text: \"failed to start agent: e\" }".to_string()])
    );
    assert_eq!(
        poll(AgentPoll::Cancelled),
        (
            true,
            vec![
                "Note { id: 3, text: \"agent cancelled\" }".to_string(),
                "Done { id: 3 }".to_string()
            ]
        )
    );
    assert_eq!(
        poll(AgentPoll::Exited { success: true, status: status() }),
        (false, vec!["Done { id: 3 }".to_string()])
    );
    assert_eq!(
        poll(AgentPoll::Exited { success: false, status: status() }),
        (false, vec!["Failed { id: 3, text: \"agent exited with exit status: 1\" }".to_string()])
    );
    assert_eq!(
        poll(AgentPoll::Lost("e".to_string())),
        (true, vec!["Failed { id: 3, text: \"failed checking agent process: e\" }".to_string()])
    );
}

#[test]
fn the_installation_works_on_the_project() {
    let vars = vec![("AMADEUS_HOME".to_string(), "/opt/amadeus".to_string())];
    let cfg = Config::from_env(&vars, "/work", 1);
    let (line, dir) = query_line_for(&cfg, true, "why?");
    assert_eq!(line.program, "/opt/amadeus/rag/venv/bin/python3");
    assert_eq!(line.args, vec!["/opt/amadeus/rag/rag.py", "query", "why?", "--debug"]);
    assert_eq!(dir, "/work");
    let (line, dir) = index_line_for(&cfg, false, ".");
    assert_eq!(line.program, "python3");
    assert_eq!(line.args, vec!["/opt/amadeus/rag/rag.py", "index", "."]);
    assert_eq!(dir, "/work");
    let (line, dir) = agent_line_for(&cfg, true, "do it", "m");
    assert_eq!(line.program, "/opt/amadeus/rag/venv/bin/python3");
    assert_eq!(line.args, vec!["/opt/amadeus/agent/agent.py", "do it", "--model", "m", "--yes"]);
    assert_eq!(dir, "/work");
}

#[test]
fn an_agent_without_its_files_is_not_started() {
    let vars = vec![("AMADEUS_HOME".to_string(), "/opt/amadeus".to_string())];
    let cfg = Config::from_env(&vars, "/work", 1);
    let launch = |venv, py, sc| {
        let (notice, line) = agent_launch(&cfg, 3, venv, py, sc, "do it", "m");
        (format!("{notice:?}"), line.map(|(line, dir)| (line.program, line.args.len(), dir)))
    };
    assert_eq!(
        launch(false, false, true),
        ("Failed { id: 3, text: \"agent Python interpreter not found: python3\" }".to_string(), None)
    );
    assert_eq!(
        launch(true, true, false),
        (
            "Failed { id: 3, text: \"agent.py not found: /opt/amadeus/agent/agent.py\" }".to_string(),
            None
        )
    );
    assert_eq!(
        launch(true, true, true),
        (
            "Note { id: 3, text: \"starting AMADEUS agent with m in /work\" }".to_string(),
            Some(("/opt/amadeus/rag/venv/bin/python3".to_string(), 5, "/work".to_string()))
        )
    );
}
