use std::io::{BufRead, BufReader, Cursor};

use amadeus_tui::event::AppEvent;
use amadeus_tui::ollama::{
    endpoint, frame_body, generate, on_members, request_body, step, Answer, JsonField, StreamInput,
};

/// The answer that a server makes with this body and status.
fn stub(body: &'static str, status: &'static str) -> Answer {
    if status != "200 OK" {
        let code: u16 = status[..3].parse().unwrap();
        return Answer::Status { code, detail: body.to_string() };
    }
    let mut reader = BufReader::new(Cursor::new(body.as_bytes()));
    let mut inputs = Vec::new();
    loop {
        let mut line = String::new();
        if reader.read_line(&mut line).unwrap() == 0 {
            inputs.push(StreamInput::Eof);
            return Answer::Stream(inputs);
        }
        inputs.push(StreamInput::Line(line));
    }
}

fn collect(answer: Answer) -> (String, Vec<String>, bool) {
    let (mut text, mut errs, mut done) = (String::new(), Vec::new(), false);
    for ev in generate("http://127.0.0.1:11434", 7, &answer) {
        match ev {
            AppEvent::Token { id, delta } => {
                assert_eq!(id, 7);
                text.push_str(&delta);
            }
            AppEvent::Done { .. } => done = true,
            AppEvent::Failed { text: t, .. } => errs.push(t),
            _ => {}
        }
    }
    (text, errs, done)
}

#[test]
fn tokens_arrive_in_order_and_done_ends_the_stream() {
    let answer = stub(
        "{\"response\":\"Hel\",\"done\":false}\n\
         {\"response\":\"lo\",\"done\":false}\n\
         {\"response\":\"\",\"done\":true}\n",
        "200 OK",
    );
    let (text, errs, done) = collect(answer);
    assert_eq!(text, "Hello");
    assert!(errs.is_empty(), "unexpected failures: {errs:?}");
    assert!(done);
}

#[test]
fn malformed_lines_are_skipped_not_fatal() {
    let answer = stub(
        "not json at all\n\
         {\"response\":\"ok\",\"done\":false}\n\
         \n\
         {\"done\":true}\n",
        "200 OK",
    );
    let (text, errs, done) = collect(answer);
    assert_eq!(text, "ok");
    assert!(errs.is_empty(), "unexpected failures: {errs:?}");
    assert!(done);
}

#[test]
fn an_error_object_ends_the_request_without_a_done() {
    let answer = stub("{\"error\":\"model not found\"}\n", "200 OK");
    let (text, errs, done) = collect(answer);
    assert!(text.is_empty());
    assert_eq!(errs.len(), 1);
    assert!(errs[0].contains("model not found"));
    assert!(!done, "Failed must be terminal, not followed by Done");
}

#[test]
fn unreachable_ollama_reports_a_usable_message() {
    // Port 1 is reserved and will refuse.
    let base = "http://127.0.0.1:1";
    let answer = match ureq::post(&endpoint(base)).send_string(&request_body("m", "p")) {
        Ok(_) => panic!("something answers on port 1"),
        Err(e) => Answer::Unreachable(e.to_string()),
    };
    let ev = generate(base, 7, &answer).remove(0);
    match ev {
        AppEvent::Failed { text, .. } => assert!(text.contains("ollama serve")),
        other => panic!("expected Failed, got {other:?}"),
    }
}

fn shown(events: Vec<AppEvent>) -> Vec<String> {
    events.iter().map(|ev| format!("{ev:?}")).collect()
}

#[test]
fn an_unreachable_server_is_named() {
    let events = generate("http://box:1/", 3, &Answer::Unreachable("refused".to_string()));
    assert_eq!(
        shown(events),
        vec![
            "Failed { id: 3, text: \"cannot reach ollama at http://box:1/ (refused). \
             is `ollama serve` running?\" }"
        ]
    );
}

#[test]
fn an_error_status_is_reported_with_its_detail() {
    let (text, errs, done) = collect(stub(" no such model\n", "404 Not Found"));
    assert_eq!(text, "");
    assert_eq!(errs, vec!["ollama returned 404: no such model"]);
    assert!(!done);
}

#[test]
fn the_stream_ends_where_it_ends() {
    // End of file without a done.
    let (text, errs, done) = collect(stub("{\"response\":\"x\"}\n", "200 OK"));
    assert_eq!((text.as_str(), errs.len(), done), ("x", 0, true));
    // Nothing behind a done is looked at.
    let (text, errs, done) =
        collect(stub("{\"response\":\"x\",\"done\":true}\n{\"error\":\"late\"}\n", "200 OK"));
    assert_eq!((text.as_str(), errs.len(), done), ("x", 0, true));
}

#[test]
fn cancelling_and_breaking_end_the_request() {
    assert_eq!(
        shown(step(5, &StreamInput::Cancelled)),
        vec!["Note { id: 5, text: \"[cancelled]\" }", "Done { id: 5 }"]
    );
    assert_eq!(
        shown(step(5, &StreamInput::Broke("reset".to_string()))),
        vec!["Failed { id: 5, text: \"stream broke: reset\" }"]
    );
    assert_eq!(shown(step(5, &StreamInput::Eof)), vec!["Done { id: 5 }"]);
}

#[test]
fn every_answer_ends_exactly_once() {
    let lines = ["", "junk", "{\"response\":\"a\"}", "{\"done\":true}", "{\"error\":\"e\"}", "[1]", "{\"done\":1}"];
    for a in lines {
        for b in lines {
            for end in [StreamInput::Eof, StreamInput::Cancelled, StreamInput::Broke(String::new())] {
                let inputs =
                    vec![StreamInput::Line(a.to_string()), StreamInput::Line(b.to_string()), end];
                let events = generate("u", 1, &Answer::Stream(inputs));
                let ends = events.iter().filter(|ev| ev.is_terminal()).count();
                assert_eq!(ends, 1);
                assert!(events[events.len() - 1].is_terminal());
            }
        }
    }
}

#[test]
fn members_decide_what_a_line_means() {
    let text = |s: &str| JsonField::Text(s.to_string());
    let line = |fields: Vec<(&str, JsonField)>| {
        let members = fields.into_iter().map(|(k, v)| (k.to_string(), v)).collect();
        shown(on_members(1, &members))
    };
    let none: Vec<String> = Vec::new();
    assert_eq!(line(vec![]), none);
    assert_eq!(line(vec![("response", text(""))]), none);
    assert_eq!(line(vec![("response", JsonField::Other), ("done", JsonField::Other)]), none);
    assert_eq!(line(vec![("done", JsonField::Flag(false))]), none);
    assert_eq!(
        line(vec![("response", text("x")), ("done", JsonField::Flag(true))]),
        vec!["Token { id: 1, delta: \"x\" }", "Done { id: 1 }"]
    );
    assert_eq!(
        line(vec![("response", text("x")), ("error", text("bad"))]),
        vec!["Failed { id: 1, text: \"ollama: bad\" }"]
    );
    assert_eq!(
        line(vec![("error", JsonField::Flag(true)), ("done", JsonField::Flag(true))]),
        vec!["Done { id: 1 }"]
    );
}

#[test]
fn the_endpoint_has_one_slash() {
    assert_eq!(endpoint("http://h:1"), "http://h:1/api/generate");
    assert_eq!(endpoint("http://h:1//"), "http://h:1/api/generate");
    assert_eq!(endpoint(""), "/api/generate");
}

#[test]
fn the_body_is_what_ollama_expects() {
    assert_eq!(
        request_body("qwen3:8b", "say \"hi\"\n"),
        "{\"model\":\"qwen3:8b\",\"options\":{\"temperature\":0.2},\"prompt\":\"say \\\"hi\\\"\\n\",\
         \"stream\":true}"
    );
    assert_eq!(
        frame_body("1", "2"),
        "{\"model\":1,\"options\":{\"temperature\":0.2},\"prompt\":2,\"stream\":true}"
    );
}

#[test]
fn any_prompt_can_be_quoted() {
    let mut prompt = String::from("é😀\\/");
    for n in 0..=0x7fu8 {
        prompt.push(n as char);
    }
    let body: serde_json::Value = serde_json::from_str(&request_body("m", &prompt)).unwrap();
    assert_eq!(body.get("model").and_then(|v| v.as_str()), Some("m"));
    assert_eq!(body.get("prompt").and_then(|v| v.as_str()), Some(prompt.as_str()));
    assert_eq!(body.get("stream").and_then(|v| v.as_bool()), Some(true));
    let temperature = body.get("options").and_then(|o| o.get("temperature"));
    assert_eq!(temperature.and_then(|v| v.as_f64()), Some(0.2));
    assert_eq!(body.as_object().unwrap().len(), 4);
    assert_eq!(
        request_body("m", "\u{0}\u{8}\u{9}\u{a}\u{c}\u{d}\u{1f}\u{7f}/\u{2028}"),
        "{\"model\":\"m\",\"options\":{\"temperature\":0.2},\
         \"prompt\":\"\\u0000\\b\\t\\n\\f\\r\\u001f\u{7f}/\u{2028}\",\"stream\":true}"
    );
}
