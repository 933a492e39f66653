//! Asking Ollama: the request, and what the lines of the reply mean.
use vstd::prelude::*;
use vstd::string::StringExecFns;

use crate::event;
use crate::event::{AppEvent, EventModel};
use crate::laws;
use crate::text;
use crate::text::{chars_of, concat2, concat3, number, str_eq, string_of, trim};

verus! {

// ---------- the request ----------

/// `s` without the slashes at its end.
pub open spec fn without_slashes(s: Seq<char>) -> Seq<char>
    decreases s.len(),
{
    if s.len() > 0 && s.last() == '/' {
        without_slashes(s.drop_last())
    } else {
        s
    }
}

/// Where completions are asked for, on the server at `base_url`.
pub fn endpoint(base_url: &str) -> (r: String)
    ensures
        r@ == without_slashes(base_url@) + "/api/generate"@,
{
    let v = chars_of(base_url);
    let mut n: usize = v.len();
    assert(v@.subrange(0, n as int) =~= base_url@);
    while n > 0 && v[n - 1] == '/'
        invariant
            n <= v@.len(),
            without_slashes(v@.subrange(0, n as int)) == without_slashes(base_url@),
        decreases n,
    {
        assert(v@.subrange(0, n as int).drop_last() =~= v@.subrange(0, n - 1));
        n = n - 1;
    }
    concat2(string_of(&v, 0, n).as_str(), "/api/generate")
}

/// A hexadecimal digit.
pub open spec fn hex_digit(d: int) -> char {
    if d < 10 { text::digit(d as nat) } else if d == 10 { 'a' } else if d == 11 { 'b' }
    else if d == 12 { 'c' } else if d == 13 { 'd' } else if d == 14 { 'e' } else { 'f' }
}

/// A character as it stands in a JSON string: control characters, the quote and the
/// backslash are escaped.
pub open spec fn json_char(c: char) -> Seq<char> {
    if c == '"' || c == '\\' {
        seq!['\\', c]
    } else if c == '\u{8}' {
        seq!['\\', 'b']
    } else if c == '\t' {
        seq!['\\', 't']
    } else if c == '\n' {
        seq!['\\', 'n']
    } else if c == '\u{c}' {
        seq!['\\', 'f']
    } else if c == '\r' {
        seq!['\\', 'r']
    } else if c <= '\u{1f}' {
        seq!['\\', 'u', '0', '0', hex_digit(c as int / 16), hex_digit(c as int % 16)]
    } else {
        seq![c]
    }
}

/// `text` as a JSON string, in quotes.
pub open spec fn json_string(text: Seq<char>) -> Seq<char> {
    "\""@ + text.map_values(|c: char| json_char(c)).flatten() + "\""@
}

/// `serde_json::to_string` of a string: the JSON string that stands for the text,
/// with nothing escaped but what `json_char` says. Serialising a string into memory
/// does not fail.
#[verifier::external_body]
fn quote(text: &str) -> (r: String)
    ensures
        r@ == json_string(text@),
{
    serde_json::to_string(text).unwrap()
}

/// The body of a request, from the model and the prompt as JSON strings.
pub open spec fn body_of(model: Seq<char>, prompt: Seq<char>) -> Seq<char> {
    "{\"model\":"@ + model + ",\"options\":{\"temperature\":0.2},\"prompt\":"@ + prompt
        + ",\"stream\":true}"@
}

/// Puts the body together from the model and the prompt as JSON strings.
pub fn frame_body(model: &str, prompt: &str) -> (r: String)
    ensures
        r@ == body_of(model@, prompt@),
{
    let head = concat2("{\"model\":", model);
    let mut r = concat3(head.as_str(), ",\"options\":{\"temperature\":0.2},\"prompt\":", prompt);
    r.append(",\"stream\":true}");
    r
}

/// The body of the request for a streamed completion of `prompt` by `model`.
pub fn request_body(model: &str, prompt: &str) -> (r: String)
    ensures
        r@ == body_of(json_string(model@), json_string(prompt@)),
{
    frame_body(quote(model).as_str(), quote(prompt).as_str())
}

// ---------- one line of the reply ----------

/// What stands behind a key of a JSON object, as far as a reply is read.
#[derive(Debug)]
pub enum JsonField {
    Text(String),
    Flag(bool),
    Other,
}

pub enum FieldModel {
    Text(Seq<char>),
    Flag(bool),
    Other,
}

impl DeepView for JsonField {
    type V = FieldModel;

    open spec fn deep_view(&self) -> FieldModel {
        match self {
            JsonField::Text(s) => FieldModel::Text(s@),
            JsonField::Flag(b) => FieldModel::Flag(*b),
            JsonField::Other => FieldModel::Other,
        }
    }
}

/// The members of the JSON object that `text` holds, each key once; none for JSON
/// that is no object; `None` where `text` is not JSON.
pub uninterp spec fn json_members(text: Seq<char>) -> Option<Seq<(Seq<char>, FieldModel)>>;

/// `serde_json::from_str` into a `serde_json::Value`. The result is named, not
/// described: whether the text is JSON, and the members of the object that it
/// holds, depend on the text alone.
#[verifier::external_body]
fn parse(text: &str) -> (r: Option<Vec<(String, JsonField)>>)
    ensures
        r.deep_view() == json_members(text@),
{
    match serde_json::from_str::<serde_json::Value>(text) {
        Ok(serde_json::Value::Object(map)) => Some(
            map.into_iter().map(|(key, value)| match value {
                serde_json::Value::String(s) => (key, JsonField::Text(s)),
                serde_json::Value::Bool(b) => (key, JsonField::Flag(b)),
                _ => (key, JsonField::Other),
            }).collect(),
        ),
        Ok(_) => Some(Vec::new()),
        Err(_) => None,
    }
}

/// What the member `key` holds.
pub open spec fn member(
    members: Seq<(Seq<char>, FieldModel)>,
    key: Seq<char>,
) -> Option<FieldModel>
    decreases members.len(),
{
    if members.len() == 0 {
        None
    } else if members[0].0 == key {
        Some(members[0].1)
    } else {
        member(members.drop_first(), key)
    }
}

/// The text of the member `key`, where it is a text.
pub open spec fn text_member(
    members: Seq<(Seq<char>, FieldModel)>,
    key: Seq<char>,
) -> Option<Seq<char>> {
    match member(members, key) {
        Some(FieldModel::Text(s)) => Some(s),
        _ => None,
    }
}

fn find<'a>(members: &'a Vec<(String, JsonField)>, key: &str) -> (r: Option<&'a JsonField>)
    ensures
        r is Some == member(members.deep_view(), key@) is Some,
        r is Some ==> r->0.deep_view() == member(members.deep_view(), key@)->0,
{
    let ghost all = members.deep_view();
    assert(all.skip(0) =~= all);
    for i in 0..members.len()
        invariant
            all == members.deep_view(),
            member(all.skip(i as int), key@) == member(all, key@),
    {
        assert(all.skip(i as int).drop_first() =~= all.skip(i + 1));
        assert(all[i as int] == (members@[i as int].0@, members@[i as int].1.deep_view()));
        if str_eq(members[i].0.as_str(), key) {
            return Some(&members[i].1);
        }
    }
    None
}

/// The events that a line of the reply makes, from its members. An error ends the
/// request at once. A response that is not empty is a token, and a true `done`
/// ends the request behind it.
pub open spec fn members_events(id: u64, members: Seq<(Seq<char>, FieldModel)>) -> Seq<EventModel> {
    match text_member(members, "error"@) {
        Some(err) => seq![EventModel::Failed { id, text: "ollama: "@ + err }],
        None => {
            let token: Seq<EventModel> = match text_member(members, "response"@) {
                Some(delta) => if delta.len() > 0 {
                    seq![EventModel::Token { id, delta }]
                } else {
                    seq![]
                },
                None => seq![],
            };
            if member(members, "done"@) == Some(FieldModel::Flag(true)) {
                token.push(EventModel::Done { id })
            } else {
                token
            }
        },
    }
}

/// The events that a line of the reply makes, from its members.
pub fn on_members(id: u64, members: &Vec<(String, JsonField)>) -> (r: Vec<AppEvent>)
    ensures
        r.deep_view() == members_events(id, members.deep_view()),
{
    let mut events: Vec<AppEvent> = Vec::new();
    if let Some(JsonField::Text(err)) = find(members, "error") {
        events.push(AppEvent::Failed { id, text: concat2("ollama: ", err.as_str()) });
        assert(events.deep_view() =~= members_events(id, members.deep_view()));
        return events;
    }
    if let Some(JsonField::Text(delta)) = find(members, "response") {
        if !delta.as_str().is_empty() {
            events.push(AppEvent::Token { id, delta: delta.clone() });
        }
    }
    if let Some(JsonField::Flag(true)) = find(members, "done") {
        events.push(AppEvent::Done { id });
    }
    assert(events.deep_view() =~= members_events(id, members.deep_view()));
    events
}

// ---------- the stream ----------

/// What the stream has next: the user's wish to stop, a line, or its end.
#[derive(Debug)]
pub enum StreamInput {
    Cancelled,
    Line(String),
    Eof,
    Broke(String),
}

pub enum InputModel {
    Cancelled,
    Line(Seq<char>),
    Eof,
    Broke(Seq<char>),
}

impl View for StreamInput {
    type V = InputModel;

    open spec fn view(&self) -> InputModel {
        match self {
            StreamInput::Cancelled => InputModel::Cancelled,
            StreamInput::Line(s) => InputModel::Line(s@),
            StreamInput::Eof => InputModel::Eof,
            StreamInput::Broke(s) => InputModel::Broke(s@),
        }
    }
}

impl DeepView for StreamInput {
    type V = InputModel;

    open spec fn deep_view(&self) -> InputModel {
        self@
    }
}

/// The events that one step of the stream makes. A blank line and one that is not
/// JSON are skipped.
pub open spec fn step_events(id: u64, input: InputModel) -> Seq<EventModel> {
    match input {
        InputModel::Cancelled => seq![
            EventModel::Note { id, text: "[cancelled]"@ },
            EventModel::Done { id },
        ],
        InputModel::Line(s) => if text::trimmed(s).len() == 0 {
            seq![]
        } else {
            match json_members(text::trimmed(s)) {
                Some(members) => members_events(id, members),
                None => seq![],
            }
        },
        InputModel::Eof => seq![EventModel::Done { id }],
        InputModel::Broke(e) => seq![EventModel::Failed { id, text: "stream broke: "@ + e }],
    }
}

/// True when the stream is over after these events.
pub open spec fn is_over(events: Seq<EventModel>) -> bool {
    events.len() > 0 && events.last().is_terminal()
}

/// Takes the next step of the stream. The stream is over once the last event is a
/// terminal one.
pub fn step(id: u64, input: &StreamInput) -> (r: Vec<AppEvent>)
    ensures
        r.deep_view() == step_events(id, input@),
{
    let mut events: Vec<AppEvent> = Vec::new();
    match input {
        StreamInput::Cancelled => {
            events.push(AppEvent::Note { id, text: String::from_str("[cancelled]") });
            events.push(AppEvent::Done { id });
        },
        StreamInput::Line(line) => {
            let trimmed = trim(line.as_str());
            if !trimmed.as_str().is_empty() {
                if let Some(members) = parse(trimmed.as_str()) {
                    events = on_members(id, &members);
                }
            }
        },
        StreamInput::Eof => {
            events.push(AppEvent::Done { id });
        },
        StreamInput::Broke(e) => {
            events.push(AppEvent::Failed { id, text: concat2("stream broke: ", e.as_str()) });
        },
    }
    assert(events.deep_view() =~= step_events(id, input@));
    events
}

/// The events of a stream: those of its steps, up to the one that ends it.
pub open spec fn stream_events(id: u64, inputs: Seq<InputModel>) -> Seq<EventModel>
    decreases inputs.len(),
{
    if inputs.len() == 0 {
        seq![]
    } else {
        let first = step_events(id, inputs[0]);
        if is_over(first) {
            first
        } else {
            first + stream_events(id, inputs.drop_first())
        }
    }
}

/// How Ollama answered: with an error status, not at all, or with a stream.
#[derive(Debug)]
pub enum Answer {
    Status { code: u16, detail: String },
    Unreachable(String),
    Stream(Vec<StreamInput>),
}

pub enum AnswerModel {
    Status { code: u16, detail: Seq<char> },
    Unreachable(Seq<char>),
    Stream(Seq<InputModel>),
}

impl View for Answer {
    type V = AnswerModel;

    open spec fn view(&self) -> AnswerModel {
        match self {
            Answer::Status { code, detail } => AnswerModel::Status { code: *code, detail: detail@ },
            Answer::Unreachable(e) => AnswerModel::Unreachable(e@),
            Answer::Stream(inputs) => AnswerModel::Stream(inputs.deep_view()),
        }
    }
}

/// The events that an answer makes.
pub open spec fn answer_events(base_url: Seq<char>, id: u64, answer: AnswerModel) -> Seq<
    EventModel,
> {
    match answer {
        AnswerModel::Status { code, detail } => seq![
            EventModel::Failed {
                id,
                text: "ollama returned "@ + text::decimal(code as nat) + ": "@ + text::trimmed(
                    detail,
                ),
            },
        ],
        AnswerModel::Unreachable(e) => seq![
            EventModel::Failed {
                id,
                text: "cannot reach ollama at "@ + base_url + " ("@ + e
                    + "). is `ollama serve` running?"@,
            },
        ],
        AnswerModel::Stream(inputs) => stream_events(id, inputs),
    }
}

/// True when the stream comes to an end, whatever its lines hold.
pub open spec fn comes_to_an_end(answer: AnswerModel) -> bool {
    answer matches AnswerModel::Stream(inputs) ==> exists|i: int|
        0 <= i < inputs.len() && !(#[trigger] inputs[i] is Line)
}

/// The events that Ollama's answer to request `id` makes.
///
/// Always emits exactly one terminal event (`Done` or `Failed`) so the caller
/// can rely on `busy` being cleared.
pub fn generate(base_url: &str, id: u64, answer: &Answer) -> (r: Vec<AppEvent>)
    ensures
        r.deep_view() == answer_events(base_url@, id, answer@),
        comes_to_an_end(answer@) ==> event::ends_once(r.deep_view(), id),
{
    proof {
        if comes_to_an_end(answer@) {
            one_terminal_event(base_url@, id, answer@);
        }
    }
    let mut events: Vec<AppEvent> = Vec::new();
    match answer {
        Answer::Status { code, detail } => {
            let head = concat3("ollama returned ", number(*code as u64).as_str(), ": ");
            events.push(
                AppEvent::Failed {
                    id,
                    text: concat2(head.as_str(), trim(detail.as_str()).as_str()),
                },
            );
            assert(events.deep_view() =~= answer_events(base_url@, id, answer@));
        },
        Answer::Unreachable(e) => {
            let head = concat3("cannot reach ollama at ", base_url, " (");
            events.push(
                AppEvent::Failed {
                    id,
                    text: concat3(head.as_str(), e.as_str(), "). is `ollama serve` running?"),
                },
            );
            assert(events.deep_view() =~= answer_events(base_url@, id, answer@));
        },
        Answer::Stream(inputs) => {
            let ghost all = inputs.deep_view();
            assert(all.skip(0) =~= all);
            assert(events.deep_view() + stream_events(id, all) =~= stream_events(id, all));
            for i in 0..inputs.len()
                invariant
                    all == inputs.deep_view(),
                    comes_to_an_end(AnswerModel::Stream(all)) ==> event::ends_once(
                        stream_events(id, all),
                        id,
                    ),
                    answer@ == AnswerModel::Stream(all),
                    events.deep_view() + stream_events(id, all.skip(i as int)) == stream_events(
                        id,
                        all,
                    ),
            {
                let ghost seen = events.deep_view();
                let mut next = step(id, &inputs[i]);
                let ghost new = next.deep_view();
                let over = next.len() > 0 && next[next.len() - 1].is_terminal();
                assert(all.skip(i as int)[0] == inputs@[i as int]@);
                assert(all.skip(i as int).drop_first() =~= all.skip(i + 1));
                events.append(&mut next);
                assert(events.deep_view() =~= seen + new);
                assert(seen + (new + stream_events(id, all.skip(i + 1))) =~= (seen + new)
                    + stream_events(id, all.skip(i + 1)));
                if over {
                    return events;
                }
            }
            assert(stream_events(id, all.skip(all.len() as int)) =~= seq![]);
            assert(events.deep_view() =~= stream_events(id, all));
        },
    }
    events
}

// ---------- what holds of every answer ----------

/// Every step either leaves the request running or ends it, with one terminal
/// event, the last.
pub proof fn steps_end_once_or_go_on(id: u64, input: InputModel)
    ensures
        is_over(step_events(id, input)) ==> event::ends_once(step_events(id, input), id),
        !is_over(step_events(id, input)) ==> event::goes_on(step_events(id, input), id),
        !(input is Line) ==> is_over(step_events(id, input)),
{
}

proof fn streams_end_once(id: u64, inputs: Seq<InputModel>)
    ensures
        is_over(stream_events(id, inputs)) ==> event::ends_once(stream_events(id, inputs), id),
        !is_over(stream_events(id, inputs)) ==> event::goes_on(stream_events(id, inputs), id),
        (exists|i: int| 0 <= i < inputs.len() && !(#[trigger] inputs[i] is Line)) ==> is_over(
            stream_events(id, inputs),
        ),
    decreases inputs.len(),
{
    if inputs.len() > 0 {
        let rest = inputs.drop_first();
        let first = step_events(id, inputs[0]);
        steps_end_once_or_go_on(id, inputs[0]);
        streams_end_once(id, rest);
        if exists|i: int| 0 <= i < inputs.len() && !(#[trigger] inputs[i] is Line) {
            let i = choose|i: int| 0 <= i < inputs.len() && !(#[trigger] inputs[i] is Line);
            if i > 0 {
                assert(!(rest[i - 1] is Line));
            }
        }
        if !is_over(first) {
            let tail = stream_events(id, rest);
            let all = first + tail;
            assert(stream_events(id, inputs) == all);
            if tail.len() == 0 {
                assert(all =~= first);
            } else {
                assert(all.last() == tail.last());
            }
            assert forall|i: int| 0 <= i < all.len() implies (#[trigger] all[i]).request() == Some(
                id,
            ) by {
                if i >= first.len() {
                    assert(all[i] == tail[i - first.len()]);
                } else {
                    assert(all[i] == first[i]);
                }
            }
            assert forall|i: int| 0 <= i < all.len() && (i < all.len() - 1 || !is_over(all))
                implies !(#[trigger] all[i]).is_terminal() by {
                if i >= first.len() {
                    assert(all[i] == tail[i - first.len()]);
                } else {
                    assert(all[i] == first[i]);
                }
            }
        }
    }
}

/// An answer makes exactly one terminal event, and nothing behind it, once it
/// comes to an end.
pub proof fn one_terminal_event(base_url: Seq<char>, id: u64, answer: AnswerModel)
    requires
        comes_to_an_end(answer),
    ensures
        event::ends_once(answer_events(base_url, id, answer), id),
{
    if let AnswerModel::Stream(inputs) = answer {
        streams_end_once(id, inputs);
    }
}

/// Lines that are blank or not JSON change nothing, wherever in the stream they
/// stand.
pub proof fn malformed_lines_are_skipped(
    id: u64,
    head: Seq<InputModel>,
    line: Seq<char>,
    tail: Seq<InputModel>,
)
    requires
        text::trimmed(line).len() == 0 || json_members(text::trimmed(line)) is None,
    ensures
        stream_events(id, head + seq![InputModel::Line(line)] + tail) == stream_events(
            id,
            head + tail,
        ),
    decreases head.len(),
{
    let one = seq![InputModel::Line(line)];
    if head.len() == 0 {
        assert(head + one + tail =~= one + tail);
        assert((one + tail).drop_first() =~= tail);
        assert(head + tail =~= tail);
        assert(stream_events(id, one + tail) =~= stream_events(id, tail));
    } else {
        malformed_lines_are_skipped(id, head.drop_first(), line, tail);
        assert((head + one + tail).drop_first() =~= head.drop_first() + one + tail);
        assert((head + tail).drop_first() =~= head.drop_first() + tail);
    }
}

/// A stream that has not ended goes on with what follows, and one that has ended
/// takes no notice of it: events come in the order of the steps, and nothing comes
/// behind a terminal one.
pub proof fn streams_run_on(id: u64, head: Seq<InputModel>, tail: Seq<InputModel>)
    ensures
        is_over(stream_events(id, head)) ==> stream_events(id, head + tail) == stream_events(
            id,
            head,
        ),
        !is_over(stream_events(id, head)) ==> stream_events(id, head + tail) == stream_events(
            id,
            head,
        ) + stream_events(id, tail),
    decreases head.len(),
{
    if head.len() == 0 {
        assert(head + tail =~= tail);
        assert(stream_events(id, head) + stream_events(id, tail) =~= stream_events(id, tail));
    } else {
        let first = step_events(id, head[0]);
        let rest = head.drop_first();
        streams_run_on(id, rest, tail);
        assert((head + tail).drop_first() =~= rest + tail);
        assert((head + tail)[0] == head[0]);
        if !is_over(first) {
            let more = stream_events(id, rest);
            if more.len() > 0 {
                assert((first + more).last() == more.last());
            } else {
                assert(first + more =~= first);
            }
            assert(first + (more + stream_events(id, tail)) =~= (first + more) + stream_events(
                id,
                tail,
            ));
        }
    }
}

/// A line with an error ends the request there, without a `Done`, whatever follows.
pub proof fn an_error_ends_the_request(
    id: u64,
    line: Seq<char>,
    members: Seq<(Seq<char>, FieldModel)>,
    err: Seq<char>,
    tail: Seq<InputModel>,
)
    requires
        text::trimmed(line).len() > 0,
        json_members(text::trimmed(line)) == Some(members),
        text_member(members, "error"@) == Some(err),
    ensures
        stream_events(id, seq![InputModel::Line(line)] + tail) == seq![
            EventModel::Failed { id, text: "ollama: "@ + err },
        ],
{
    let inputs = seq![InputModel::Line(line)] + tail;
    assert(inputs[0] == InputModel::Line(line));
    assert(stream_events(id, inputs) =~= members_events(id, members));
}

// ---------- what an answer says ----------

/// Of a server's address nothing goes but the slashes at its end. The result says how
/// much is kept.
pub proof fn only_slashes_at_the_end_go(s: Seq<char>) -> (k: int)
    ensures
        0 <= k <= s.len(),
        without_slashes(s) == s.take(k),
        forall|i: int| k <= i < s.len() ==> #[trigger] s[i] == '/',
        k > 0 ==> s[k - 1] != '/',
    decreases s.len(),
{
    if s.len() > 0 && s.last() == '/' {
        let rest = s.drop_last();
        let k = only_slashes_at_the_end_go(rest);
        assert(rest.take(k) =~= s.take(k));
        assert forall|i: int| k <= i < s.len() implies #[trigger] s[i] == '/' by {
            if i < rest.len() {
                assert(rest[i] == '/');
            }
        }
        k
    } else {
        assert(s.take(s.len() as int) =~= s);
        s.len() as int
    }
}

/// The body holds the model and the prompt whole, each in its place, and nothing else
/// in it depends on them.
pub proof fn the_body_holds_the_model_and_the_prompt(model: Seq<char>, prompt: Seq<char>)
    ensures
        ({
            let body = body_of(model, prompt);
            let at = 9 + model.len() as int;
            let end = at + 40 + prompt.len() as int;
            &&& body.len() == end + 15
            &&& body.take(9) == "{\"model\":"@
            &&& body.subrange(9, at) == model
            &&& body.subrange(at, at + 40) == ",\"options\":{\"temperature\":0.2},\"prompt\":"@
            &&& body.subrange(at + 40, end) == prompt
            &&& body.skip(end) == ",\"stream\":true}"@
        }),
{
    reveal_strlit("{\"model\":");
    reveal_strlit(",\"options\":{\"temperature\":0.2},\"prompt\":");
    reveal_strlit(",\"stream\":true}");
    let body = body_of(model, prompt);
    let at = 9 + model.len() as int;
    let end = at + 40 + prompt.len() as int;
    assert(body.take(9) =~= "{\"model\":"@);
    assert(body.subrange(9, at) =~= model);
    assert(body.subrange(at, at + 40) =~= ",\"options\":{\"temperature\":0.2},\"prompt\":"@);
    assert(body.subrange(at + 40, end) =~= prompt);
    assert(body.skip(end) =~= ",\"stream\":true}"@);
}

/// A member is found by its key, and where a key stands twice the first one counts. The
/// result is its place.
pub proof fn members_are_found_by_their_keys(
    members: Seq<(Seq<char>, FieldModel)>,
    key: Seq<char>,
) -> (i: int)
    ensures
        member(members, key) is Some ==> 0 <= i < members.len() && members[i].0 == key && member(
            members,
            key,
        ) == Some(members[i].1),
        member(members, key) is None ==> i == members.len(),
        forall|j: int| 0 <= j < i ==> (#[trigger] members[j]).0 != key,
    decreases members.len(),
{
    if members.len() == 0 || members[0].0 == key {
        0
    } else {
        let rest = members.drop_first();
        let i = members_are_found_by_their_keys(rest, key);
        assert forall|j: int| 0 <= j < i + 1 implies (#[trigger] members[j]).0 != key by {
            if j > 0 {
                assert(rest[j - 1] == members[j]);
            }
        }
        i + 1
    }
}

/// A text member is the text that stands behind its key, as it is.
pub proof fn text_members_are_whole(
    members: Seq<(Seq<char>, FieldModel)>,
    key: Seq<char>,
    value: Seq<char>,
)
    ensures
        text_member(members, key) == Some(value) <==> member(members, key) == Some(
            FieldModel::Text(value),
        ),
{
}

/// A line with an error makes one event, which ends the request and says what the error
/// was. On any other line a response that is not empty makes a token with that response
/// as it is, character for character; a true `done` makes the end of the request, behind
/// the token; and nothing else makes anything.
pub proof fn lines_say_what_their_members_hold(id: u64, members: Seq<(Seq<char>, FieldModel)>)
    ensures
        ({
            let events = members_events(id, members);
            let done = member(members, "done"@) == Some(FieldModel::Flag(true));
            match member(members, "error"@) {
                Some(FieldModel::Text(err)) => events == seq![
                    EventModel::Failed { id, text: "ollama: "@ + err },
                ],
                _ => match member(members, "response"@) {
                    Some(FieldModel::Text(s)) if s.len() > 0 => {
                        &&& events.len() == (if done { 2int } else { 1int })
                        &&& events[0] == EventModel::Token { id, delta: s }
                        &&& laws::token_text(events) == s
                        &&& done ==> events[1] == EventModel::Done { id }
                    },
                    _ => {
                        &&& events.len() == (if done { 1int } else { 0int })
                        &&& laws::token_text(events).len() == 0
                        &&& done ==> events[0] == EventModel::Done { id }
                    },
                },
            }
        }),
{
    let events = members_events(id, members);
    let none = Seq::<EventModel>::empty();
    laws::tokens_count_with_their_text(none, EventModel::Done { id });
    if let Some(FieldModel::Text(s)) = member(members, "response"@) {
        let one = none.push(EventModel::Token { id, delta: s });
        laws::tokens_count_with_their_text(none, EventModel::Token { id, delta: s });
        laws::tokens_count_with_their_text(one, EventModel::Done { id });
        assert(seq![EventModel::Token { id, delta: s }] =~= one);
        assert(laws::token_text(one) =~= s);
    }
    assert(seq![EventModel::Done { id }] =~= none.push(EventModel::Done { id }));
    if member(members, "done"@) == Some(FieldModel::Flag(true)) && events.len() == 1 {
        assert(events =~= none.push(events[0]));
    }
}

/// True for a line that goes on with the answer: it holds no error and no true `done`.
pub open spec fn speaks_on(input: InputModel) -> bool {
    input matches InputModel::Line(s) && (text::trimmed(s).len() > 0 ==> (json_members(
        text::trimmed(s),
    ) matches Some(members) ==> !(member(members, "error"@) matches Some(FieldModel::Text(_)))
        && member(members, "done"@) != Some(FieldModel::Flag(true))))
}

/// What a line says: its response, unless it is blank, is not JSON or holds an error.
pub open spec fn response_of(input: InputModel) -> Seq<char> {
    match input {
        InputModel::Line(s) => match json_members(text::trimmed(s)) {
            Some(members) => match (member(members, "error"@), member(members, "response"@)) {
                (Some(FieldModel::Text(_)), _) => seq![],
                (_, Some(FieldModel::Text(said))) => if text::trimmed(s).len() > 0 {
                    said
                } else {
                    seq![]
                },
                _ => seq![],
            },
            None => seq![],
        },
        _ => seq![],
    }
}

/// The responses of the lines, one after the other.
pub open spec fn responses(inputs: Seq<InputModel>) -> Seq<char>
    decreases inputs.len(),
{
    if inputs.len() == 0 {
        seq![]
    } else {
        response_of(inputs[0]) + responses(inputs.drop_first())
    }
}

proof fn steps_say_their_response(id: u64, input: InputModel)
    ensures
        laws::token_text(step_events(id, input)) == response_of(input),
        speaks_on(input) ==> !is_over(step_events(id, input)),
{
    let events = step_events(id, input);
    let none = Seq::<EventModel>::empty();
    laws::tokens_count_with_their_text(none, EventModel::Done { id });
    match input {
        InputModel::Line(s) => {
            if let Some(members) = json_members(text::trimmed(s)) {
                lines_say_what_their_members_hold(id, members);
                if text_member(members, "error"@) is Some {
                    laws::tokens_count_with_their_text(none, events[0]);
                    assert(text::trimmed(s).len() > 0 ==> events =~= none.push(events[0]));
                }
                assert(laws::token_text(events) =~= response_of(input));
            }
        },
        InputModel::Cancelled => {
            let one = none.push(events[0]);
            laws::tokens_count_with_their_text(none, events[0]);
            laws::tokens_count_with_their_text(one, events[1]);
            assert(events =~= one.push(events[1]));
            assert(laws::token_text(events) =~= seq![]);
        },
        _ => {
            laws::tokens_count_with_their_text(none, events[0]);
            assert(events =~= none.push(events[0]));
            assert(laws::token_text(events) =~= seq![]);
        },
    }
}

/// An answer reads as its lines do: the tokens of a stream, one after the other, are the
/// responses of its lines, with nothing left out, added or changed. Whatever ends the
/// stream may stand in its last place.
pub proof fn an_answer_reads_as_its_lines(id: u64, inputs: Seq<InputModel>)
    requires
        forall|i: int| 0 <= i < inputs.len() - 1 ==> speaks_on(#[trigger] inputs[i]),
    ensures
        laws::token_text(stream_events(id, inputs)) == responses(inputs),
    decreases inputs.len(),
{
    if inputs.len() > 0 {
        let first = step_events(id, inputs[0]);
        let rest = inputs.drop_first();
        steps_say_their_response(id, inputs[0]);
        assert forall|i: int| 0 <= i < rest.len() - 1 implies speaks_on(#[trigger] rest[i]) by {
            assert(rest[i] == inputs[i + 1]);
        }
        an_answer_reads_as_its_lines(id, rest);
        laws::token_texts_add_up(first, stream_events(id, rest));
        if inputs.len() == 1 {
            assert(rest =~= seq![]);
            assert(response_of(inputs[0]) + responses(rest) =~= response_of(inputs[0]));
        }
    }
}

/// A stream is over with the first step that makes a `Done` or a `Failed`, and not before.
/// A line that is blank or not JSON makes nothing at all.
pub proof fn streams_are_over_with_done_or_failed(
    id: u64,
    events: Seq<EventModel>,
    line: Seq<char>,
    inputs: Seq<InputModel>,
)
    ensures
        is_over(events) <==> events.len() > 0 && (events.last() is Done || events.last() is Failed),
        text::trimmed(line).len() == 0 || json_members(text::trimmed(line)) is None
            ==> step_events(id, InputModel::Line(line)).len() == 0,
        stream_events(id, seq![]).len() == 0,
        inputs.len() > 0 ==> step_events(id, inputs[0]).is_prefix_of(stream_events(id, inputs)),
{
    if inputs.len() > 0 {
        let first = step_events(id, inputs[0]);
        assert(stream_events(id, inputs).take(first.len() as int) =~= first);
    }
}

/// What is not a line of the stream says in words how it ended.
pub proof fn endings_are_told(id: u64, base_url: Seq<char>, code: u16, detail: Seq<char>)
    ensures
        step_events(id, InputModel::Cancelled) == seq![
            EventModel::Note { id, text: "[cancelled]"@ },
            EventModel::Done { id },
        ],
        step_events(id, InputModel::Eof) == seq![EventModel::Done { id }],
        step_events(id, InputModel::Broke(detail)) == seq![
            EventModel::Failed { id, text: "stream broke: "@ + detail },
        ],
        answer_events(base_url, id, AnswerModel::Status { code, detail }) == seq![
            EventModel::Failed {
                id,
                text: "ollama returned "@ + text::decimal(code as nat) + ": "@ + text::trimmed(
                    detail,
                ),
            },
        ],
        answer_events(base_url, id, AnswerModel::Unreachable(detail)) == seq![
            EventModel::Failed {
                id,
                text: "cannot reach ollama at "@ + base_url + " ("@ + detail
                    + "). is `ollama serve` running?"@,
            },
        ],
{
}

} // verus!
