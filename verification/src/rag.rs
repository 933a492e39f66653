//! The helper processes: retrieval, indexing, shell commands and the agent. What
//! is run, and what its output means.
use vstd::prelude::*;
use vstd::string::StringExecFns;
use vstd::utf8::*;

use crate::config;
use crate::config::{join_path, Config};
use crate::event;
use crate::event::{AppEvent, EventModel};
use crate::text;
use crate::text::{blank, concat2, concat3, lines, str_eq, trim, trim_end};

verus! {

// ---------- what is run ----------

/// A program and its arguments.
pub struct CommandLine {
    pub program: String,
    pub args: Vec<String>,
}

pub struct CommandModel {
    pub program: Seq<char>,
    pub args: Seq<Seq<char>>,
}

impl View for CommandLine {
    type V = CommandModel;

    open spec fn view(&self) -> CommandModel {
        CommandModel { program: self.program@, args: self.args.deep_view() }
    }
}

/// The interpreter of the virtual environment under `root`.
pub fn venv_python(root: &str) -> (r: String)
    ensures
        r@ == config::path_in(root@, "rag/venv/bin/python3"@),
{
    join_path(root, "rag/venv/bin/python3")
}

/// The interpreter: the virtual environment's, where it is a file, and the
/// system's otherwise.
pub open spec fn python_of(root: Seq<char>, venv_is_file: bool) -> Seq<char> {
    if venv_is_file {
        config::path_in(root, "rag/venv/bin/python3"@)
    } else {
        "python3"@
    }
}

/// Prefer the venv interpreter, fall back to the system one.
pub fn python(root: &str, venv_is_file: bool) -> (r: String)
    ensures
        r@ == python_of(root@, venv_is_file),
{
    if venv_is_file {
        venv_python(root)
    } else {
        String::from_str("python3")
    }
}

/// The retrieval script under `root`.
pub fn script(root: &str) -> (r: String)
    ensures
        r@ == config::path_in(root@, "rag/rag.py"@),
{
    join_path(root, "rag/rag.py")
}

/// The agent's script under `root`.
pub fn agent_script(root: &str) -> (r: String)
    ensures
        r@ == config::path_in(root@, "agent/agent.py"@),
{
    join_path(root, "agent/agent.py")
}

/// What retrieves the context for `question`.
pub fn query_command(root: &str, venv_is_file: bool, question: &str) -> (r: CommandLine)
    ensures
        r@.program == python_of(root@, venv_is_file),
        r@.args == seq![
            config::path_in(root@, "rag/rag.py"@),
            "query"@,
            question@,
            "--debug"@,
        ],
{
    let mut args: Vec<String> = Vec::new();
    args.push(script(root));
    args.push(String::from_str("query"));
    args.push(String::from_str(question));
    args.push(String::from_str("--debug"));
    CommandLine { program: python(root, venv_is_file), args }
}

/// What builds or refreshes the index of `dir`.
pub fn index_command(root: &str, venv_is_file: bool, dir: &str) -> (r: CommandLine)
    ensures
        r@.program == python_of(root@, venv_is_file),
        r@.args == seq![config::path_in(root@, "rag/rag.py"@), "index"@, dir@],
{
    let mut args: Vec<String> = Vec::new();
    args.push(script(root));
    args.push(String::from_str("index"));
    args.push(String::from_str(dir));
    CommandLine { program: python(root, venv_is_file), args }
}

/// What runs `cmd` in a shell.
pub fn shell_command(cmd: &str) -> (r: CommandLine)
    ensures
        r@.program == "sh"@,
        r@.args == seq!["-c"@, cmd@],
{
    let mut args: Vec<String> = Vec::new();
    args.push(String::from_str("-c"));
    args.push(String::from_str(cmd));
    CommandLine { program: String::from_str("sh"), args }
}

/// What sets the agent to work on `task` with `model`.
pub fn agent_command(root: &str, venv_is_file: bool, task: &str, model: &str) -> (r: CommandLine)
    ensures
        r@.program == python_of(root@, venv_is_file),
        r@.args == seq![
            config::path_in(root@, "agent/agent.py"@),
            task@,
            "--model"@,
            model@,
            "--yes"@,
        ],
{
    let mut args: Vec<String> = Vec::new();
    args.push(agent_script(root));
    args.push(String::from_str(task));
    args.push(String::from_str("--model"));
    args.push(String::from_str(model));
    args.push(String::from_str("--yes"));
    CommandLine { program: python(root, venv_is_file), args }
}

// ---------- what a session runs, and where ----------

/// What retrieves the context for `question`, and the directory that it works in.
/// The interpreter and the script are the installation's, and the work is done in
/// the project.
pub fn query_line_for(cfg: &Config, venv_is_file: bool, question: &str) -> (r: (
    CommandLine,
    String,
))
    ensures
        r.0@.program == python_of(cfg.home@, venv_is_file),
        r.0@.args == seq![
            config::path_in(cfg.home@, "rag/rag.py"@),
            "query"@,
            question@,
            "--debug"@,
        ],
        r.1@ == cfg.root@,
{
    (query_command(cfg.home.as_str(), venv_is_file, question), cfg.root.clone())
}

/// What builds or refreshes the index of `dir`, and the directory that it works in.
pub fn index_line_for(cfg: &Config, venv_is_file: bool, dir: &str) -> (r: (CommandLine, String))
    ensures
        r.0@.program == python_of(cfg.home@, venv_is_file),
        r.0@.args == seq![config::path_in(cfg.home@, "rag/rag.py"@), "index"@, dir@],
        r.1@ == cfg.root@,
{
    (index_command(cfg.home.as_str(), venv_is_file, dir), cfg.root.clone())
}

/// What sets the agent to work on `task` with `model`, and the directory that it works
/// in. The agent operates on the user's project.
pub fn agent_line_for(cfg: &Config, venv_is_file: bool, task: &str, model: &str) -> (r: (
    CommandLine,
    String,
))
    ensures
        r.0@.program == python_of(cfg.home@, venv_is_file),
        r.0@.args == seq![
            config::path_in(cfg.home@, "agent/agent.py"@),
            task@,
            "--model"@,
            model@,
            "--yes"@,
        ],
        r.1@ == cfg.root@,
{
    (agent_command(cfg.home.as_str(), venv_is_file, task, model), cfg.root.clone())
}

// ---------- what came out ----------

/// What a process that ran to its end left behind. `status` is its exit status as
/// it is shown to the user.
#[derive(Debug)]
pub struct ProcessOutput {
    pub success: bool,
    pub status: String,
    pub stdout: Vec<u8>,
    pub stderr: Vec<u8>,
}

/// `bytes` as text, with a replacement character for what is not UTF-8.
pub uninterp spec fn lossy_text(bytes: Seq<u8>) -> Seq<char>;

/// `String::from_utf8_lossy`. The result is named, and depends on the bytes alone;
/// bytes that are UTF-8 come out as the text that they encode.
#[verifier::external_body]
fn decode(bytes: &Vec<u8>) -> (r: String)
    ensures
        r@ == lossy_text(bytes@),
        valid_utf8(bytes@) ==> r@ == decode_utf8(bytes@),
{
    String::from_utf8_lossy(bytes).to_string()
}

/// What retrieval found.
#[derive(Debug)]
pub struct Retrieved {
    /// Candidate chunks with their cosine distances, newest-first as printed.
    /// These are the raw top-k BEFORE reranking and before the margin cut, so
    /// some of these will not actually be in the prompt.
    pub hits: Vec<String>,
    /// The grounded prompt, ready to send to Ollama.
    pub prompt: String,
}

#[derive(Debug)]
pub enum QueryOutcome {
    Found(Retrieved),
    NoContext,
    Failed(String),
}

pub enum OutcomeModel {
    Found { hits: Seq<Seq<char>>, prompt: Seq<char> },
    NoContext,
    Failed(Seq<char>),
}

impl View for QueryOutcome {
    type V = OutcomeModel;

    open spec fn view(&self) -> OutcomeModel {
        match self {
            QueryOutcome::Found(r) => OutcomeModel::Found { hits: r.hits.deep_view(), prompt: r.prompt@ },
            QueryOutcome::NoContext => OutcomeModel::NoContext,
            QueryOutcome::Failed(e) => OutcomeModel::Failed(e@),
        }
    }
}

/// The lines that are not blank, each trimmed.
pub open spec fn hits_in(lines: Seq<Seq<char>>) -> Seq<Seq<char>>
    decreases lines.len(),
{
    if lines.len() == 0 {
        seq![]
    } else {
        let before = hits_in(lines.drop_last());
        if text::is_blank(lines.last()) {
            before
        } else {
            before.push(text::trimmed(lines.last()))
        }
    }
}

/// What a failed process has to say for itself: its error output, or else that
/// `what` exited, with its status.
pub open spec fn complaint(what: Seq<char>, status: Seq<char>, errors: Seq<char>) -> Seq<char> {
    if text::is_blank(errors) {
        what + status
    } else {
        text::trimmed(errors)
    }
}

fn complain(what: &str, status: &str, errors: &str) -> (r: String)
    ensures
        r@ == complaint(what@, status@, errors@),
{
    if blank(errors) {
        concat2(what, status)
    } else {
        trim(errors)
    }
}

/// What a retrieval that ran to its end came to.
pub open spec fn outcome_of(
    success: bool,
    status: Seq<char>,
    stdout: Seq<char>,
    stderr: Seq<char>,
) -> OutcomeModel {
    if !success {
        OutcomeModel::Failed(complaint("rag.py exited "@, status, stderr))
    } else if text::trimmed(stdout) == "NO_RELEVANT_CONTEXT"@ {
        OutcomeModel::NoContext
    } else if text::is_blank(stdout) {
        OutcomeModel::Failed("rag.py produced no prompt"@)
    } else {
        OutcomeModel::Found { hits: hits_in(text::lines_of(stderr)), prompt: stdout }
    }
}

/// What a retrieval that ran to its end came to, from its output as text.
pub fn read_query(success: bool, status: &str, stdout: &str, stderr: &str) -> (r: QueryOutcome)
    ensures
        r@ == outcome_of(success, status@, stdout@, stderr@),
{
    if !success {
        return QueryOutcome::Failed(complain("rag.py exited ", status, stderr));
    }
    if str_eq(trim(stdout).as_str(), "NO_RELEVANT_CONTEXT") {
        return QueryOutcome::NoContext;
    }
    if blank(stdout) {
        return QueryOutcome::Failed(String::from_str("rag.py produced no prompt"));
    }
    let all = lines(stderr);
    let mut hits: Vec<String> = Vec::new();
    assert(hits.deep_view() =~= hits_in(all.deep_view().take(0)));
    for i in 0..all.len()
        invariant
            hits.deep_view() == hits_in(all.deep_view().take(i as int)),
    {
        let ghost seen = all.deep_view().take(i + 1);
        assert(seen.drop_last() =~= all.deep_view().take(i as int));
        assert(seen.last() == all@[i as int]@);
        let ghost old_hits = hits.deep_view();
        if !blank(all[i].as_str()) {
            let hit = trim(all[i].as_str());
            hits.push(hit);
            assert(hits.deep_view() =~= old_hits.push(hit@));
        }
    }
    assert(all.deep_view().take(all@.len() as int) =~= all.deep_view());
    QueryOutcome::Found(Retrieved { hits, prompt: String::from_str(stdout) })
}

/// What a retrieval came to; `run` is the process's output, or why it did not
/// start.
pub fn query(run: Result<ProcessOutput, String>) -> (r: QueryOutcome)
    ensures
        match run {
            Ok(out) => {
                &&& r@ == outcome_of(
                    out.success,
                    out.status@,
                    lossy_text(out.stdout@),
                    lossy_text(out.stderr@),
                )
                &&& valid_utf8(out.stdout@) && valid_utf8(out.stderr@) ==> r@ == outcome_of(
                    out.success,
                    out.status@,
                    decode_utf8(out.stdout@),
                    decode_utf8(out.stderr@),
                )
            },
            Err(e) => r@ == OutcomeModel::Failed("cannot run rag.py: "@ + e@),
        },
{
    match run {
        Ok(out) => read_query(
            out.success,
            out.status.as_str(),
            decode(&out.stdout).as_str(),
            decode(&out.stderr).as_str(),
        ),
        Err(e) => QueryOutcome::Failed(concat2("cannot run rag.py: ", e.as_str())),
    }
}

// ---------- a retrieval request ----------

/// The events that a retrieval makes, and the prompt to go on with.
pub open spec fn retrieval_events(id: u64, outcome: OutcomeModel, cancelled: bool) -> (
    Seq<EventModel>,
    Option<Seq<char>>,
) {
    match outcome {
        OutcomeModel::Found { hits, prompt } => if cancelled {
            (seq![EventModel::Sources { id, hits }, EventModel::Done { id }], None)
        } else {
            (seq![EventModel::Sources { id, hits }], Some(prompt))
        },
        OutcomeModel::NoContext => (
            seq![
                EventModel::Failed {
                    id,
                    text: "nothing relevant in the index for that question"@,
                },
            ],
            None,
        ),
        OutcomeModel::Failed(e) => (seq![EventModel::Failed { id, text: e }], None),
    }
}

/// What follows a retrieval: the events, and the prompt to be sent to Ollama
/// unless the request is over.
pub fn retrieved(id: u64, outcome: QueryOutcome, cancelled: bool) -> (r: (
    Vec<AppEvent>,
    Option<String>,
))
    ensures
        r.0.deep_view() == retrieval_events(id, outcome@, cancelled).0,
        r.1.deep_view() == retrieval_events(id, outcome@, cancelled).1,
{
    let mut events: Vec<AppEvent> = Vec::new();
    let mut prompt: Option<String> = None;
    let ghost expected = retrieval_events(id, outcome@, cancelled);
    match outcome {
        QueryOutcome::Found(found) => {
            events.push(AppEvent::Sources { id, hits: found.hits });
            if cancelled {
                events.push(AppEvent::Done { id });
            } else {
                prompt = Some(found.prompt);
            }
        },
        QueryOutcome::NoContext => {
            events.push(
                AppEvent::Failed {
                    id,
                    text: String::from_str("nothing relevant in the index for that question"),
                },
            );
        },
        QueryOutcome::Failed(e) => {
            events.push(AppEvent::Failed { id, text: e });
        },
    }
    assert(events.deep_view() =~= expected.0);
    (events, prompt)
}

/// A retrieval ends its request exactly when it leaves no prompt to send.
pub proof fn retrieval_ends_or_asks(id: u64, outcome: OutcomeModel, cancelled: bool)
    ensures
        ({
            let (events, prompt) = retrieval_events(id, outcome, cancelled);
            &&& prompt is None ==> event::ends_once(events, id)
            &&& prompt is Some ==> event::goes_on(events, id)
        }),
{
}

// ---------- indexing ----------

/// How a process that was waited for ended.
#[derive(Debug)]
pub enum Ending {
    Exited { success: bool, status: String },
    Lost(String),
}

/// What an indexing run reports.
#[derive(Debug)]
pub enum IndexInput {
    NotStarted(String),
    Line(String),
    Ended { errors: Vec<String>, ending: Ending },
}

/// Lines put back together, each with its newline.
pub open spec fn with_newlines(lines: Seq<Seq<char>>) -> Seq<char>
    decreases lines.len(),
{
    if lines.len() == 0 {
        seq![]
    } else {
        (with_newlines(lines.drop_last()) + lines.last()).push('\n')
    }
}

/// The event that an indexing run's report makes.
pub open spec fn index_event(id: u64, input: IndexInput) -> EventModel {
    match input {
        IndexInput::NotStarted(e) => EventModel::Failed { id, text: "cannot run rag.py: "@ + e@ },
        IndexInput::Line(line) => EventModel::Note { id, text: line@ },
        IndexInput::Ended { errors, ending } => match ending {
            Ending::Exited { success, status } => if success {
                EventModel::Done { id }
            } else {
                EventModel::Failed {
                    id,
                    text: complaint("index exited "@, status@, with_newlines(errors.deep_view())),
                }
            },
            Ending::Lost(e) => EventModel::Failed { id, text: e@ },
        },
    }
}

/// Forwards each line of progress as it appears, and reports how the run ended.
pub fn index(id: u64, input: IndexInput) -> (r: AppEvent)
    ensures
        r@ == index_event(id, input),
{
    match input {
        IndexInput::NotStarted(e) => AppEvent::Failed {
            id,
            text: concat2("cannot run rag.py: ", e.as_str()),
        },
        IndexInput::Line(line) => AppEvent::Note { id, text: line },
        IndexInput::Ended { errors, ending } => {
            let mut all = String::new();
            assert(all@ =~= with_newlines(errors.deep_view().take(0)));
            for i in 0..errors.len()
                invariant
                    all@ == with_newlines(errors.deep_view().take(i as int)),
            {
                let ghost seen = errors.deep_view().take(i + 1);
                assert(seen.drop_last() =~= errors.deep_view().take(i as int));
                all.append(errors[i].as_str());
                all.push('\n');
            }
            assert(errors.deep_view().take(errors@.len() as int) =~= errors.deep_view());
            match ending {
                Ending::Exited { success, status } => if success {
                    AppEvent::Done { id }
                } else {
                    AppEvent::Failed {
                        id,
                        text: complain("index exited ", status.as_str(), all.as_str()),
                    }
                },
                Ending::Lost(e) => AppEvent::Failed { id, text: e },
            }
        },
    }
}

/// The report that an indexing run ended, or did not start, ends the request; a
/// line of progress does not.
pub proof fn index_ends_its_request(id: u64, input: IndexInput)
    ensures
        index_event(id, input).request() == Some(id),
        index_event(id, input).is_terminal() == !(input is Line),
{
}

/// True when the reports are those of a whole run: lines of progress, and then that
/// the run ended, or nothing but that it did not start.
pub open spec fn whole_index_run(inputs: Seq<IndexInput>) -> bool {
    &&& inputs.len() > 0
    &&& !(inputs.last() is Line)
    &&& inputs.last() is NotStarted ==> inputs.len() == 1
    &&& forall|i: int| 0 <= i < inputs.len() - 1 ==> #[trigger] inputs[i] is Line
}

/// The events that the reports of an indexing run make.
pub open spec fn index_events(id: u64, inputs: Seq<IndexInput>) -> Seq<EventModel> {
    inputs.map_values(|input: IndexInput| index_event(id, input))
}

/// A whole indexing run ends its request once, with its last event: normally where
/// the process succeeded, and with a failure otherwise.
pub proof fn index_runs_end_once(id: u64, inputs: Seq<IndexInput>)
    requires
        whole_index_run(inputs),
    ensures
        event::ends_once(index_events(id, inputs), id),
        index_events(id, inputs).last() is Done <==> {
            &&& inputs.last() matches IndexInput::Ended { ending, .. }
            &&& ending matches Ending::Exited { success, .. }
            &&& success
        },
{
    let events = index_events(id, inputs);
    assert forall|i: int| 0 <= i < events.len() implies (#[trigger] events[i]).request() == Some(id)
        && (i < events.len() - 1 ==> !events[i].is_terminal()) by {
        assert(events[i] == index_event(id, inputs[i]));
    }
    assert(events.last() == index_event(id, inputs.last()));
}

// ---------- shell commands ----------

/// The events that a shell command's output makes.
pub open spec fn shell_events(
    id: u64,
    success: bool,
    status: Seq<char>,
    stdout: Seq<char>,
    stderr: Seq<char>,
) -> Seq<EventModel> {
    let shown = if text::is_blank(stdout + stderr) {
        "(no output)"@
    } else {
        text::trimmed_end(stdout + stderr)
    };
    let output = seq![EventModel::Note { id, text: shown }];
    if success {
        output.push(EventModel::Done { id })
    } else {
        output.push(EventModel::Note { id, text: "exit "@ + status }).push(EventModel::Done { id })
    }
}

/// The events that a shell command's output makes, from its output as text.
pub fn read_shell(id: u64, success: bool, status: &str, stdout: &str, stderr: &str) -> (r: Vec<
    AppEvent,
>)
    ensures
        r.deep_view() == shell_events(id, success, status@, stdout@, stderr@),
{
    let all = concat2(stdout, stderr);
    let shown = if blank(all.as_str()) {
        String::from_str("(no output)")
    } else {
        trim_end(all.as_str())
    };
    let mut events: Vec<AppEvent> = Vec::new();
    events.push(AppEvent::Note { id, text: shown });
    if !success {
        events.push(AppEvent::Note { id, text: concat2("exit ", status) });
    }
    events.push(AppEvent::Done { id });
    assert(events.deep_view() =~= shell_events(id, success, status@, stdout@, stderr@));
    events
}

/// The events that a shell command makes, with its output captured into the
/// scrollback; `run` is the process's output, or why it did not start.
pub fn shell(id: u64, run: Result<ProcessOutput, String>) -> (r: Vec<AppEvent>)
    ensures
        match run {
            Ok(out) => {
                &&& r.deep_view() == shell_events(
                    id,
                    out.success,
                    out.status@,
                    lossy_text(out.stdout@),
                    lossy_text(out.stderr@),
                )
                &&& valid_utf8(out.stdout@) && valid_utf8(out.stderr@) ==> r.deep_view()
                    == shell_events(
                    id,
                    out.success,
                    out.status@,
                    decode_utf8(out.stdout@),
                    decode_utf8(out.stderr@),
                )
            },
            Err(e) => r.deep_view() == seq![EventModel::Failed { id, text: e@ }],
        },
        event::ends_once(r.deep_view(), id),
{
    match run {
        Ok(out) => read_shell(
            id,
            out.success,
            out.status.as_str(),
            decode(&out.stdout).as_str(),
            decode(&out.stderr).as_str(),
        ),
        Err(e) => {
            let mut events: Vec<AppEvent> = Vec::new();
            events.push(AppEvent::Failed { id, text: e });
            assert(events.deep_view() =~= seq![EventModel::Failed { id, text: e@ }]);
            events
        },
    }
}

// ---------- the agent ----------

/// What becomes of an agent before its process runs: the notice that it starts, or
/// why it cannot.
pub open spec fn agent_start_event(
    id: u64,
    python: Seq<char>,
    python_is_file: bool,
    script: Seq<char>,
    script_is_file: bool,
    model: Seq<char>,
    root: Seq<char>,
) -> EventModel {
    if !python_is_file {
        EventModel::Failed { id, text: "agent Python interpreter not found: "@ + python }
    } else if !script_is_file {
        EventModel::Failed { id, text: "agent.py not found: "@ + script }
    } else {
        EventModel::Note { id, text: "starting AMADEUS agent with "@ + model + " in "@ + root }
    }
}

/// Looks at what an agent needs before its process is started. A `Failed` event
/// says that it must not be.
pub fn agent_start(
    id: u64,
    python: &str,
    python_is_file: bool,
    script: &str,
    script_is_file: bool,
    model: &str,
    root: &str,
) -> (r: AppEvent)
    ensures
        r@ == agent_start_event(
            id,
            python@,
            python_is_file,
            script@,
            script_is_file,
            model@,
            root@,
        ),
        r@.is_terminal() == !(python_is_file && script_is_file),
{
    if !python_is_file {
        return AppEvent::Failed {
            id,
            text: concat2("agent Python interpreter not found: ", python),
        };
    }
    if !script_is_file {
        return AppEvent::Failed { id, text: concat2("agent.py not found: ", script) };
    }
    let head = concat2("starting AMADEUS agent with ", model);
    AppEvent::Note { id, text: concat3(head.as_str(), " in ", root) }
}

/// Starts the agent on `task` with `model`, as far as its files are there: the notice
/// and what is to be run, with the directory that it works in; or why nothing is. The
/// interpreter and the script are the installation's.
pub fn agent_launch(
    cfg: &Config,
    id: u64,
    venv_is_file: bool,
    python_is_file: bool,
    script_is_file: bool,
    task: &str,
    model: &str,
) -> (r: (AppEvent, Option<(CommandLine, String)>))
    ensures
        r.0@ == agent_start_event(
            id,
            python_of(cfg.home@, venv_is_file),
            python_is_file,
            config::path_in(cfg.home@, "agent/agent.py"@),
            script_is_file,
            model@,
            cfg.root@,
        ),
        match r.1 {
            Some((line, dir)) => {
                &&& python_is_file && script_is_file
                &&& line@.program == python_of(cfg.home@, venv_is_file)
                &&& line@.args == seq![
                    config::path_in(cfg.home@, "agent/agent.py"@),
                    task@,
                    "--model"@,
                    model@,
                    "--yes"@,
                ]
                &&& dir@ == cfg.root@
            },
            None => !(python_is_file && script_is_file),
        },
{
    let python = python(cfg.home.as_str(), venv_is_file);
    let script = agent_script(cfg.home.as_str());
    let notice = agent_start(
        id,
        python.as_str(),
        python_is_file,
        script.as_str(),
        script_is_file,
        model,
        cfg.root.as_str(),
    );
    let line = if python_is_file && script_is_file {
        Some(agent_line_for(cfg, venv_is_file, task, model))
    } else {
        None
    };
    (notice, line)
}

/// A pipe of the agent's process.
#[derive(Clone, Copy, Debug, PartialEq, Eq, Structural)]
pub enum Pipe {
    Stdout,
    Stderr,
}

/// What is read from a pipe: a line, or that it broke.
pub open spec fn agent_line_event(id: u64, pipe: Pipe, line: Result<String, String>) -> Option<
    EventModel,
> {
    match line {
        Ok(line) => if text::is_blank(line@) {
            None
        } else {
            Some(EventModel::Note { id, text: line@ })
        },
        Err(e) => Some(
            EventModel::Note {
                id,
                text: (match pipe {
                    Pipe::Stdout => "agent stdout error: "@,
                    Pipe::Stderr => "agent stderr error: "@,
                }) + e@,
            },
        ),
    }
}

/// The notice that a line of the agent's output makes. Blank lines make none, and
/// a pipe that breaks makes its last.
pub fn agent_line(id: u64, pipe: Pipe, line: Result<String, String>) -> (r: Option<AppEvent>)
    ensures
        r.deep_view() == agent_line_event(id, pipe, line),
{
    match line {
        Ok(line) => if blank(line.as_str()) {
            None
        } else {
            Some(AppEvent::Note { id, text: line })
        },
        Err(e) => {
            let head = match pipe {
                Pipe::Stdout => "agent stdout error: ",
                Pipe::Stderr => "agent stderr error: ",
            };
            Some(AppEvent::Note { id, text: concat2(head, e.as_str()) })
        },
    }
}

/// How the agent's process is found when it is looked at.
#[derive(Debug)]
pub enum AgentPoll {
    NotStarted(String),
    Cancelled,
    Exited { success: bool, status: String },
    Running,
    Lost(String),
}

/// What is done about it: whether the process is killed, and the events that
/// follow once its pipes are drained. Without an event the wait goes on.
pub open spec fn agent_poll_step(id: u64, poll: AgentPoll) -> (bool, Seq<EventModel>) {
    match poll {
        AgentPoll::NotStarted(e) => (
            false,
            seq![EventModel::Failed { id, text: "failed to start agent: "@ + e@ }],
        ),
        AgentPoll::Cancelled => (
            true,
            seq![EventModel::Note { id, text: "agent cancelled"@ }, EventModel::Done { id }],
        ),
        AgentPoll::Exited { success, status } => (
            false,
            if success {
                seq![EventModel::Done { id }]
            } else {
                seq![EventModel::Failed { id, text: "agent exited with "@ + status@ }]
            },
        ),
        AgentPoll::Running => (false, seq![]),
        AgentPoll::Lost(e) => (
            true,
            seq![EventModel::Failed { id, text: "failed checking agent process: "@ + e@ }],
        ),
    }
}

/// Decides what follows a look at the agent's process.
pub fn agent_poll(id: u64, poll: AgentPoll) -> (r: (bool, Vec<AppEvent>))
    ensures
        r.0 == agent_poll_step(id, poll).0,
        r.1.deep_view() == agent_poll_step(id, poll).1,
        poll is Running ==> r.1@.len() == 0,
        !(poll is Running) ==> event::ends_once(r.1.deep_view(), id),
{
    let mut events: Vec<AppEvent> = Vec::new();
    let mut kill = false;
    let ghost expected = agent_poll_step(id, poll);
    match poll {
        AgentPoll::NotStarted(e) => {
            events.push(
                AppEvent::Failed { id, text: concat2("failed to start agent: ", e.as_str()) },
            );
        },
        AgentPoll::Cancelled => {
            kill = true;
            events.push(AppEvent::Note { id, text: String::from_str("agent cancelled") });
            events.push(AppEvent::Done { id });
        },
        AgentPoll::Exited { success, status } => {
            if success {
                events.push(AppEvent::Done { id });
            } else {
                events.push(
                    AppEvent::Failed { id, text: concat2("agent exited with ", status.as_str()) },
                );
            }
        },
        AgentPoll::Running => {},
        AgentPoll::Lost(e) => {
            kill = true;
            events.push(
                AppEvent::Failed {
                    id,
                    text: concat2("failed checking agent process: ", e.as_str()),
                },
            );
        },
    }
    assert(events.deep_view() =~= expected.1);
    (kill, events)
}

// ---------- a whole agent run ----------

/// The notices that the lines of the agent's two pipes make, in the order in which
/// they are read.
pub open spec fn agent_line_events(
    id: u64,
    lines: Seq<(Pipe, Result<String, String>)>,
) -> Seq<EventModel>
    decreases lines.len(),
{
    if lines.len() == 0 {
        seq![]
    } else {
        let before = agent_line_events(id, lines.drop_last());
        match agent_line_event(id, lines.last().0, lines.last().1) {
            Some(ev) => before.push(ev),
            None => before,
        }
    }
}

/// The first look at the agent's process that does not find it running.
pub open spec fn deciding_poll(polls: Seq<AgentPoll>) -> Option<AgentPoll>
    decreases polls.len(),
{
    if polls.len() == 0 {
        None
    } else if polls[0] is Running {
        deciding_poll(polls.drop_first())
    } else {
        Some(polls[0])
    }
}

/// The events of a whole agent run: the notice that it starts, the lines of its pipes,
/// and what follows the look at its process that decides; or else why it does not
/// start, and nothing more.
pub open spec fn agent_run_events(
    id: u64,
    start: EventModel,
    lines: Seq<(Pipe, Result<String, String>)>,
    polls: Seq<AgentPoll>,
) -> Seq<EventModel> {
    if start.is_terminal() {
        seq![start]
    } else {
        match deciding_poll(polls) {
            Some(poll) => seq![start] + agent_line_events(id, lines) + agent_poll_step(id, poll).1,
            None => seq![start] + agent_line_events(id, lines),
        }
    }
}

proof fn agent_lines_go_on(id: u64, lines: Seq<(Pipe, Result<String, String>)>)
    ensures
        event::goes_on(agent_line_events(id, lines), id),
    decreases lines.len(),
{
    if lines.len() > 0 {
        agent_lines_go_on(id, lines.drop_last());
    }
}

/// A whole agent run makes exactly one terminal event, and that is its last. It is
/// `Done` exactly where the process was seen to exit with success, or to be cancelled
/// before that. On a cancel the process is killed, and the notice of it comes directly
/// before the end.
pub proof fn agent_runs_end_once(
    id: u64,
    start: EventModel,
    lines: Seq<(Pipe, Result<String, String>)>,
    polls: Seq<AgentPoll>,
)
    requires
        start is Note || start is Failed,
        start.request() == Some(id),
        start is Note ==> deciding_poll(polls) is Some,
    ensures
        event::ends_once(agent_run_events(id, start, lines, polls), id),
        agent_run_events(id, start, lines, polls).last() is Done <==> start is Note && {
            ||| deciding_poll(polls)->0 is Cancelled
            ||| deciding_poll(polls)->0 matches AgentPoll::Exited { success, .. } && success
        },
        start is Note && deciding_poll(polls)->0 is Cancelled ==> {
            let events = agent_run_events(id, start, lines, polls);
            &&& agent_poll_step(id, AgentPoll::Cancelled).0
            &&& events.len() >= 2
            &&& events[events.len() - 2] == EventModel::Note { id, text: "agent cancelled"@ }
            &&& events.last() == EventModel::Done { id }
        },
{
    if start is Note {
        let poll = deciding_poll(polls)->0;
        deciding_poll_is_not_running(polls);
        agent_lines_go_on(id, lines);
        let notices = agent_line_events(id, lines);
        let head = seq![start] + notices;
        let end = agent_poll_step(id, poll).1;
        assert(event::goes_on(head, id)) by {
            assert forall|i: int| 0 <= i < head.len() implies !(#[trigger] head[i]).is_terminal()
                && head[i].request() == Some(id) by {
                if i > 0 {
                    assert(head[i] == notices[i - 1]);
                }
            }
        }
        event::ending_after_running(head, end, id);
        assert((head + end).last() == end.last());
        if poll is Cancelled {
            assert((head + end)[(head + end).len() - 2] == end[0]);
        }
    }
}

proof fn deciding_poll_is_not_running(polls: Seq<AgentPoll>)
    ensures
        deciding_poll(polls) matches Some(poll) ==> !(poll is Running),
    decreases polls.len(),
{
    if polls.len() > 0 {
        deciding_poll_is_not_running(polls.drop_first());
    }
}

// ---------- what processes say is passed on whole ----------

/// What a retrieval prints goes on as the prompt, the whole of it and as it is, whenever
/// the retrieval succeeds and prints something other than that it found nothing. What
/// it printed on the side are the hits: every line that is not blank, trimmed, in order.
pub proof fn a_found_prompt_is_the_whole_output(
    status: Seq<char>,
    stdout: Seq<char>,
    stderr: Seq<char>,
)
    requires
        !text::is_blank(stdout),
        text::trimmed(stdout) != "NO_RELEVANT_CONTEXT"@,
    ensures
        ({
            let outcome = outcome_of(true, status, stdout, stderr);
            &&& outcome is Found
            &&& outcome->prompt.len() == stdout.len()
            &&& forall|i: int| 0 <= i < stdout.len() ==> #[trigger] outcome->prompt[i] == stdout[i]
            &&& outcome->hits == text::lines_of(stderr).filter(
                |l: Seq<char>| !text::is_blank(l),
            ).map_values(|l: Seq<char>| text::trimmed(l))
        }),
{
    hits_are_the_lines_with_text(text::lines_of(stderr));
}

/// The hits are the lines that are not blank, each trimmed, in their order.
pub proof fn hits_are_the_lines_with_text(lines: Seq<Seq<char>>)
    ensures
        hits_in(lines) == lines.filter(|l: Seq<char>| !text::is_blank(l)).map_values(
            |l: Seq<char>| text::trimmed(l),
        ),
    decreases lines.len(),
{
    let keep = |l: Seq<char>| !text::is_blank(l);
    let trim = |l: Seq<char>| text::trimmed(l);
    reveal(Seq::filter);
    if lines.len() == 0 {
        assert(lines.filter(keep).map_values(trim) =~= seq![]);
    } else {
        let rest = lines.drop_last();
        hits_are_the_lines_with_text(rest);
        if keep(lines.last()) {
            assert(lines.filter(keep) =~= rest.filter(keep).push(lines.last()));
            assert(lines.filter(keep).map_values(trim) =~= rest.filter(keep).map_values(trim).push(
                text::trimmed(lines.last()),
            ));
        }
    }
}

/// A retrieval that does not find a prompt says why: what it complained of, or its exit
/// status; that it found nothing; or that it printed nothing. Nothing else keeps a
/// prompt from being found.
pub proof fn a_retrieval_without_a_prompt_says_why(
    success: bool,
    status: Seq<char>,
    stdout: Seq<char>,
    stderr: Seq<char>,
)
    ensures
        ({
            let outcome = outcome_of(success, status, stdout, stderr);
            &&& outcome is NoContext <==> success && text::trimmed(stdout)
                == "NO_RELEVANT_CONTEXT"@
            &&& outcome is Failed <==> !success || (text::is_blank(stdout) && text::trimmed(stdout)
                != "NO_RELEVANT_CONTEXT"@)
            &&& !success && text::is_blank(stderr) ==> outcome == OutcomeModel::Failed(
                "rag.py exited "@ + status,
            )
            &&& !success && !text::is_blank(stderr) ==> outcome == OutcomeModel::Failed(
                text::trimmed(stderr),
            )
            &&& success && outcome is Failed ==> outcome == OutcomeModel::Failed(
                "rag.py produced no prompt"@,
            )
        }),
{
}

/// What was found is shown, and asked, as it was found: the hits and the prompt go on
/// unchanged, and a failure is told in its own words.
pub proof fn what_was_found_goes_on_unchanged(
    id: u64,
    hits: Seq<Seq<char>>,
    prompt: Seq<char>,
    e: Seq<char>,
    cancelled: bool,
)
    ensures
        ({
            let (events, asked) = retrieval_events(
                id,
                OutcomeModel::Found { hits, prompt },
                cancelled,
            );
            &&& events[0] == EventModel::Sources { id, hits }
            &&& !cancelled ==> asked == Some(prompt) && events.len() == 1
            &&& cancelled ==> asked is None && events.len() == 2 && events[1] == EventModel::Done {
                id,
            }
        }),
        retrieval_events(id, OutcomeModel::Failed(e), cancelled) == (
            seq![EventModel::Failed { id, text: e }],
            None::<Seq<char>>,
        ),
        retrieval_events(id, OutcomeModel::NoContext, cancelled) == (
            seq![
                EventModel::Failed {
                    id,
                    text: "nothing relevant in the index for that question"@,
                },
            ],
            None::<Seq<char>>,
        ),
{
}

/// Lines are put back together one by one, each with its newline.
pub proof fn lines_are_put_back_together(lines: Seq<Seq<char>>, line: Seq<char>)
    ensures
        with_newlines(lines.push(line)) == with_newlines(lines) + line + seq!['\n'],
        with_newlines(seq![]).len() == 0,
{
    assert(lines.push(line).drop_last() =~= lines);
    assert(with_newlines(lines.push(line)) =~= with_newlines(lines) + line + seq!['\n']);
}

/// Progress is shown as it was printed, and a run that fails says why: in the words of
/// its error output, or else with its exit status.
pub proof fn indexing_is_told_as_it_went(
    id: u64,
    line: String,
    errors: Vec<String>,
    success: bool,
    status: String,
)
    ensures
        index_event(id, IndexInput::Line(line)) == (EventModel::Note { id, text: line@ }),
        index_event(id, IndexInput::NotStarted(line)) == (EventModel::Failed {
            id,
            text: "cannot run rag.py: "@ + line@,
        }),
        index_event(id, IndexInput::Ended { errors, ending: Ending::Lost(line) }) == (
        EventModel::Failed { id, text: line@ }),
        index_event(
            id,
            IndexInput::Ended { errors, ending: Ending::Exited { success, status } },
        ) == (if success {
            EventModel::Done { id }
        } else if text::is_blank(with_newlines(errors.deep_view())) {
            EventModel::Failed { id, text: "index exited "@ + status@ }
        } else {
            EventModel::Failed { id, text: text::trimmed(with_newlines(errors.deep_view())) }
        }),
{
}

/// What a command wrote, to its output and then to its error output, is shown whole but
/// for white space at the end, whether the command succeeded or not. That it failed is
/// told behind it.
pub proof fn shell_output_is_shown_whole(
    id: u64,
    success: bool,
    status: Seq<char>,
    stdout: Seq<char>,
    stderr: Seq<char>,
)
    ensures
        ({
            let events = shell_events(id, success, status, stdout, stderr);
            let all = stdout + stderr;
            &&& events.len() == (if success { 2int } else { 3int })
            &&& events.last() == EventModel::Done { id }
            &&& !success ==> events[1] == EventModel::Note { id, text: "exit "@ + status }
            &&& events[0] matches EventModel::Note { id: of, text: shown } && {
                &&& of == id
                &&& text::is_blank(all) ==> shown == "(no output)"@
                &&& !text::is_blank(all) ==> {
                    &&& shown.len() <= all.len()
                    &&& forall|i: int| 0 <= i < shown.len() ==> #[trigger] shown[i] == all[i]
                    &&& forall|i: int| shown.len() <= i < all.len() ==> text::is_white(
                        #[trigger] all[i],
                    )
                    &&& shown.len() > 0 && !text::is_white(shown.last())
                }
            }
        }),
{
    let all = stdout + stderr;
    let j = text::trimming_the_end(all);
    if !text::is_blank(all) && j == 0 {
        assert forall|i: int| 0 <= i < all.len() implies text::is_white(#[trigger] all[i]) by {}
    }
}

/// What the agent prints is shown as it was printed, line by line, but for blank lines.
pub proof fn the_agents_words_are_shown_as_they_are(id: u64, pipe: Pipe, line: String, e: String)
    ensures
        text::is_blank(line@) ==> agent_line_event(id, pipe, Ok(line)) is None,
        !text::is_blank(line@) ==> agent_line_event(id, pipe, Ok(line)) == Some(
            EventModel::Note { id, text: line@ },
        ),
        agent_line_event(id, Pipe::Stdout, Err(e)) == Some(
            EventModel::Note { id, text: "agent stdout error: "@ + e@ },
        ),
        agent_line_event(id, Pipe::Stderr, Err(e)) == Some(
            EventModel::Note { id, text: "agent stderr error: "@ + e@ },
        ),
{
}

/// How the agent's process is found decides what is done about it: it is killed exactly
/// when it was cancelled or lost, and its end is told with the status or the error.
pub proof fn the_agents_end_is_told(id: u64, success: bool, status: String, e: String)
    ensures
        agent_poll_step(id, AgentPoll::Running) == (false, Seq::<EventModel>::empty()),
        agent_poll_step(id, AgentPoll::NotStarted(e)) == (
            false,
            seq![EventModel::Failed { id, text: "failed to start agent: "@ + e@ }],
        ),
        agent_poll_step(id, AgentPoll::Lost(e)) == (
            true,
            seq![EventModel::Failed { id, text: "failed checking agent process: "@ + e@ }],
        ),
        agent_poll_step(id, AgentPoll::Cancelled) == (
            true,
            seq![EventModel::Note { id, text: "agent cancelled"@ }, EventModel::Done { id }],
        ),
        agent_poll_step(id, AgentPoll::Exited { success, status }) == (
            false,
            seq![
                if success {
                    EventModel::Done { id }
                } else {
                    EventModel::Failed { id, text: "agent exited with "@ + status@ }
                },
            ],
        ),
{
}

/// The interpreter is the one of the virtual environment under the directory, where that
/// is a file, and otherwise the system's.
pub proof fn the_interpreter_is_the_environments(root: Seq<char>)
    ensures
        python_of(root, true) == config::path_in(root, "rag/venv/bin/python3"@),
        python_of(root, false) == "python3"@,
{
}

} // verus!
