//! The session as values: its state, and what every event does to it.
use vstd::prelude::*;
use vstd::string::StringExecFns;

use crate::config;
use crate::config::{ConfigModel, Tier};
use crate::cursor;
use crate::event::{EventModel, KeyCode, KeyEvent, TermModel};
use crate::hint;
use crate::scrollback;
use crate::scrollback::{EntryModel, Kind, LineModel};
use crate::text;
use crate::text::{concat3, join, lines, number};

verus! {

// ---------- what the session asks for ----------

/// Work that is not the session's own: files, processes and the network.
#[derive(Debug)]
pub enum Action {
    /// Append `record` to the history file.
    AppendHistory { record: String },
    /// Make the history file empty.
    ClearHistory,
    /// Read the history file, for [`crate::app::App::show_history`].
    ShowHistory,
    /// Read the history file, for [`crate::app::App::ask`].
    Ask { task: String },
    /// Read the file at `path`, for [`crate::app::App::stage_file`].
    ReadFile { path: String },
    /// Build or refresh the index of `dir`, as request `id`.
    Index { id: u64, dir: String },
    /// Run a shell command, as request `id`.
    Shell { id: u64, cmd: String },
    /// Retrieve context for `question` and have `model` answer, as request `id`.
    Rag { id: u64, question: String, model: String },
    /// Set the agent to work on `task`, as request `id`.
    Agent { id: u64, task: String, model: String },
    /// Have `model` complete `prompt`, as request `id`.
    Generate { id: u64, model: String, prompt: String },
}

pub enum ActionModel {
    AppendHistory { record: Seq<char> },
    ClearHistory,
    ShowHistory,
    Ask { task: Seq<char> },
    ReadFile { path: Seq<char> },
    Index { id: u64, dir: Seq<char> },
    Shell { id: u64, cmd: Seq<char> },
    Rag { id: u64, question: Seq<char>, model: Seq<char> },
    Agent { id: u64, task: Seq<char>, model: Seq<char> },
    Generate { id: u64, model: Seq<char>, prompt: Seq<char> },
}

impl View for Action {
    type V = ActionModel;

    open spec fn view(&self) -> ActionModel {
        match self {
            Action::AppendHistory { record } => ActionModel::AppendHistory { record: record@ },
            Action::ClearHistory => ActionModel::ClearHistory,
            Action::ShowHistory => ActionModel::ShowHistory,
            Action::Ask { task } => ActionModel::Ask { task: task@ },
            Action::ReadFile { path } => ActionModel::ReadFile { path: path@ },
            Action::Index { id, dir } => ActionModel::Index { id: *id, dir: dir@ },
            Action::Shell { id, cmd } => ActionModel::Shell { id: *id, cmd: cmd@ },
            Action::Rag { id, question, model } => ActionModel::Rag {
                id: *id,
                question: question@,
                model: model@,
            },
            Action::Agent { id, task, model } => ActionModel::Agent {
                id: *id,
                task: task@,
                model: model@,
            },
            Action::Generate { id, model, prompt } => ActionModel::Generate {
                id: *id,
                model: model@,
                prompt: prompt@,
            },
        }
    }
}

impl DeepView for Action {
    type V = ActionModel;

    open spec fn deep_view(&self) -> ActionModel {
        self@
    }
}

/// What every prompt begins with.
pub const SYSTEM_PROMPT: &'static str = "You are AMADEUS, an expert software engineering agent.
You write clean, production-ready code. When asked to build something,
output complete files with no placeholders. Think step by step.
Be concise — avoid unnecessary explanation unless asked.";

// ---------- history and prompts ----------

/// What an exchange leaves in the history file.
pub open spec fn history_record(session: u64, user: Seq<char>, agent: Seq<char>) -> Seq<char> {
    "[SESSION:"@ + text::decimal(session as nat) + "] User: "@ + user + "\nAgent: "@ + agent
        + "\n---\n\n"@
}

/// What an exchange leaves in the history file.
pub fn write_history(session: u64, user: &str, agent: &str) -> (r: String)
    ensures
        r@ == history_record(session, user@, agent@),
{
    let mut r = concat3("[SESSION:", number(session).as_str(), "] User: ");
    r.append(user);
    r.append("\nAgent: ");
    r.append(agent);
    r.append("\n---\n\n");
    r
}

/// How many lines of history go into a prompt.
pub const HISTORY_LINES: usize = 40;

/// The last lines of the history.
pub open spec fn recent_lines(history: Seq<char>) -> Seq<Seq<char>> {
    let all = text::lines_of(history);
    let from = if all.len() > HISTORY_LINES { all.len() - HISTORY_LINES } else { 0 };
    all.skip(from)
}

/// The last lines of the history, as they go into a prompt.
pub open spec fn recent(history: Seq<char>) -> Seq<char> {
    text::joined(recent_lines(history), "\n"@)
}

/// The last lines of the history, as they go into a prompt.
pub fn recent_history(history: &str) -> (r: String)
    ensures
        r@ == recent(history@),
{
    let all = lines(history);
    let start = all.len().saturating_sub(HISTORY_LINES);
    let mut tail: Vec<String> = Vec::new();
    let ghost want = all.deep_view().skip(start as int);
    assert(tail.deep_view() =~= want.take(0));
    for i in start..all.len()
        invariant
            start <= all@.len(),
            want == all.deep_view().skip(start as int),
            tail.deep_view() == want.take(i - start),
    {
        let ghost seen = tail.deep_view();
        let line = all[i].clone();
        tail.push(line);
        assert(tail.deep_view() =~= seen.push(line@));
        assert(want[i - start] == line@);
        assert(tail.deep_view() =~= want.take(i + 1 - start));
    }
    assert(want.take(all@.len() - start) =~= want);
    join(&tail, "\n")
}

/// The prompt for a task: the system prompt, the last lines of the history, the
/// files that were staged, and the task.
pub open spec fn prompt_of(
    history: Seq<char>,
    file_context: Seq<char>,
    task: Seq<char>,
) -> Seq<char> {
    SYSTEM_PROMPT@ + "\n\n--- Recent History ---\n"@ + recent(history) + "\n--- End History ---\n"@
        + file_context + "\n\nTask: "@ + task
}

/// The prompt for a task.
pub fn build_prompt(history: &str, file_context: &str, task: &str) -> (r: String)
    ensures
        r@ == prompt_of(history@, file_context@, task@),
{
    let mut r = concat3(
        SYSTEM_PROMPT,
        "\n\n--- Recent History ---\n",
        recent_history(history).as_str(),
    );
    r.append("\n--- End History ---\n");
    r.append(file_context);
    r.append("\n\nTask: ");
    r.append(task);
    r
}

/// A file as it is put in a prompt.
pub open spec fn staged_file(path: Seq<char>, content: Seq<char>) -> Seq<char> {
    "\n\n### File: "@ + path + "\n```\n"@ + content + "\n```"@
}

// ---------- what holds of every prompt ----------

/// What goes into a prompt of the history are its last lines, forty or as many as there
/// are, unchanged and in order, with a newline between neighbours.
pub proof fn the_last_forty_lines_are_recent(history: Seq<char>)
    ensures
        ({
            let all = text::lines_of(history);
            let kept = recent_lines(history);
            &&& kept.len() == (if all.len() < 40 { all.len() } else { 40 })
            &&& forall|i: int|
                0 <= i < kept.len() ==> #[trigger] kept[i] == all[all.len() - kept.len() + i]
            &&& recent(history) == text::joined(kept, "\n"@)
        }),
{
}

/// A prompt is the system prompt, the last lines of the history between their header and
/// their footer, the staged files, and the task, each of them whole. Which lines of the
/// history are in it depends neither on the files nor on the task.
pub proof fn prompts_hold_history_files_and_task(
    history: Seq<char>,
    file_context: Seq<char>,
    task: Seq<char>,
)
    ensures
        ({
            let prompt = prompt_of(history, file_context, task);
            let head = SYSTEM_PROMPT@ + "\n\n--- Recent History ---\n"@;
            let past = text::joined(recent_lines(history), "\n"@);
            let foot = "\n--- End History ---\n"@;
            let label = "\n\nTask: "@;
            let a = head.len() as int;
            let b = a + past.len();
            let c = b + foot.len();
            let d = c + file_context.len();
            let e = d + label.len();
            &&& prompt.take(a) == head
            &&& prompt.subrange(a, b) == past
            &&& prompt.subrange(b, c) == foot
            &&& prompt.subrange(c, d) == file_context
            &&& prompt.subrange(d, e) == label
            &&& prompt.skip(e) == task
            &&& prompt.len() == e + task.len()
        }),
{
    let prompt = prompt_of(history, file_context, task);
    let head = SYSTEM_PROMPT@ + "\n\n--- Recent History ---\n"@;
    let past = text::joined(recent_lines(history), "\n"@);
    let foot = "\n--- End History ---\n"@;
    let label = "\n\nTask: "@;
    let a = head.len() as int;
    let b = a + past.len();
    let c = b + foot.len();
    let d = c + file_context.len();
    let e = d + label.len();
    assert(prompt.take(a) =~= head);
    assert(prompt.subrange(a, b) =~= past);
    assert(prompt.subrange(b, c) =~= foot);
    assert(prompt.subrange(c, d) =~= file_context);
    assert(prompt.subrange(d, e) =~= label);
    assert(prompt.skip(e) =~= task);
}

/// Every prompt begins with who the model is and how it is to work.
pub proof fn prompts_begin_with_the_role(
    history: Seq<char>,
    file_context: Seq<char>,
    task: Seq<char>,
)
    ensures
        ({
            let role = "You are AMADEUS, an expert software engineering agent.
You write clean, production-ready code. When asked to build something,
output complete files with no placeholders. Think step by step.
Be concise — avoid unnecessary explanation unless asked."@;
            role.is_prefix_of(prompt_of(history, file_context, task))
        }),
{
    let role = SYSTEM_PROMPT@;
    assert(prompt_of(history, file_context, task).take(role.len() as int) =~= role);
}

/// Two prompts with the same history are the same up to the end of that history, whatever
/// files are staged and whatever is asked.
pub proof fn files_and_tasks_leave_the_history_alone(
    history: Seq<char>,
    files_a: Seq<char>,
    task_a: Seq<char>,
    files_b: Seq<char>,
    task_b: Seq<char>,
)
    ensures
        ({
            let n = (SYSTEM_PROMPT@ + "\n\n--- Recent History ---\n"@ + text::joined(
                recent_lines(history),
                "\n"@,
            ) + "\n--- End History ---\n"@).len() as int;
            let a = prompt_of(history, files_a, task_a);
            let b = prompt_of(history, files_b, task_b);
            n <= a.len() && n <= b.len() && a.take(n) == b.take(n)
        }),
{
    let past = SYSTEM_PROMPT@ + "\n\n--- Recent History ---\n"@ + text::joined(
        recent_lines(history),
        "\n"@,
    ) + "\n--- End History ---\n"@;
    let n = past.len() as int;
    assert(prompt_of(history, files_a, task_a).take(n) =~= past);
    assert(prompt_of(history, files_b, task_b).take(n) =~= past);
}

/// The record of an exchange holds the session's number, what the user said and what the
/// agent said, each of them whole and in its place.
pub proof fn records_hold_the_exchange(session: u64, user: Seq<char>, agent: Seq<char>)
    ensures
        ({
            let record = history_record(session, user, agent);
            let number = text::decimal(session as nat);
            let a = 9 + number.len() as int;
            let b = a + 8 + user.len() as int;
            let c = b + 8 + agent.len() as int;
            &&& record.len() == c + 6
            &&& record.take(9) == "[SESSION:"@
            &&& record.subrange(9, a) == number
            &&& record.subrange(a, a + 8) == "] User: "@
            &&& record.subrange(a + 8, b) == user
            &&& record.subrange(b, b + 8) == "\nAgent: "@
            &&& record.subrange(b + 8, c) == agent
            &&& record.skip(c) == "\n---\n\n"@
        }),
{
    reveal_strlit("[SESSION:");
    reveal_strlit("] User: ");
    reveal_strlit("\nAgent: ");
    reveal_strlit("\n---\n\n");
    let record = history_record(session, user, agent);
    let number = text::decimal(session as nat);
    let a = 9 + number.len() as int;
    let b = a + 8 + user.len() as int;
    let c = b + 8 + agent.len() as int;
    assert(record.take(9) =~= "[SESSION:"@);
    assert(record.subrange(9, a) =~= number);
    assert(record.subrange(a, a + 8) =~= "] User: "@);
    assert(record.subrange(a + 8, b) =~= user);
    assert(record.subrange(b, b + 8) =~= "\nAgent: "@);
    assert(record.subrange(b + 8, c) =~= agent);
    assert(record.skip(c) =~= "\n---\n\n"@);
}

/// A staged file holds its path and its content, each of them whole and in its place.
pub proof fn staged_files_hold_their_content(path: Seq<char>, content: Seq<char>)
    ensures
        ({
            let file = staged_file(path, content);
            let a = 12 + path.len() as int;
            let b = a + 5 + content.len() as int;
            &&& file.len() == b + 4
            &&& file.take(12) == "\n\n### File: "@
            &&& file.subrange(12, a) == path
            &&& file.subrange(a, a + 5) == "\n```\n"@
            &&& file.subrange(a + 5, b) == content
            &&& file.skip(b) == "\n```"@
        }),
{
    reveal_strlit("\n\n### File: ");
    reveal_strlit("\n```\n");
    reveal_strlit("\n```");
    let file = staged_file(path, content);
    let a = 12 + path.len() as int;
    let b = a + 5 + content.len() as int;
    assert(file.take(12) =~= "\n\n### File: "@);
    assert(file.subrange(12, a) =~= path);
    assert(file.subrange(a, a + 5) =~= "\n```\n"@);
    assert(file.subrange(a + 5, b) =~= content);
    assert(file.skip(b) =~= "\n```"@);
}

// ---------- the state ----------

/// The state as values. The input buffer is what is before the cursor and what is
/// after it.
#[verifier::ext_equal]
pub struct Model {
    pub cfg: ConfigModel,
    pub entries: Seq<EntryModel>,
    pub stable: Seq<LineModel>,
    pub stable_upto: nat,
    pub wrap_width: u16,
    pub scroll: nat,
    pub pinned: bool,
    pub before: Seq<char>,
    pub after: Seq<char>,
    pub tier: Tier,
    pub file_context: Seq<char>,
    pub staged: Seq<Seq<char>>,
    pub busy: Option<u64>,
    pub next_id: nat,
    pub cancel: bool,
    pub response: Seq<char>,
    pub last_user: Seq<char>,
    pub agent_idx: Option<nat>,
    pub last_key: u128,
    pub idle_since: u128,
    pub used: Set<Seq<char>>,
    pub ticks: nat,
    pub should_quit: bool,
}

/// The time from `then` to `now`; zero if `then` is later.
pub open spec fn elapsed(now: u128, then: u128) -> u128 {
    if now >= then { (now - then) as u128 } else { 0 }
}

/// The frames of the busy spinner.
pub open spec fn spinner_frame(n: nat) -> Seq<char> {
    if n == 0 { "⠋"@ } else if n == 1 { "⠙"@ } else if n == 2 { "⠹"@ } else if n == 3 { "⠸"@ }
    else if n == 4 { "⠼"@ } else if n == 5 { "⠴"@ } else if n == 6 { "⠦"@ } else { "⠧"@ }
}

impl Model {
    /// The cache holds the lines of the entries before `stable_upto`, never those
    /// of the last entry. A request in flight is the last one that was begun, and
    /// without one there is no answer under way.
    pub open spec fn inv(self) -> bool {
        &&& self.stable_upto == 0 || self.stable_upto < self.entries.len()
        &&& self.stable == scrollback::all_lines(
            self.entries.take(self.stable_upto as int),
            self.wrap_width,
        )
        &&& self.busy matches Some(id) ==> id == self.next_id
        &&& self.busy is None ==> self.agent_idx is None && self.response.len() == 0
    }

    /// The input buffer.
    pub open spec fn input(self) -> Seq<char> {
        self.before + self.after
    }

    // ---------- scrollback ----------

    pub open spec fn pushed(self, kind: Kind, text: Seq<char>) -> Model {
        Model { entries: self.entries.push(EntryModel { kind, text }), pinned: true, ..self }
    }

    /// Only the last entry is ever changed.
    pub open spec fn appended(self, delta: Seq<char>) -> Model {
        if self.entries.len() == 0 {
            self
        } else {
            let last = self.entries.last();
            Model {
                entries: self.entries.update(
                    self.entries.len() - 1,
                    EntryModel { kind: last.kind, text: last.text + delta },
                ),
                ..self
            }
        }
    }

    pub open spec fn wrap_invalidated(self) -> Model {
        Model { stable: seq![], stable_upto: 0, ..self }
    }

    // ---------- request lifecycle ----------

    pub open spec fn begun(self) -> Model {
        Model {
            next_id: self.next_id + 1,
            busy: Some((self.next_id + 1) as u64),
            cancel: false,
            response: seq![],
            agent_idx: None,
            ..self
        }
    }

    pub open spec fn agent_opened(self) -> Model {
        Model {
            entries: self.entries.push(EntryModel { kind: Kind::Agent, text: seq![] }),
            agent_idx: Some(self.entries.len()),
            pinned: true,
            ..self
        }
    }

    /// True when the last entry is the Agent entry that is being streamed into.
    pub open spec fn streaming(self) -> bool {
        &&& self.entries.len() > 0
        &&& self.agent_idx == Some((self.entries.len() - 1) as nat)
        &&& self.entries.last().kind == Kind::Agent
    }

    pub open spec fn ended(self) -> Model {
        Model { busy: None, agent_idx: None, response: seq![], ..self }
    }

    /// An answer that is not blank goes into the history.
    pub open spec fn exchange(self) -> Option<ActionModel> {
        if text::is_blank(self.response) {
            None
        } else {
            Some(
                ActionModel::AppendHistory {
                    record: history_record(self.cfg.session, self.last_user, self.response),
                },
            )
        }
    }

    // ---------- input editing ----------

    pub open spec fn inserted(self, s: Seq<char>) -> Model {
        Model { before: self.before + s, ..self }
    }

    pub open spec fn input_cleared(self, now: u128) -> Model {
        Model { before: seq![], after: seq![], idle_since: now, ..self }
    }

    pub open spec fn backspaced(self) -> Model {
        if self.before.len() == 0 {
            self
        } else {
            Model { before: self.before.drop_last(), ..self }
        }
    }

    pub open spec fn deleted(self) -> Model {
        if self.after.len() == 0 {
            self
        } else {
            Model { after: self.after.drop_first(), ..self }
        }
    }

    pub open spec fn word_deleted(self) -> Model {
        Model { before: cursor::without_last_word(self.before), ..self }
    }

    pub open spec fn moved_left(self) -> Model {
        if self.before.len() == 0 {
            self
        } else {
            Model {
                before: self.before.drop_last(),
                after: seq![self.before.last()] + self.after,
                ..self
            }
        }
    }

    pub open spec fn moved_right(self) -> Model {
        if self.after.len() == 0 {
            self
        } else {
            Model {
                before: self.before.push(self.after[0]),
                after: self.after.drop_first(),
                ..self
            }
        }
    }

    pub open spec fn moved_home(self) -> Model {
        Model { before: seq![], after: self.input(), ..self }
    }

    pub open spec fn moved_to_end(self) -> Model {
        Model { before: self.input(), after: seq![], ..self }
    }

    /// A command that is being typed, and nothing else, is completed to the first
    /// one that it can grow into.
    pub open spec fn completed(self) -> Model {
        let token = self.input();
        let m = hint::matching(hint::command_table(), token);
        if token.len() > 0 && token[0] == '/' && text::first_word(token) == token && m.len() > 0 {
            Model { before: m[0].name + " "@, after: seq![], ..self }
        } else {
            self
        }
    }

    // ---------- dispatch ----------

    pub open spec fn tier_cycled(self) -> Model {
        let tier = config::tier_after(self.tier);
        Model { tier, ..self }.pushed(
            Kind::System,
            "model tier → "@ + config::tier_label(tier) + " ("@ + self.cfg.model(tier) + ")"@,
        )
    }

    pub open spec fn entries_cleared(self) -> Model {
        Model { entries: seq![], ..self }.wrap_invalidated()
    }

    pub open spec fn refused(self, text: Seq<char>) -> (Model, Option<ActionModel>) {
        (self.pushed(Kind::Error, text), None)
    }

    /// What a command does.
    pub open spec fn commanded(self, cmd: Seq<char>, arg: Seq<char>) -> (
        Model,
        Option<ActionModel>,
    ) {
        let id = (self.next_id + 1) as u64;
        let model = self.cfg.model(self.tier);
        if cmd == "/quit"@ || cmd == "/exit"@ {
            (Model { should_quit: true, ..self }, None)
        } else if cmd == "/model"@ {
            (self.tier_cycled(), None)
        } else if cmd == "/clear"@ {
            (
                Model { file_context: seq![], staged: seq![], ..self.entries_cleared() }.pushed(
                    Kind::System,
                    "history cleared"@,
                ),
                Some(ActionModel::ClearHistory),
            )
        } else if cmd == "/history"@ {
            (self, Some(ActionModel::ShowHistory))
        } else if cmd == "/file"@ {
            if arg.len() == 0 {
                self.refused("usage: /file <path>"@)
            } else {
                (self, Some(ActionModel::ReadFile { path: arg }))
            }
        } else if cmd == "/index"@ {
            (
                self.begun(),
                Some(ActionModel::Index { id, dir: if arg.len() == 0 { "."@ } else { arg } }),
            )
        } else if cmd == "/shell"@ {
            if arg.len() == 0 {
                self.refused("usage: /shell <cmd>"@)
            } else {
                (self.begun(), Some(ActionModel::Shell { id, cmd: arg }))
            }
        } else if cmd == "/rag"@ {
            if arg.len() == 0 {
                self.refused("usage: /rag <question>"@)
            } else {
                (
                    Model { last_user: "rag "@ + arg, ..self.begun() },
                    Some(
                        ActionModel::Rag {
                            id,
                            question: arg,
                            model: self.cfg.rag_model(self.tier),
                        },
                    ),
                )
            }
        } else if cmd == "/ask"@ {
            if arg.len() == 0 {
                self.refused("usage: /ask <task>"@)
            } else {
                (self, Some(ActionModel::Ask { task: arg }))
            }
        } else if cmd == "/agent"@ {
            if arg.len() == 0 {
                self.refused("usage: /agent <task>"@)
            } else {
                (
                    Model { last_user: "agent "@ + arg, ..self.begun() },
                    Some(ActionModel::Agent { id, task: arg, model }),
                )
            }
        } else {
            self.refused("unknown command "@ + cmd)
        }
    }

    /// What a line that was sent does: a command, or else a task for the model.
    pub open spec fn routed(self, line: Seq<char>) -> (Model, Option<ActionModel>) {
        if line.len() > 0 && line[0] == '/' {
            let cmd = text::first_word(line);
            let arg = text::trimmed(line.skip(text::word_end(line) as int));
            Model { used: self.used.insert(cmd), ..self }.commanded(cmd, arg)
        } else {
            (self, Some(ActionModel::Ask { task: line }))
        }
    }

    /// What sending the input does.
    pub open spec fn submitted(self, now: u128) -> (Model, Option<ActionModel>) {
        let line = text::trimmed(self.input());
        if line.len() == 0 {
            (self, None)
        } else if self.busy is Some {
            self.refused("still working — ctrl+c to cancel"@)
        } else {
            self.input_cleared(now).pushed(Kind::User, line).routed(line)
        }
    }

    // ---------- events ----------

    pub open spec fn key_applied(self, k: KeyEvent, now: u128) -> (Model, Option<ActionModel>) {
        match k.code {
            KeyCode::Char(c) => if c == 'c' && k.ctrl {
                if self.busy is Some {
                    (Model { cancel: true, ..self }.pushed(Kind::System, "cancelling…"@), None)
                } else if self.input().len() == 0 {
                    (Model { should_quit: true, ..self }, None)
                } else {
                    (self.input_cleared(now), None)
                }
            } else if c == 'd' && k.ctrl && self.input().len() == 0 {
                (Model { should_quit: true, ..self }, None)
            } else if c == 't' && k.ctrl {
                (self.tier_cycled(), None)
            } else if c == 'l' && k.ctrl {
                (self.entries_cleared(), None)
            } else if c == 'u' && k.ctrl {
                (self.input_cleared(now), None)
            } else if c == 'w' && k.ctrl {
                (self.word_deleted(), None)
            } else if c == 'a' && k.ctrl {
                (self.moved_home(), None)
            } else if c == 'e' && k.ctrl {
                (self.moved_to_end(), None)
            } else {
                (self.inserted(seq![c]), None)
            },
            KeyCode::Enter => if k.alt {
                (self.inserted("\n"@), None)
            } else {
                self.submitted(now)
            },
            KeyCode::Tab => (self.completed(), None),
            KeyCode::Backspace => (self.backspaced(), None),
            KeyCode::Delete => (self.deleted(), None),
            KeyCode::Left => (self.moved_left(), None),
            KeyCode::Right => (self.moved_right(), None),
            KeyCode::Home => (self.moved_home(), None),
            KeyCode::End => if self.input().len() == 0 {
                (Model { pinned: true, ..self }, None)
            } else {
                (self.moved_to_end(), None)
            },
            KeyCode::PageUp => (
                Model {
                    pinned: false,
                    scroll: if self.scroll < 10 { 0 } else { (self.scroll - 10) as nat },
                    ..self
                },
                None,
            ),
            KeyCode::PageDown => (Model { scroll: self.scroll + 10, ..self }, None),
            KeyCode::Up => if k.ctrl {
                (
                    Model {
                        pinned: false,
                        scroll: if self.scroll < 1 { 0 } else { (self.scroll - 1) as nat },
                        ..self
                    },
                    None,
                )
            } else {
                (self, None)
            },
            KeyCode::Down => if k.ctrl {
                (Model { scroll: self.scroll + 1, ..self }, None)
            } else {
                (self, None)
            },
            KeyCode::Other => (self, None),
        }
    }

    /// What a key does. An input buffer that is empty afterwards is idle from now.
    pub open spec fn after_key(self, k: KeyEvent, now: u128) -> (Model, Option<ActionModel>) {
        let (m, action) = Model { last_key: now, ..self }.key_applied(k, now);
        (if m.input().len() == 0 { Model { idle_since: now, ..m } } else { m }, action)
    }

    pub open spec fn after_term(self, e: TermModel, now: u128) -> (Model, Option<ActionModel>) {
        match e {
            TermModel::Key(k) => if k.release {
                (self, None)
            } else {
                self.after_key(k, now)
            },
            TermModel::Paste(s) => (Model { last_key: now, ..self }.inserted(s), None),
            TermModel::Resize => (self.wrap_invalidated(), None),
            TermModel::Other => (self, None),
        }
    }

    /// What an event does.
    pub open spec fn after(self, ev: EventModel, now: u128) -> (Model, Option<ActionModel>) {
        match ev {
            EventModel::Tick => (Model { ticks: self.ticks + 1, ..self }, None),
            EventModel::Term(e) => self.after_term(e, now),
            EventModel::Token { id, delta } => if self.busy == Some(id) {
                let m = if self.streaming() { self } else { self.agent_opened() };
                (Model { response: m.response + delta, ..m }.appended(delta), None)
            } else {
                (self, None)
            },
            EventModel::Sources { id, hits } => if self.busy == Some(id) && hits.len() > 0 {
                (
                    self.pushed(
                        Kind::Source,
                        "top-k candidates (pre-rerank, pre-margin)\n"@ + text::joined(hits, "\n"@),
                    ),
                    None,
                )
            } else {
                (self, None)
            },
            EventModel::Note { id, text } => if self.busy == Some(id) || self.busy is None {
                (self.pushed(Kind::System, text), None)
            } else {
                (self, None)
            },
            EventModel::Done { id } => if self.busy == Some(id) {
                (self.ended(), self.exchange())
            } else {
                (self, None)
            },
            EventModel::Failed { id, text } => if self.busy == Some(id) {
                (self.pushed(Kind::Error, text).ended(), None)
            } else {
                (self, None)
            },
        }
    }

    /// True when the key can be taken: what it counts up has room, and the word that
    /// it deletes, if it does, does not end at a wide white-space character.
    pub open spec fn takes_key(self, k: KeyEvent) -> bool {
        match k.code {
            KeyCode::Char(c) => c == 'w' && k.ctrl ==> cursor::word_break_is_ascii(self.before),
            KeyCode::Enter => k.alt || self.next_id < u64::MAX,
            KeyCode::PageDown => self.scroll + 10 <= usize::MAX,
            KeyCode::Down => k.ctrl ==> self.scroll < usize::MAX,
            _ => true,
        }
    }

    /// True when the event can be taken.
    pub open spec fn takes(self, ev: EventModel) -> bool {
        match ev {
            EventModel::Tick => self.ticks < u64::MAX,
            EventModel::Term(TermModel::Key(k)) => k.release || self.takes_key(k),
            _ => true,
        }
    }

    // ---------- answers to actions ----------

    /// What the history file's text does, once it was asked for.
    pub open spec fn history_shown(self, history: Seq<char>) -> Model {
        self.pushed(
            Kind::System,
            if text::is_blank(history) { "(empty)"@ } else { history },
        )
    }

    /// What a file's text does, once it was asked for.
    pub open spec fn file_staged(self, path: Seq<char>, content: Seq<char>) -> Model {
        Model {
            file_context: self.file_context + staged_file(path, content),
            staged: self.staged.push(path),
            ..self
        }.pushed(
            Kind::System,
            "staged "@ + path + " ("@ + text::decimal(text::lines_of(content).len())
                + " lines) for the next prompt"@,
        )
    }

    /// What asking the model does. The staged files go into the prompt, and are
    /// staged no longer.
    pub open spec fn asked(self, task: Seq<char>) -> Model {
        Model { file_context: seq![], staged: seq![], last_user: task, ..self }.begun()
    }
}

impl Model {
    /// The scrollback that a session begins with.
    pub open spec fn greeting(cfg: ConfigModel, script_exists: bool) -> Seq<EntryModel> {
        let head = seq![
            EntryModel {
                kind: Kind::System,
                text: "AMADEUS — session "@ + text::decimal(cfg.session as nat),
            },
            EntryModel { kind: Kind::System, text: "root "@ + cfg.root },
        ];
        let warned = if script_exists {
            head
        } else {
            head.push(
                EntryModel {
                    kind: Kind::Error,
                    text: "AMADEUS RAG script not found — expected "@ + config::path_in(
                        cfg.home,
                        "rag/rag.py"@,
                    ) + ". set AMADEUS_HOME to your AMADEUS checkout."@,
                },
            )
        };
        warned.push(
            EntryModel {
                kind: Kind::System,
                text: "type / for commands, ctrl+t for model tier"@,
            },
        )
    }

    /// The state that a session begins in.
    pub open spec fn start(cfg: ConfigModel, script_exists: bool, now: u128) -> Model {
        Model {
            cfg,
            entries: Model::greeting(cfg, script_exists),
            stable: seq![],
            stable_upto: 0,
            wrap_width: 0,
            scroll: 0,
            pinned: true,
            before: seq![],
            after: seq![],
            tier: Tier::Main,
            file_context: seq![],
            staged: seq![],
            busy: None,
            next_id: 0,
            cancel: false,
            response: seq![],
            last_user: seq![],
            agent_idx: None,
            last_key: now,
            idle_since: now,
            used: Set::empty(),
            ticks: 0,
            should_quit: false,
        }
    }

    /// The frame that the spinner shows.
    pub open spec fn spinner(self) -> Seq<char> {
        spinner_frame(self.ticks / 2 % 8)
    }

    /// The right side of the status line: what is going on, how many files are
    /// staged, and which model is asked.
    pub open spec fn status(self) -> Seq<char> {
        (if self.busy is Some { self.spinner() + " "@ } else { seq![] }) + (if self.staged.len()
            > 0 {
            text::decimal(self.staged.len()) + " staged · "@
        } else {
            seq![]
        }) + (config::tier_label(self.tier) + " "@ + self.cfg.model(self.tier))
    }

    /// The hint bar.
    pub open spec fn hint(self, now: u128) -> hint::HintModel {
        hint::hint_of(
            self.input(),
            elapsed(now, self.last_key),
            elapsed(now, self.idle_since),
            self.used,
        )
    }
}

// ---------- what every event keeps ----------

/// A new entry leaves the cache as valid as it was.
pub proof fn pushing_keeps_the_invariant(m: Model, kind: Kind, text: Seq<char>)
    requires
        m.inv(),
    ensures
        m.pushed(kind, text).inv(),
{
    let n = m.stable_upto as int;
    assert(m.pushed(kind, text).entries.take(n) =~= m.entries.take(n));
}

/// Text that is added to the last entry leaves the cache as valid as it was.
proof fn appending_keeps_the_invariant(m: Model, delta: Seq<char>)
    requires
        m.inv(),
    ensures
        m.appended(delta).inv(),
{
    let n = m.stable_upto as int;
    assert(m.appended(delta).entries.take(n) =~= m.entries.take(n));
}

proof fn commands_keep_the_invariant(m: Model, cmd: Seq<char>, arg: Seq<char>)
    requires
        m.inv(),
        m.next_id < u64::MAX,
    ensures
        m.commanded(cmd, arg).0.inv(),
{
    assert(Seq::<EntryModel>::empty().take(0) =~= seq![]);
    assert(m.entries_cleared().inv());
    pushing_keeps_the_invariant(
        Model { file_context: seq![], staged: seq![], ..m.entries_cleared() },
        Kind::System,
        "history cleared"@,
    );
    let tier = config::tier_after(m.tier);
    pushing_keeps_the_invariant(
        Model { tier, ..m },
        Kind::System,
        "model tier → "@ + config::tier_label(tier) + " ("@ + m.cfg.model(tier) + ")"@,
    );
    pushing_keeps_the_invariant(m, Kind::Error, "usage: /file <path>"@);
    pushing_keeps_the_invariant(m, Kind::Error, "usage: /shell <cmd>"@);
    pushing_keeps_the_invariant(m, Kind::Error, "usage: /rag <question>"@);
    pushing_keeps_the_invariant(m, Kind::Error, "usage: /ask <task>"@);
    pushing_keeps_the_invariant(m, Kind::Error, "usage: /agent <task>"@);
    pushing_keeps_the_invariant(m, Kind::Error, "unknown command "@ + cmd);
}

/// What holds of a session holds of it after every line that is sent.
pub proof fn routing_keeps_the_invariant(m: Model, line: Seq<char>)
    requires
        m.inv(),
        m.next_id < u64::MAX,
    ensures
        m.routed(line).0.inv(),
{
    let cmd = text::first_word(line);
    let arg = text::trimmed(line.skip(text::word_end(line) as int));
    commands_keep_the_invariant(Model { used: m.used.insert(cmd), ..m }, cmd, arg);
}

proof fn submitting_keeps_the_invariant(m: Model, now: u128)
    requires
        m.inv(),
        m.next_id < u64::MAX,
    ensures
        m.submitted(now).0.inv(),
{
    let line = text::trimmed(m.input());
    let sent = m.input_cleared(now).pushed(Kind::User, line);
    pushing_keeps_the_invariant(m, Kind::Error, "still working — ctrl+c to cancel"@);
    pushing_keeps_the_invariant(m.input_cleared(now), Kind::User, line);
    routing_keeps_the_invariant(sent, line);
}

/// What holds of a session holds of it after every key.
pub proof fn keys_keep_the_invariant(m: Model, k: KeyEvent, now: u128)
    requires
        m.inv(),
        m.takes_key(k),
    ensures
        m.after_key(k, now).0.inv(),
{
    let n = Model { last_key: now, ..m };
    let tier = config::tier_after(m.tier);
    assert(m.entries.take(0) =~= seq![]);
    assert(Seq::<EntryModel>::empty().take(0) =~= seq![]);
    if k.code == KeyCode::Enter && !k.alt {
        submitting_keeps_the_invariant(n, now);
    }
    pushing_keeps_the_invariant(Model { cancel: true, ..n }, Kind::System, "cancelling…"@);
    pushing_keeps_the_invariant(
        Model { tier, ..n },
        Kind::System,
        "model tier → "@ + config::tier_label(tier) + " ("@ + m.cfg.model(tier) + ")"@,
    );
    assert(n.key_applied(k, now).0.inv());
}

/// What holds of a session holds of it after every event: the cache is valid for
/// the entries before `stable_upto`, and the request in flight, if there is one,
/// is the last that was begun.
pub proof fn every_event_keeps_the_invariant(m: Model, ev: EventModel, now: u128)
    requires
        m.inv(),
        m.takes(ev),
    ensures
        m.after(ev, now).0.inv(),
{
    assert(m.entries.take(0) =~= seq![]);
    assert(Seq::<EntryModel>::empty().take(0) =~= seq![]);
    match ev {
        EventModel::Term(TermModel::Key(k)) => {
            if !k.release {
                keys_keep_the_invariant(m, k, now);
            }
        },
        EventModel::Token { id, delta } => {
            if m.busy == Some(id) {
                let n = if m.streaming() { m } else { m.agent_opened() };
                pushing_keeps_the_invariant(m, Kind::Agent, seq![]);
                appending_keeps_the_invariant(
                    Model { response: n.response + delta, ..n },
                    delta,
                );
            }
        },
        EventModel::Sources { id, hits } => {
            pushing_keeps_the_invariant(
                m,
                Kind::Source,
                "top-k candidates (pre-rerank, pre-margin)\n"@ + text::joined(hits, "\n"@),
            );
        },
        EventModel::Note { id, text } => {
            pushing_keeps_the_invariant(m, Kind::System, text);
        },
        EventModel::Failed { id, text } => {
            pushing_keeps_the_invariant(m, Kind::Error, text);
        },
        _ => {},
    }
}

} // verus!
