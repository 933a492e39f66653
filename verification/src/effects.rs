//! What every line, key and event does, and that what goes through a session goes
//! through it whole.
use vstd::prelude::*;

use crate::app::App;
use crate::config;
use crate::config::{Config, ConfigModel};
use crate::cursor;
use crate::event::{AppEvent, EventModel, KeyCode, KeyEvent, TermEvent, TermModel};
use crate::hint;
use crate::hint::{Cmd, CmdModel, Hint, HintModel};
use crate::model;
use crate::model::{Action, ActionModel, Model};
use crate::ollama;
use crate::ollama::{Answer, AnswerModel, FieldModel, JsonField, StreamInput};
use crate::rag::{CommandLine, CommandModel, OutcomeModel, QueryOutcome, Retrieved};
use crate::scrollback::{Entry, EntryModel, Kind, Line, LineModel, Style};
use crate::text;
use crate::ui::{InputBox, InputModel, MenuBox, MenuRow, Screen, StatusLine, StatusModel};

verus! {

// ---------- what is sent ----------

/// A line that is no command is shown as the user's and handed on as the task, both as it
/// was typed but for white space around it, and the input is empty again.
pub proof fn tasks_are_handed_on_as_typed(m: Model, now: u128)
    requires
        m.busy is None,
        !text::is_blank(m.input()),
        text::trimmed(m.input())[0] != '/',
    ensures
        ({
            let line = text::trimmed(m.input());
            let (n, action) = m.submitted(now);
            &&& action == Some(ActionModel::Ask { task: line })
            &&& n == Model {
                entries: m.entries.push(EntryModel { kind: Kind::User, text: line }),
                pinned: true,
                before: seq![],
                after: seq![],
                idle_since: now,
                ..m
            }
        }),
{
    text::lemma_trimmed_blank(m.input());
}

/// A line that is a command is shown as the user's, and is done with the input cleared.
pub proof fn commands_are_shown_and_done(m: Model, now: u128)
    requires
        m.busy is None,
        !text::is_blank(m.input()),
        text::trimmed(m.input())[0] == '/',
    ensures
        ({
            let line = text::trimmed(m.input());
            let cleared = Model {
                entries: m.entries.push(EntryModel { kind: Kind::User, text: line }),
                pinned: true,
                before: seq![],
                after: seq![],
                idle_since: now,
                ..m
            };
            m.submitted(now) == cleared.routed(line)
        }),
{
    text::lemma_trimmed_blank(m.input());
}

/// Nothing is sent where nothing but white space was typed, and nothing changes.
pub proof fn blank_input_is_not_sent(m: Model, now: u128)
    requires
        text::is_blank(m.input()),
    ensures
        m.submitted(now) == (m, None::<ActionModel>),
{
    text::lemma_trimmed_blank(m.input());
}

/// A command gets what stands behind its name, as it was typed but for white space around
/// it, and hands it on whole: `cmd` is the name, `gap` the white space behind it, and
/// `arg` the rest.
pub proof fn commands_get_their_argument_whole(
    m: Model,
    cmd: Seq<char>,
    gap: Seq<char>,
    arg: Seq<char>,
)
    requires
        cmd.len() > 0,
        cmd[0] == '/',
        forall|i: int| 0 <= i < cmd.len() ==> !text::is_white(#[trigger] cmd[i]),
        gap.len() > 0,
        text::is_blank(gap),
        arg.len() > 0,
        !text::is_white(arg[0]),
        !text::is_white(arg.last()),
        m.next_id < u64::MAX,
    ensures
        ({
            let (n, action) = m.routed(cmd + gap + arg);
            let id = (m.next_id + 1) as u64;
            let noted = Model { used: m.used.insert(cmd), ..m };
            &&& (n, action) == noted.commanded(cmd, arg)
            &&& cmd == "/ask"@ ==> action == Some(ActionModel::Ask { task: arg }) && n == noted
            &&& cmd == "/file"@ ==> action == Some(ActionModel::ReadFile { path: arg }) && n
                == noted
            &&& cmd == "/shell"@ ==> action == Some(ActionModel::Shell { id, cmd: arg }) && n
                == noted.begun()
            &&& cmd == "/index"@ ==> action == Some(ActionModel::Index { id, dir: arg }) && n
                == noted.begun()
            &&& cmd == "/rag"@ ==> action == Some(
                ActionModel::Rag { id, question: arg, model: m.cfg.rag_model(m.tier) },
            ) && n == Model { last_user: "rag "@ + arg, ..noted.begun() }
            &&& cmd == "/agent"@ ==> action == Some(
                ActionModel::Agent { id, task: arg, model: m.cfg.model(m.tier) },
            ) && n == Model { last_user: "agent "@ + arg, ..noted.begun() }
        }),
{
    let line = cmd + gap + arg;
    let k = cmd.len() as int;
    assert forall|j: int| 0 <= j < k implies !text::is_white(#[trigger] line[j]) by {
        assert(line[j] == cmd[j]);
    }
    assert(text::is_white(gap[0]));
    assert(line[k] == gap[0]);
    text::lemma_word_end(line, k);
    assert(text::first_word(line) =~= cmd);
    let rest = line.skip(k);
    assert(rest =~= gap + arg);
    let (i, j) = text::trimming_takes_white_space_only(rest);
    let g = gap.len() as int;
    assert(rest[g] == arg[0]);
    assert(rest[rest.len() - 1] == arg.last());
    if i > g {
        assert(text::is_white(rest[g]));
    }
    if j < rest.len() {
        assert(text::is_white(rest[rest.len() - 1]));
    }
    if i < g {
        assert(rest[i] == gap[i]);
        assert(text::is_white(gap[i]));
    }
    assert(rest.subrange(i, j) =~= arg);
    commands_are_told_apart();
}

/// No two commands have the same name.
proof fn commands_are_told_apart()
    ensures
        "/quit"@ != "/rag"@ && "/exit"@ != "/rag"@ && "/model"@ != "/rag"@ && "/clear"@ != "/rag"@
            && "/history"@ != "/rag"@ && "/file"@ != "/rag"@ && "/index"@ != "/rag"@ && "/shell"@
            != "/rag"@,
        "/quit"@ != "/ask"@ && "/exit"@ != "/ask"@ && "/model"@ != "/ask"@ && "/clear"@ != "/ask"@
            && "/history"@ != "/ask"@ && "/file"@ != "/ask"@ && "/index"@ != "/ask"@ && "/shell"@
            != "/ask"@ && "/rag"@ != "/ask"@,
        "/quit"@ != "/agent"@ && "/exit"@ != "/agent"@ && "/model"@ != "/agent"@ && "/clear"@
            != "/agent"@ && "/history"@ != "/agent"@ && "/file"@ != "/agent"@ && "/index"@
            != "/agent"@ && "/shell"@ != "/agent"@ && "/rag"@ != "/agent"@ && "/ask"@
            != "/agent"@,
        "/quit"@ != "/shell"@ && "/exit"@ != "/shell"@ && "/model"@ != "/shell"@ && "/clear"@
            != "/shell"@ && "/history"@ != "/shell"@ && "/file"@ != "/shell"@ && "/index"@
            != "/shell"@,
        "/quit"@ != "/index"@ && "/exit"@ != "/index"@ && "/model"@ != "/index"@ && "/clear"@
            != "/index"@ && "/history"@ != "/index"@ && "/file"@ != "/index"@,
        "/quit"@ != "/file"@ && "/exit"@ != "/file"@ && "/model"@ != "/file"@ && "/clear"@
            != "/file"@ && "/history"@ != "/file"@,
        "/quit"@ != "/history"@ && "/exit"@ != "/history"@ && "/model"@ != "/history"@ && "/clear"@
            != "/history"@,
        "/quit"@ != "/clear"@ && "/exit"@ != "/clear"@ && "/model"@ != "/clear"@,
        "/quit"@ != "/model"@ && "/exit"@ != "/model"@,
{
    reveal_strlit("/quit");
    reveal_strlit("/exit");
    reveal_strlit("/model");
    reveal_strlit("/clear");
    reveal_strlit("/history");
    reveal_strlit("/file");
    reveal_strlit("/index");
    reveal_strlit("/shell");
    reveal_strlit("/rag");
    reveal_strlit("/ask");
    reveal_strlit("/agent");
    assert("/quit"@[1] == 'q' && "/exit"@[1] == 'e' && "/model"@[1] == 'm' && "/clear"@[1] == 'c');
    assert("/history"@[1] == 'h' && "/file"@[1] == 'f' && "/index"@[1] == 'i');
    assert("/shell"@[1] == 's' && "/rag"@[1] == 'r' && "/ask"@[1] == 'a' && "/agent"@[1] == 'a');
    assert("/ask"@[2] == 's' && "/agent"@[2] == 'g');
}

/// A command with nothing behind it has no argument.
pub proof fn bare_commands_have_no_argument(m: Model, cmd: Seq<char>)
    requires
        cmd.len() > 0,
        cmd[0] == '/',
        forall|i: int| 0 <= i < cmd.len() ==> !text::is_white(#[trigger] cmd[i]),
    ensures
        m.routed(cmd) == (Model { used: m.used.insert(cmd), ..m }).commanded(cmd, seq![]),
{
    let k = cmd.len() as int;
    text::lemma_word_end(cmd, k);
    assert(text::first_word(cmd) =~= cmd);
    assert(cmd.skip(k) =~= seq![]);
    assert(text::trimmed(cmd.skip(k)) =~= seq![]);
}

/// The commands without an argument do what they say: quitting sets out to quit and
/// changes nothing else; the model goes on to the next tier; the history is asked for;
/// indexing takes the working directory. Clearing leaves the one entry that says so, and
/// no staged file, and has the history file emptied.
pub proof fn bare_commands_do_what_they_say(m: Model)
    requires
        m.next_id < u64::MAX,
    ensures
        m.commanded("/quit"@, seq![]) == (Model { should_quit: true, ..m }, None::<ActionModel>),
        m.commanded("/exit"@, seq![]) == (Model { should_quit: true, ..m }, None::<ActionModel>),
        m.commanded("/history"@, seq![]) == (m, Some(ActionModel::ShowHistory)),
        m.commanded("/index"@, seq![]) == (
            m.begun(),
            Some(ActionModel::Index { id: (m.next_id + 1) as u64, dir: "."@ }),
        ),
        m.commanded("/model"@, seq![]) == (m.tier_cycled(), None::<ActionModel>),
        m.commanded("/clear"@, seq![]).1 == Some(ActionModel::ClearHistory),
        m.commanded("/clear"@, seq![]).0 == (Model {
            entries: seq![EntryModel { kind: Kind::System, text: "history cleared"@ }],
            stable: seq![],
            stable_upto: 0,
            file_context: seq![],
            staged: seq![],
            pinned: true,
            ..m
        }),
{
    commands_are_told_apart();
    assert(m.commanded("/clear"@, seq![]).0.entries =~= seq![
        EntryModel { kind: Kind::System, text: "history cleared"@ },
    ]);
}

/// A command that needs an argument and has none says how it is used, and does nothing
/// else.
pub proof fn commands_ask_for_their_argument(m: Model, cmd: Seq<char>)
    requires
        cmd == "/file"@ || cmd == "/shell"@ || cmd == "/rag"@ || cmd == "/ask"@ || cmd == "/agent"@,
    ensures
        ({
            let (n, action) = m.commanded(cmd, seq![]);
            &&& action is None
            &&& n.entries.len() == m.entries.len() + 1
            &&& n.entries.drop_last() == m.entries
            &&& n.entries.last().kind == Kind::Error
            &&& ("usage: "@ + cmd).is_prefix_of(n.entries.last().text)
            &&& n == Model { entries: n.entries, pinned: true, ..m }
        }),
{
    commands_are_told_apart();
    reveal_strlit("usage: ");
    reveal_strlit("/file");
    reveal_strlit("/shell");
    reveal_strlit("/rag");
    reveal_strlit("/ask");
    reveal_strlit("/agent");
    reveal_strlit("usage: /file <path>");
    reveal_strlit("usage: /shell <cmd>");
    reveal_strlit("usage: /rag <question>");
    reveal_strlit("usage: /ask <task>");
    reveal_strlit("usage: /agent <task>");
    let n = m.commanded(cmd, seq![]).0;
    assert(n.entries.drop_last() =~= m.entries);
    let shown = n.entries.last().text;
    let head = "usage: "@ + cmd;
    assert(shown.take(head.len() as int) =~= head);
}

// ---------- what comes in is shown as it is ----------

/// An entry goes to the end of the scrollback as it is; those before it stay, and nothing
/// else changes but that the end is in view.
pub proof fn entries_go_to_the_end_as_they_are(m: Model, kind: Kind, text: Seq<char>)
    ensures
        ({
            let n = m.pushed(kind, text);
            &&& n.entries.len() == m.entries.len() + 1
            &&& n.entries.take(m.entries.len() as int) == m.entries
            &&& n.entries.last().kind == kind
            &&& n.entries.last().text == text
            &&& n == Model { entries: n.entries, pinned: true, ..m }
        }),
{
    let n = m.pushed(kind, text);
    assert(n.entries.take(m.entries.len() as int) =~= m.entries);
}

/// A notice of the request in flight, or of any while none is, is shown as it is; so are
/// the words of a failure, which ends the request. Sources are shown as they are, a line
/// for each. Nothing else changes.
pub proof fn notices_are_shown_as_they_are(
    m: Model,
    id: u64,
    words: Seq<char>,
    hits: Seq<Seq<char>>,
    now: u128,
)
    requires
        m.busy == Some(id),
    ensures
        m.after(EventModel::Note { id, text: words }, now) == (
            m.pushed(Kind::System, words),
            None::<ActionModel>,
        ),
        (Model { busy: None, ..m }).after(EventModel::Note { id, text: words }, now) == (
            (Model { busy: None, ..m }).pushed(Kind::System, words),
            None::<ActionModel>,
        ),
        m.after(EventModel::Failed { id, text: words }, now) == (
            Model { busy: None, agent_idx: None, response: seq![], ..m.pushed(Kind::Error, words) },
            None::<ActionModel>,
        ),
        hits.len() > 0 ==> m.after(EventModel::Sources { id, hits }, now) == (
            m.pushed(
                Kind::Source,
                "top-k candidates (pre-rerank, pre-margin)\n"@ + text::joined(hits, "\n"@),
            ),
            None::<ActionModel>,
        ),
        hits.len() == 0 ==> m.after(EventModel::Sources { id, hits }, now) == (
            m,
            None::<ActionModel>,
        ),
{
}

/// A request that is done leaves the scrollback as it is, and what was gathered of its
/// answer is recorded as it is, under what the user had asked.
pub proof fn done_requests_are_recorded(m: Model, id: u64, now: u128)
    requires
        m.busy == Some(id),
    ensures
        ({
            let (n, action) = m.after(EventModel::Done { id }, now);
            &&& n == Model { busy: None, agent_idx: None, response: seq![], ..m }
            &&& text::is_blank(m.response) ==> action is None
            &&& !text::is_blank(m.response) ==> action == Some(
                ActionModel::AppendHistory {
                    record: model::history_record(m.cfg.session, m.last_user, m.response),
                },
            )
        }),
{
}

/// The history is shown as it was read, and where there is none that is said.
pub proof fn the_history_is_shown_as_it_is(m: Model, history: Seq<char>)
    ensures
        !text::is_blank(history) ==> m.history_shown(history) == m.pushed(Kind::System, history),
        text::is_blank(history) ==> m.history_shown(history) == m.pushed(
            Kind::System,
            "(empty)"@,
        ),
{
}

/// A file is staged behind those that already are, whole, and it is said how many lines
/// it has. Nothing else changes.
pub proof fn files_are_staged_whole(m: Model, path: Seq<char>, content: Seq<char>)
    ensures
        ({
            let n = m.file_staged(path, content);
            let file = model::staged_file(path, content);
            &&& n.file_context.len() == m.file_context.len() + file.len()
            &&& n.file_context.take(m.file_context.len() as int) == m.file_context
            &&& n.file_context.skip(m.file_context.len() as int) == file
            &&& n.staged == m.staged.push(path)
            &&& n == Model { file_context: n.file_context, staged: n.staged, ..m }.pushed(
                Kind::System,
                "staged "@ + path + " ("@ + text::decimal(text::lines_of(content).len())
                    + " lines) for the next prompt"@,
            )
        }),
{
    let n = m.file_staged(path, content);
    assert(n.file_context.take(m.file_context.len() as int) =~= m.file_context);
    assert(n.file_context.skip(m.file_context.len() as int) =~= model::staged_file(path, content));
}

/// Asking takes the staged files out and begins a request; the scrollback and everything
/// that was typed stay.
pub proof fn asking_changes_the_request_only(m: Model, task: Seq<char>)
    ensures
        m.asked(task) == (Model {
            file_context: seq![],
            staged: seq![],
            last_user: task,
            next_id: m.next_id + 1,
            busy: Some((m.next_id + 1) as u64),
            cancel: false,
            response: seq![],
            agent_idx: None,
            ..m
        }),
{
}

/// The next tier is taken, and it is said which model that is. Nothing else changes.
pub proof fn the_tier_is_told(m: Model)
    ensures
        ({
            let n = m.tier_cycled();
            &&& n.tier == config::tier_after(m.tier)
            &&& n == Model { tier: n.tier, ..m }.pushed(
                Kind::System,
                "model tier → "@ + config::tier_label(n.tier) + " ("@ + m.cfg.model(n.tier) + ")"@,
            )
        }),
{
}

/// The status names the tier and its model at its end, before that the number of staged
/// files, if there are any, and before that the spinner, if a request is in flight.
pub proof fn the_status_says_what_goes_on(m: Model)
    ensures
        ({
            let status = m.status();
            let model = config::tier_label(m.tier) + " "@ + m.cfg.model(m.tier);
            let files = if m.staged.len() > 0 {
                text::decimal(m.staged.len()) + " staged · "@
            } else {
                seq![]
            };
            let spin = if m.busy is Some { m.spinner() + " "@ } else { seq![] };
            &&& status.len() == spin.len() + files.len() + model.len()
            &&& status.take(spin.len() as int) == spin
            &&& status.subrange(spin.len() as int, (spin.len() + files.len()) as int) == files
            &&& status.skip((spin.len() + files.len()) as int) == model
        }),
{
    let status = m.status();
    let model = config::tier_label(m.tier) + " "@ + m.cfg.model(m.tier);
    let files = if m.staged.len() > 0 {
        text::decimal(m.staged.len()) + " staged · "@
    } else {
        seq![]
    };
    let spin = if m.busy is Some { m.spinner() + " "@ } else { seq![] };
    assert(status.take(spin.len() as int) =~= spin);
    assert(status.subrange(spin.len() as int, (spin.len() + files.len()) as int) =~= files);
    assert(status.skip((spin.len() + files.len()) as int) =~= model);
}

/// The spinner moves on with every second tick, and comes round after sixteen. A tick
/// changes nothing else.
pub proof fn the_spinner_turns(m: Model, now: u128)
    ensures
        m.after(EventModel::Tick, now) == (
            Model { ticks: m.ticks + 1, ..m },
            None::<ActionModel>,
        ),
        m.ticks % 2 == 0 ==> (Model { ticks: m.ticks + 1, ..m }).spinner() == m.spinner(),
        (Model { ticks: m.ticks + 2, ..m }).spinner() != m.spinner(),
        (Model { ticks: m.ticks + 16, ..m }).spinner() == m.spinner(),
{
    reveal_strlit("⠋");
    reveal_strlit("⠙");
    reveal_strlit("⠹");
    reveal_strlit("⠸");
    reveal_strlit("⠼");
    reveal_strlit("⠴");
    reveal_strlit("⠦");
    reveal_strlit("⠧");
    assert("⠋"@[0] == '⠋' && "⠙"@[0] == '⠙' && "⠹"@[0] == '⠹' && "⠸"@[0] == '⠸');
    assert("⠼"@[0] == '⠼' && "⠴"@[0] == '⠴' && "⠦"@[0] == '⠦' && "⠧"@[0] == '⠧');
}

// ---------- keys ----------

/// A key that puts a character in puts in that character: any one without the control
/// key, and with it those that are bound to nothing. Alt and enter put in a newline.
pub proof fn characters_are_typed_as_they_are(m: Model, k: KeyEvent, c: char, now: u128)
    requires
        k.code == KeyCode::Char(c),
        k.ctrl ==> c != 'c' && c != 't' && c != 'l' && c != 'u' && c != 'w' && c != 'a' && c != 'e'
            && (c == 'd' ==> m.input().len() > 0),
    ensures
        m.key_applied(k, now) == (m.inserted(seq![c]), None::<ActionModel>),
        m.key_applied(KeyEvent { code: KeyCode::Enter, alt: true, ..k }, now) == (
            m.inserted(seq!['\n']),
            None::<ActionModel>,
        ),
{
    reveal_strlit("\n");
    assert("\n"@ =~= seq!['\n']);
}

/// What is pasted goes in as it is, and so does what was typed before stay; a resize
/// forgets the wrapped lines and nothing else; a key that comes up changes nothing.
pub proof fn pastes_go_in_as_they_are(m: Model, s: Seq<char>, k: KeyEvent, now: u128)
    ensures
        m.after(EventModel::Term(TermModel::Paste(s)), now) == (
            (Model { last_key: now, ..m }).inserted(s),
            None::<ActionModel>,
        ),
        m.after(EventModel::Term(TermModel::Resize), now) == (
            Model { stable: seq![], stable_upto: 0, ..m },
            None::<ActionModel>,
        ),
        m.after(EventModel::Term(TermModel::Other), now) == (m, None::<ActionModel>),
        k.release ==> m.after(EventModel::Term(TermModel::Key(k)), now) == (
            m,
            None::<ActionModel>,
        ),
        !k.release ==> m.after(EventModel::Term(TermModel::Key(k)), now) == m.after_key(k, now),
{
}

/// Every key is noted with its time, and from a key that leaves no input the session is
/// idle.
pub proof fn keys_are_timed(m: Model, k: KeyEvent, now: u128)
    ensures
        ({
            let (n, action) = m.after_key(k, now);
            let (plain, same) = Model { last_key: now, ..m }.key_applied(k, now);
            &&& n.last_key == now
            &&& n.input().len() == 0 ==> n.idle_since == now
            &&& n.input().len() > 0 ==> n == plain
            &&& n == Model { idle_since: n.idle_since, ..plain }
            &&& action == same
        }),
{
}

/// Control and C stop the request in flight, or else clear what was typed, or else quit;
/// control and D quit where nothing was typed. Nothing else changes.
pub proof fn control_c_stops_or_quits(m: Model, k: KeyEvent, now: u128)
    requires
        k.ctrl,
    ensures
        ({
            let c = KeyEvent { code: KeyCode::Char('c'), ..k };
            let d = KeyEvent { code: KeyCode::Char('d'), ..k };
            let quit = (Model { should_quit: true, ..m }, None::<ActionModel>);
            &&& m.busy is Some ==> m.key_applied(c, now) == (
                Model { cancel: true, ..m }.pushed(Kind::System, "cancelling…"@),
                None::<ActionModel>,
            )
            &&& m.busy is None && m.input().len() > 0 ==> m.key_applied(c, now) == (
                m.input_cleared(now),
                None::<ActionModel>,
            )
            &&& m.busy is None && m.input().len() == 0 ==> m.key_applied(c, now) == quit
            &&& m.input().len() == 0 ==> m.key_applied(d, now) == quit
        }),
{
}

/// The other control keys: T goes on to the next tier, L clears the scrollback, U the
/// input, W the last word, A and E go to the ends of the input.
pub proof fn control_keys_are_bound(m: Model, k: KeyEvent, now: u128)
    requires
        k.ctrl,
    ensures
        m.key_applied(KeyEvent { code: KeyCode::Char('t'), ..k }, now) == (
            m.tier_cycled(),
            None::<ActionModel>,
        ),
        m.key_applied(KeyEvent { code: KeyCode::Char('l'), ..k }, now) == (
            Model { entries: seq![], stable: seq![], stable_upto: 0, ..m },
            None::<ActionModel>,
        ),
        m.key_applied(KeyEvent { code: KeyCode::Char('u'), ..k }, now) == (
            m.input_cleared(now),
            None::<ActionModel>,
        ),
        m.key_applied(KeyEvent { code: KeyCode::Char('w'), ..k }, now) == (
            m.word_deleted(),
            None::<ActionModel>,
        ),
        m.key_applied(KeyEvent { code: KeyCode::Char('a'), ..k }, now) == (
            m.moved_home(),
            None::<ActionModel>,
        ),
        m.key_applied(KeyEvent { code: KeyCode::Char('e'), ..k }, now) == (
            m.moved_to_end(),
            None::<ActionModel>,
        ),
{
}

/// Enter sends, tab completes, and the editing keys edit and move as they are named.
pub proof fn editing_keys_are_bound(m: Model, k: KeyEvent, now: u128)
    ensures
        !k.alt ==> m.key_applied(KeyEvent { code: KeyCode::Enter, ..k }, now) == m.submitted(now),
        m.key_applied(KeyEvent { code: KeyCode::Tab, ..k }, now) == (
            m.completed(),
            None::<ActionModel>,
        ),
        m.key_applied(KeyEvent { code: KeyCode::Backspace, ..k }, now) == (
            m.backspaced(),
            None::<ActionModel>,
        ),
        m.key_applied(KeyEvent { code: KeyCode::Delete, ..k }, now) == (
            m.deleted(),
            None::<ActionModel>,
        ),
        m.key_applied(KeyEvent { code: KeyCode::Left, ..k }, now) == (
            m.moved_left(),
            None::<ActionModel>,
        ),
        m.key_applied(KeyEvent { code: KeyCode::Right, ..k }, now) == (
            m.moved_right(),
            None::<ActionModel>,
        ),
        m.key_applied(KeyEvent { code: KeyCode::Home, ..k }, now) == (
            m.moved_home(),
            None::<ActionModel>,
        ),
        m.input().len() > 0 ==> m.key_applied(KeyEvent { code: KeyCode::End, ..k }, now) == (
            m.moved_to_end(),
            None::<ActionModel>,
        ),
        m.key_applied(KeyEvent { code: KeyCode::Other, ..k }, now) == (m, None::<ActionModel>),
{
}

/// The page keys scroll by ten lines and the arrow keys, with control, by one. Going up
/// stops at the first line and unpins; nothing else changes.
pub proof fn scrolling_keys_scroll(m: Model, k: KeyEvent, now: u128)
    ensures
        ({
            let up = m.key_applied(KeyEvent { code: KeyCode::PageUp, ..k }, now).0;
            let down = m.key_applied(KeyEvent { code: KeyCode::PageDown, ..k }, now).0;
            let one_up = m.key_applied(KeyEvent { code: KeyCode::Up, ctrl: true, ..k }, now).0;
            let one_down = m.key_applied(KeyEvent { code: KeyCode::Down, ctrl: true, ..k }, now).0;
            &&& up == Model { scroll: up.scroll, pinned: false, ..m }
            &&& m.scroll >= 10 ==> up.scroll == m.scroll - 10
            &&& m.scroll < 10 ==> up.scroll == 0
            &&& down == Model { scroll: m.scroll + 10, ..m }
            &&& one_up == Model { scroll: one_up.scroll, pinned: false, ..m }
            &&& m.scroll >= 1 ==> one_up.scroll == m.scroll - 1
            &&& m.scroll == 0 ==> one_up.scroll == 0
            &&& one_down == Model { scroll: m.scroll + 1, ..m }
        }),
        m.key_applied(KeyEvent { code: KeyCode::Up, ctrl: false, ..k }, now) == (
            m,
            None::<ActionModel>,
        ),
        m.key_applied(KeyEvent { code: KeyCode::Down, ctrl: false, ..k }, now) == (
            m,
            None::<ActionModel>,
        ),
{
}

// ---------- the clock ----------

/// Hints go by the time since the last key and since the input became empty; a clock that
/// is behind counts as no time.
pub proof fn hints_go_by_the_clock(m: Model, now: u128)
    ensures
        ({
            let since_key = if now >= m.last_key { now - m.last_key } else { 0 };
            let idle_for = if now >= m.idle_since { now - m.idle_since } else { 0 };
            m.hint(now) == hint::hint_of(
                m.before + m.after,
                since_key as u128,
                idle_for as u128,
                m.used,
            )
        }),
{
}

// ---------- what a session can take ----------

/// Every event can be taken but these: a tick, a request or a scroll at the end of its
/// counter, and the deletion of a word behind a wide white-space character.
pub proof fn almost_everything_is_taken(m: Model, ev: EventModel)
    requires
        m.ticks < u64::MAX,
        m.next_id < u64::MAX,
        m.scroll + 10 <= usize::MAX,
        ev matches EventModel::Term(TermModel::Key(k)) && k.code == KeyCode::Char('w') && k.ctrl
            ==> cursor::word_break_is_ascii(m.before),
    ensures
        m.takes(ev),
{
}

/// A word can be deleted wherever the white space before it is a character of one byte,
/// or nothing.
pub proof fn words_behind_plain_white_space_can_be_deleted(a: Seq<char>)
    requires
        forall|i: int|
            0 <= i < a.len() && text::is_white(#[trigger] a[i]) ==> a[i] <= '\u{7f}',
    ensures
        cursor::word_break_is_ascii(a),
{
    let j = text::trimming_the_end(a);
    let t = text::trimmed_end(a);
    text::the_last_word_begins_behind_white_space(t);
    let k = text::last_word_start(t) as int;
    if k > 0 {
        assert(t[k - 1] == a[k - 1]);
    }
}

// ---------- how a session begins ----------

/// A session begins with nothing typed, staged, used or asked, on the main tier. Its
/// scrollback names the session and the project, and says where the retrieval script was
/// expected exactly where it is missing.
pub proof fn sessions_begin_fresh(cfg: ConfigModel, script_exists: bool, now: u128)
    ensures
        ({
            let m = Model::start(cfg, script_exists, now);
            let n = m.entries.len() as int;
            &&& m.cfg == cfg
            &&& n == (if script_exists { 3int } else { 4int })
            &&& m.entries[0] == EntryModel {
                kind: Kind::System,
                text: "AMADEUS — session "@ + text::decimal(cfg.session as nat),
            }
            &&& m.entries[1] == EntryModel { kind: Kind::System, text: "root "@ + cfg.root }
            &&& !script_exists ==> m.entries[2] == EntryModel {
                kind: Kind::Error,
                text: "AMADEUS RAG script not found — expected "@ + config::path_in(
                    cfg.home,
                    "rag/rag.py"@,
                ) + ". set AMADEUS_HOME to your AMADEUS checkout."@,
            }
            &&& m.entries[n - 1] == EntryModel {
                kind: Kind::System,
                text: "type / for commands, ctrl+t for model tier"@,
            }
            &&& m.before.len() == 0 && m.after.len() == 0 && m.pinned && m.scroll == 0
            &&& m.busy is None && m.next_id == 0 && !m.cancel && m.agent_idx is None
            &&& m.response.len() == 0 && m.last_user.len() == 0
            &&& m.file_context.len() == 0 && m.staged.len() == 0
            &&& m.used == Set::<Seq<char>>::empty()
            &&& m.tier == config::Tier::Main
            &&& m.last_key == now && m.idle_since == now && m.ticks == 0 && !m.should_quit
            &&& m.stable.len() == 0 && m.stable_upto == 0 && m.wrap_width == 0
        }),
{
}

// ---------- the commands and the tips ----------

/// Every command that is offered begins with a slash, has no white space in its name, and
/// shares its name with no other.
pub proof fn offered_commands_can_be_typed(i: int, j: int)
    requires
        0 <= i < hint::command_table().len(),
        0 <= j < hint::command_table().len(),
    ensures
        hint::command_table().len() == 10,
        hint::command_table()[i].name[0] == '/',
        text::first_word(hint::command_table()[i].name) == hint::command_table()[i].name,
        hint::command_table()[i].name == hint::command_table()[j].name ==> i == j,
{
    commands_are_told_apart();
    reveal_strlit("/quit");
    reveal_strlit("/model");
    reveal_strlit("/clear");
    reveal_strlit("/history");
    reveal_strlit("/file");
    reveal_strlit("/index");
    reveal_strlit("/shell");
    reveal_strlit("/rag");
    reveal_strlit("/ask");
    reveal_strlit("/agent");
    let name = hint::command_table()[i].name;
    assert forall|k: int| 0 <= k < name.len() implies !text::is_white(#[trigger] name[k]) by {
        assert('/' <= name[k] <= 'z');
    }
    text::lemma_word_end(name, name.len() as int);
    assert(name.take(name.len() as int) =~= name);
}

// ---------- values are seen whole ----------

/// The session's state is seen as it is, field by field.
pub proof fn sessions_are_seen_whole(app: App)
    ensures
        app@.cfg == app.cfg@,
        app@.entries == app.entries.deep_view(),
        app@.stable == app.stable.deep_view(),
        app@.stable_upto == app.stable_upto,
        app@.wrap_width == app.wrap_width,
        app@.scroll == app.scroll,
        app@.pinned == app.pinned,
        app@.before == cursor::before(app.input@, app.cursor as int),
        app@.after == cursor::after(app.input@, app.cursor as int),
        app@.tier == app.tier,
        app@.file_context == app.file_context@,
        app@.staged == app.staged.deep_view(),
        app@.busy == app.busy,
        app@.next_id == app.next_id,
        app@.cancel == app.cancel,
        app@.response == app.response@,
        app@.last_user == app.last_user@,
        app@.agent_idx is Some <==> app.agent_idx is Some,
        app.agent_idx is Some ==> app@.agent_idx->0 == app.agent_idx->0,
        app@.last_key == app.last_key,
        app@.idle_since == app.idle_since,
        app@.used == app.used@,
        app@.ticks == app.ticks,
        app@.should_quit == app.should_quit,
{
}

/// Settings are seen as they are.
pub proof fn settings_are_seen_whole(cfg: Config)
    ensures
        cfg@.root == cfg.root@,
        cfg@.home == cfg.home@,
        cfg@.ollama_url == cfg.ollama_url@,
        cfg@.fast_model == cfg.fast_model@,
        cfg@.main_model == cfg.main_model@,
        cfg@.heavy_model == cfg.heavy_model@,
        cfg@.history_file == cfg.history_file@,
        cfg@.session == cfg.session,
{
}

/// Events are seen as they are.
pub proof fn events_are_seen_whole(
    id: u64,
    words: String,
    hits: Vec<String>,
    k: KeyEvent,
    e: TermEvent,
)
    ensures
        (AppEvent::Tick)@ == EventModel::Tick,
        AppEvent::Term(e)@ == EventModel::Term(e@),
        (AppEvent::Token { id, delta: words })@ == (EventModel::Token { id, delta: words@ }),
        (AppEvent::Note { id, text: words })@ == (EventModel::Note { id, text: words@ }),
        (AppEvent::Failed { id, text: words })@ == (EventModel::Failed { id, text: words@ }),
        (AppEvent::Sources { id, hits })@ == (EventModel::Sources { id, hits: hits.deep_view() }),
        (AppEvent::Done { id })@ == (EventModel::Done { id }),
        TermEvent::Key(k)@ == TermModel::Key(k),
        TermEvent::Paste(words)@ == TermModel::Paste(words@),
        (TermEvent::Resize)@ == TermModel::Resize,
        (TermEvent::Other)@ == TermModel::Other,
{
}

/// Actions are seen as they are.
pub proof fn actions_are_seen_whole(id: u64, words: String, model: String)
    ensures
        (Action::AppendHistory { record: words })@ == (ActionModel::AppendHistory { record: words@ }),
        (Action::ClearHistory)@ == ActionModel::ClearHistory,
        (Action::ShowHistory)@ == ActionModel::ShowHistory,
        (Action::Ask { task: words })@ == (ActionModel::Ask { task: words@ }),
        (Action::ReadFile { path: words })@ == (ActionModel::ReadFile { path: words@ }),
        (Action::Index { id, dir: words })@ == (ActionModel::Index { id, dir: words@ }),
        (Action::Shell { id, cmd: words })@ == (ActionModel::Shell { id, cmd: words@ }),
        (Action::Rag { id, question: words, model })@ == (ActionModel::Rag {
            id,
            question: words@,
            model: model@,
        }),
        (Action::Agent { id, task: words, model })@ == (ActionModel::Agent {
            id,
            task: words@,
            model: model@,
        }),
        (Action::Generate { id, model, prompt: words })@ == (ActionModel::Generate {
            id,
            model: model@,
            prompt: words@,
        }),
{
}

/// Entries, lines and hints are seen as they are.
pub proof fn lines_are_seen_whole(
    entry: Entry,
    gutter: String,
    piece: String,
    style: Style,
    c: Cmd,
    cmds: Vec<Cmd>,
)
    ensures
        entry@ == (EntryModel { kind: entry.kind, text: entry.text@ }),
        (Line::Blank)@ == LineModel::Blank,
        (Line::Text { gutter, piece, style })@ == (LineModel::Text {
            gutter: gutter@,
            piece: piece@,
            style,
        }),
        c@ == (CmdModel { name: c.name@, args: c.args@, help: c.help@ }),
        (Hint::Hidden)@ == HintModel::Hidden,
        Hint::Tip(piece)@ == HintModel::Tip(piece@),
        Hint::Menu(cmds)@ == HintModel::Menu(cmds.deep_view()),
{
}

/// Answers and what processes came to are seen as they are.
pub proof fn answers_are_seen_whole(
    words: String,
    code: u16,
    inputs: Vec<StreamInput>,
    flag: bool,
    found: Retrieved,
    line: CommandLine,
)
    ensures
        (StreamInput::Cancelled)@ == ollama::InputModel::Cancelled,
        StreamInput::Line(words)@ == ollama::InputModel::Line(words@),
        (StreamInput::Eof)@ == ollama::InputModel::Eof,
        StreamInput::Broke(words)@ == ollama::InputModel::Broke(words@),
        (Answer::Status { code, detail: words })@ == (AnswerModel::Status { code, detail: words@ }),
        Answer::Unreachable(words)@ == AnswerModel::Unreachable(words@),
        Answer::Stream(inputs)@ == AnswerModel::Stream(inputs.deep_view()),
        JsonField::Text(words).deep_view() == FieldModel::Text(words@),
        JsonField::Flag(flag).deep_view() == FieldModel::Flag(flag),
        JsonField::Other.deep_view() == FieldModel::Other,
        QueryOutcome::Found(found)@ == (OutcomeModel::Found {
            hits: found.hits.deep_view(),
            prompt: found.prompt@,
        }),
        (QueryOutcome::NoContext)@ == OutcomeModel::NoContext,
        QueryOutcome::Failed(words)@ == OutcomeModel::Failed(words@),
        line@ == (CommandModel { program: line.program@, args: line.args.deep_view() }),
{
}

/// Screens are seen as they are.
pub proof fn screens_are_seen_whole(
    screen: Screen,
    input: InputBox,
    status: StatusLine,
    menu: MenuBox,
    row: MenuRow,
)
    ensures
        screen@.scrollback_area == screen.scrollback_area,
        screen@.scrollback == screen.scrollback.deep_view(),
        screen@.input == screen.input@,
        screen@.status == screen.status@,
        screen@.menu == screen.menu.deep_view(),
        input@ == (InputModel {
            area: input.area,
            title: input.title@,
            border: input.border,
            rows: input.rows.deep_view(),
            cursor: input.cursor,
        }),
        status@ == (StatusModel {
            left_area: status.left_area,
            left: status.left@,
            right_area: status.right_area,
            right: status.right@,
        }),
        menu.deep_view().area == menu.area,
        menu.deep_view().rows == menu.rows.deep_view(),
        row.deep_view() == (CmdModel { name: row.name@, args: row.args@, help: row.help@ }),
{
}

} // verus!
