//! The session at work.
use vstd::prelude::*;
use vstd::string::StringExecFns;

use crate::config::{Config, Tier};
use crate::cursor;
use crate::event::{AppEvent, EventModel, KeyCode, KeyEvent, TermEvent};
use crate::hint;
use crate::hint::{Hint, UsedCommands};
use crate::model;
use crate::model::{build_prompt, write_history, Action, ActionModel, Model};
use crate::scrollback::{Entry, Kind, Line};
use crate::text::{
    blank, concat2, concat3, join, lines, number, split_word, starts_with_char, str_eq, trim,
};

verus! {

/// How long the screen may stay as it is while nothing happens, in milliseconds.
pub const QUIET_REDRAW: u64 = 250;

pub struct App {
    pub cfg: Config,

    pub entries: Vec<Entry>,

    /// Wrapped lines for every entry before `stable_upto`.
    pub stable: Vec<Line>,
    pub stable_upto: usize,
    pub wrap_width: u16,
    pub scroll: usize,
    pub pinned: bool,

    pub input: String,

    /// Byte offset into `input`.
    pub cursor: usize,

    pub tier: Tier,
    pub file_context: String,
    pub staged: Vec<String>,
    pub busy: Option<u64>,

    pub next_id: u64,

    /// Whether the request in flight has been asked to stop.
    pub cancel: bool,

    /// Accumulated text of the in-flight answer, for the history file.
    pub response: String,
    pub last_user: String,

    /// Index of the Agent entry currently being streamed into.
    pub agent_idx: Option<usize>,

    /// When the last key came, in nanoseconds on a clock that does not go back.
    pub last_key: u128,
    /// When the input buffer last became empty, on the same clock.
    pub idle_since: u128,
    pub used: UsedCommands,
    pub ticks: u64,
    pub should_quit: bool,
}

impl View for App {
    type V = Model;

    open spec fn view(&self) -> Model {
        Model {
            cfg: self.cfg@,
            entries: self.entries.deep_view(),
            stable: self.stable.deep_view(),
            stable_upto: self.stable_upto as nat,
            wrap_width: self.wrap_width,
            scroll: self.scroll as nat,
            pinned: self.pinned,
            before: cursor::before(self.input@, self.cursor as int),
            after: cursor::after(self.input@, self.cursor as int),
            tier: self.tier,
            file_context: self.file_context@,
            staged: self.staged.deep_view(),
            busy: self.busy,
            next_id: self.next_id as nat,
            cancel: self.cancel,
            response: self.response@,
            last_user: self.last_user@,
            agent_idx: match self.agent_idx {
                Some(i) => Some(i as nat),
                None => None,
            },
            last_key: self.last_key,
            idle_since: self.idle_since,
            used: self.used@,
            ticks: self.ticks as nat,
            should_quit: self.should_quit,
        }
    }
}

impl App {
    /// What holds of every session between events.
    pub open spec fn wf(&self) -> bool {
        &&& cursor::on_boundary(self.input@, self.cursor as int)
        &&& self@.inv()
    }
}

fn time_since(now: u128, then: u128) -> (r: u128)
    ensures
        r == model::elapsed(now, then),
{
    if now >= then { now - then } else { 0 }
}

impl App {
    /// Begins a session. `script_exists` says whether the retrieval script is a
    /// file, and `now` is the time.
    pub fn new(cfg: Config, script_exists: bool, now: u128) -> (r: App)
        ensures
            r.wf(),
            r@ == Model::start(cfg@, script_exists, now),
    {
        let ghost cfg_model = cfg@;
        let entries: Vec<Entry> = Vec::new();
        let stable: Vec<Line> = Vec::new();
        let staged: Vec<String> = Vec::new();
        let input = String::new();
        proof {
            cursor::lemma_ends(input@);
            assert(entries.deep_view() =~= seq![]);
            assert(stable.deep_view() =~= seq![]);
            assert(staged.deep_view() =~= seq![]);
        }
        let mut app = App {
            cfg,
            entries,
            stable,
            stable_upto: 0,
            wrap_width: 0,
            scroll: 0,
            pinned: true,
            input,
            cursor: 0,
            tier: Tier::Main,
            file_context: String::new(),
            staged,
            busy: None,
            next_id: 0,
            cancel: false,
            response: String::new(),
            last_user: String::new(),
            agent_idx: None,
            last_key: now,
            idle_since: now,
            used: UsedCommands::new(),
            ticks: 0,
            should_quit: false,
        };
        let session = concat2("AMADEUS — session ", number(app.cfg.session).as_str());
        app.push(Kind::System, session);
        let root = concat2("root ", app.cfg.root.as_str());
        app.push(Kind::System, root);
        if !script_exists {
            let script = crate::rag::script(app.cfg.home.as_str());
            let text = concat3(
                "AMADEUS RAG script not found — expected ",
                script.as_str(),
                ". set AMADEUS_HOME to your AMADEUS checkout.",
            );
            app.push(Kind::Error, text);
        }
        app.push(
            Kind::System,
            String::from_str("type / for commands, ctrl+t for model tier"),
        );
        proof {
            assert(app@.entries =~= Model::greeting(cfg_model, script_exists));
            assert(app@.entries.take(0) =~= seq![]);
        }
        app
    }

    // ---------- scrollback ----------

    /// Puts an entry at the end of the scrollback, and the end in view.
    pub fn push(&mut self, kind: Kind, text: String)
        ensures
            final(self)@ == old(self)@.pushed(kind, text@),
            final(self).input == old(self).input,
            final(self).cursor == old(self).cursor,
            old(self).wf() ==> final(self).wf(),
    {
        proof {
            if self@.inv() {
                model::pushing_keeps_the_invariant(self@, kind, text@);
            }
        }
        let entry = Entry { kind, text };
        let ghost entries = self.entries.deep_view();
        self.entries.push(entry);
        assert(self.entries.deep_view() =~= entries.push(entry@));
        self.pinned = true;
    }

    /// Only the last entry is ever mutated, which is what lets the wrap cache
    /// stay valid for everything before it.
    fn append_last(&mut self, delta: &str)
        ensures
            final(self)@ == old(self)@.appended(delta@),
            final(self).input == old(self).input,
            final(self).cursor == old(self).cursor,
    {
        let ghost entries = self.entries.deep_view();
        if let Some(mut last) = self.entries.pop() {
            assert(last@ == entries.last());
            last.text.append(delta);
            self.entries.push(last);
            assert(self.entries.deep_view() =~= entries.update(entries.len() - 1, last@));
        }
    }

    /// Forgets the wrapped lines.
    pub fn invalidate_wrap(&mut self)
        ensures
            final(self)@ == old(self)@.wrap_invalidated(),
            final(self).input == old(self).input,
            final(self).cursor == old(self).cursor,
            old(self).wf() ==> final(self).wf(),
    {
        assert(self@.entries.take(0) =~= seq![]);
        self.stable.clear();
        self.stable_upto = 0;
        assert(self.stable.deep_view() =~= seq![]);
    }

    // ---------- request lifecycle ----------

    fn begin(&mut self) -> (id: u64)
        requires
            old(self).next_id < u64::MAX,
        ensures
            final(self)@ == old(self)@.begun(),
            id == old(self).next_id + 1,
            final(self).input == old(self).input,
            final(self).cursor == old(self).cursor,
    {
        self.next_id = self.next_id + 1;
        self.busy = Some(self.next_id);
        self.cancel = false;
        self.response = String::new();
        self.agent_idx = None;
        self.next_id
    }

    fn open_agent_entry(&mut self)
        ensures
            final(self)@ == old(self)@.agent_opened(),
            final(self).input == old(self).input,
            final(self).cursor == old(self).cursor,
    {
        let at = self.entries.len();
        self.push(Kind::Agent, String::new());
        self.agent_idx = Some(at);
    }

    /// True when the last entry is the Agent entry that is being streamed into.
    fn streaming(&self) -> (r: bool)
        ensures
            r == self@.streaming(),
    {
        let n = self.entries.len();
        match self.agent_idx {
            Some(i) => if n > 0 && i == n - 1 {
                assert(self@.entries.last() == self.entries@[n - 1]@);
                self.entries[i].kind == Kind::Agent
            } else {
                false
            },
            None => false,
        }
    }

    /// Ends the request in flight; what it answered goes into the history.
    fn finish(&mut self) -> (r: Option<Action>)
        ensures
            final(self)@ == old(self)@.ended(),
            r.deep_view() == old(self)@.exchange(),
            final(self).input == old(self).input,
            final(self).cursor == old(self).cursor,
    {
        let action = if blank(self.response.as_str()) {
            None
        } else {
            Some(
                Action::AppendHistory {
                    record: write_history(
                        self.cfg.session,
                        self.last_user.as_str(),
                        self.response.as_str(),
                    ),
                },
            )
        };
        self.busy = None;
        self.agent_idx = None;
        self.response = String::new();
        action
    }

    // ---------- input editing ----------

    fn insert_str(&mut self, s: &str)
        requires
            cursor::on_boundary(old(self).input@, old(self).cursor as int),
        ensures
            cursor::on_boundary(final(self).input@, final(self).cursor as int),
            final(self)@ == old(self)@.inserted(s@),
    {
        let (input, cursor) = cursor::insert_at(self.input.as_str(), self.cursor, s);
        self.input = input;
        self.cursor = cursor;
    }

    fn clear_input(&mut self, now: u128)
        ensures
            cursor::on_boundary(final(self).input@, final(self).cursor as int),
            final(self)@ == old(self)@.input_cleared(now),
    {
        self.input = String::new();
        self.cursor = 0;
        self.idle_since = now;
        proof {
            cursor::lemma_ends(self.input@);
        }
    }

    fn backspace(&mut self)
        requires
            cursor::on_boundary(old(self).input@, old(self).cursor as int),
        ensures
            cursor::on_boundary(final(self).input@, final(self).cursor as int),
            final(self)@ == old(self)@.backspaced(),
    {
        proof {
            cursor::lemma_boundary_cuts(self.input@, self.cursor as int);
            cursor::lemma_byte_len_bounds(self@.before);
        }
        let (input, cursor) = cursor::remove_before(self.input.as_str(), self.cursor);
        self.input = input;
        self.cursor = cursor;
    }

    fn delete(&mut self)
        requires
            cursor::on_boundary(old(self).input@, old(self).cursor as int),
        ensures
            cursor::on_boundary(final(self).input@, final(self).cursor as int),
            final(self)@ == old(self)@.deleted(),
    {
        proof {
            cursor::lemma_boundary_cuts(self.input@, self.cursor as int);
            cursor::lemma_byte_len_bounds(self@.after);
        }
        let (input, cursor) = cursor::remove_after(self.input.as_str(), self.cursor);
        self.input = input;
        self.cursor = cursor;
    }

    fn delete_word(&mut self)
        requires
            cursor::on_boundary(old(self).input@, old(self).cursor as int),
            cursor::word_break_is_ascii(old(self)@.before),
        ensures
            cursor::on_boundary(final(self).input@, final(self).cursor as int),
            final(self)@ == old(self)@.word_deleted(),
    {
        let (input, cursor) = cursor::remove_word(self.input.as_str(), self.cursor);
        self.input = input;
        self.cursor = cursor;
    }

    fn move_left(&mut self)
        requires
            cursor::on_boundary(old(self).input@, old(self).cursor as int),
        ensures
            cursor::on_boundary(final(self).input@, final(self).cursor as int),
            final(self)@ == old(self)@.moved_left(),
    {
        let ghost m = self@;
        let p = cursor::prev_boundary(self.input.as_str(), self.cursor);
        proof {
            cursor::lemma_boundary_cuts(self.input@, self.cursor as int);
            cursor::lemma_byte_len_bounds(m.before);
            if m.before.len() > 0 {
                cursor::lemma_step_left(m.before, m.after, p as int);
                let rest = seq![m.before.last()] + m.after;
                assert(m.before.drop_last() + rest =~= self.input@);
                cursor::lemma_cut(m.before.drop_last(), rest);
            }
        }
        self.cursor = p;
    }

    fn move_right(&mut self)
        requires
            cursor::on_boundary(old(self).input@, old(self).cursor as int),
        ensures
            cursor::on_boundary(final(self).input@, final(self).cursor as int),
            final(self)@ == old(self)@.moved_right(),
    {
        let ghost m = self@;
        let n = cursor::next_boundary(self.input.as_str(), self.cursor);
        proof {
            cursor::lemma_boundary_cuts(self.input@, self.cursor as int);
            cursor::lemma_byte_len_bounds(m.after);
            if m.after.len() > 0 {
                cursor::lemma_step_right(m.before, m.after, n as int);
                let head = m.before.push(m.after[0]);
                assert(head + m.after.drop_first() =~= self.input@);
                cursor::lemma_cut(head, m.after.drop_first());
            }
        }
        self.cursor = n;
    }

    fn move_home(&mut self)
        requires
            cursor::on_boundary(old(self).input@, old(self).cursor as int),
        ensures
            cursor::on_boundary(final(self).input@, final(self).cursor as int),
            final(self)@ == old(self)@.moved_home(),
    {
        proof {
            cursor::lemma_boundary_cuts(self.input@, self.cursor as int);
            cursor::lemma_ends(self.input@);
        }
        self.cursor = 0;
    }

    fn move_to_end(&mut self)
        requires
            cursor::on_boundary(old(self).input@, old(self).cursor as int),
        ensures
            cursor::on_boundary(final(self).input@, final(self).cursor as int),
            final(self)@ == old(self)@.moved_to_end(),
    {
        proof {
            cursor::lemma_boundary_cuts(self.input@, self.cursor as int);
            cursor::lemma_ends(self.input@);
        }
        self.cursor = cursor::bytes_in(self.input.as_str());
    }

    fn complete(&mut self)
        requires
            cursor::on_boundary(old(self).input@, old(self).cursor as int),
        ensures
            cursor::on_boundary(final(self).input@, final(self).cursor as int),
            final(self)@ == old(self)@.completed(),
    {
        proof {
            cursor::lemma_boundary_cuts(self.input@, self.cursor as int);
        }
        if !starts_with_char(self.input.as_str(), '/') {
            return;
        }
        let (token, rest) = split_word(self.input.as_str());
        assert(token@ == self.input@ <==> rest@.len() == 0) by {
            assert(rest@.len() == 0 ==> token@ =~= self.input@);
        }
        if !rest.as_str().is_empty() {
            return;
        }
        let m = hint::matches(token.as_str());
        if m.len() > 0 {
            let ghost first = m.deep_view()[0];
            assert(first == m@[0]@);
            self.input = concat2(m[0].name, " ");
            self.cursor = cursor::bytes_in(self.input.as_str());
            proof {
                cursor::lemma_ends(self.input@);
            }
        }
    }

    // ---------- dispatch ----------

    fn cycle_tier(&mut self)
        ensures
            final(self)@ == old(self)@.tier_cycled(),
            final(self).input == old(self).input,
            final(self).cursor == old(self).cursor,
    {
        self.tier = self.tier.next();
        let head = concat3("model tier → ", self.tier.label(), " (");
        let text = concat3(head.as_str(), self.cfg.model(self.tier), ")");
        self.push(Kind::System, text);
    }

    fn clear_entries(&mut self)
        ensures
            final(self)@ == old(self)@.entries_cleared(),
            final(self).input == old(self).input,
            final(self).cursor == old(self).cursor,
    {
        self.entries.clear();
        assert(self.entries.deep_view() =~= seq![]);
        self.invalidate_wrap();
    }

    fn refuse(&mut self, text: &str) -> (r: Option<Action>)
        ensures
            final(self)@ == old(self)@.refused(text@).0,
            r.deep_view() == old(self)@.refused(text@).1,
            final(self).input == old(self).input,
            final(self).cursor == old(self).cursor,
    {
        self.push(Kind::Error, String::from_str(text));
        None
    }

    fn run_command(&mut self, cmd: &str, arg: &str) -> (r: Option<Action>)
        requires
            old(self).next_id < u64::MAX,
        ensures
            final(self)@ == old(self)@.commanded(cmd@, arg@).0,
            r.deep_view() == old(self)@.commanded(cmd@, arg@).1,
            final(self).input == old(self).input,
            final(self).cursor == old(self).cursor,
    {
        if str_eq(cmd, "/quit") || str_eq(cmd, "/exit") {
            self.should_quit = true;
            return None;
        }
        if str_eq(cmd, "/model") {
            self.cycle_tier();
            return None;
        }
        if str_eq(cmd, "/clear") {
            self.clear_entries();
            self.file_context = String::new();
            self.staged.clear();
            assert(self.staged.deep_view() =~= seq![]);
            self.push(Kind::System, String::from_str("history cleared"));
            return Some(Action::ClearHistory);
        }
        if str_eq(cmd, "/history") {
            return Some(Action::ShowHistory);
        }
        if str_eq(cmd, "/file") {
            if arg.is_empty() {
                return self.refuse("usage: /file <path>");
            }
            return Some(Action::ReadFile { path: String::from_str(arg) });
        }
        if str_eq(cmd, "/index") {
            let dir = if arg.is_empty() { String::from_str(".") } else { String::from_str(arg) };
            let id = self.begin();
            return Some(Action::Index { id, dir });
        }
        if str_eq(cmd, "/shell") {
            if arg.is_empty() {
                return self.refuse("usage: /shell <cmd>");
            }
            let id = self.begin();
            return Some(Action::Shell { id, cmd: String::from_str(arg) });
        }
        if str_eq(cmd, "/rag") {
            if arg.is_empty() {
                return self.refuse("usage: /rag <question>");
            }
            return Some(self.rag(arg));
        }
        if str_eq(cmd, "/ask") {
            if arg.is_empty() {
                return self.refuse("usage: /ask <task>");
            }
            return Some(Action::Ask { task: String::from_str(arg) });
        }
        if str_eq(cmd, "/agent") {
            if arg.is_empty() {
                return self.refuse("usage: /agent <task>");
            }
            return Some(self.agent(arg));
        }
        let text = concat2("unknown command ", cmd);
        self.refuse(text.as_str())
    }

    /// Begins a retrieval for `question`.
    pub fn rag(&mut self, question: &str) -> (r: Action)
        requires
            old(self).next_id < u64::MAX,
        ensures
            final(self)@ == (Model { last_user: "rag "@ + question@, ..old(self)@.begun() }),
            r@ == (ActionModel::Rag {
                id: (old(self).next_id + 1) as u64,
                question: question@,
                model: old(self)@.cfg.rag_model(old(self).tier),
            }),
            final(self).input == old(self).input,
            final(self).cursor == old(self).cursor,
            old(self).wf() ==> final(self).wf(),
    {
        let id = self.begin();
        self.last_user = concat2("rag ", question);
        let model = String::from_str(self.cfg.rag_model(self.tier));
        Action::Rag { id, question: String::from_str(question), model }
    }

    /// Begins an agent's work on `task`.
    pub fn agent(&mut self, task: &str) -> (r: Action)
        requires
            old(self).next_id < u64::MAX,
        ensures
            final(self)@ == (Model { last_user: "agent "@ + task@, ..old(self)@.begun() }),
            r@ == (ActionModel::Agent {
                id: (old(self).next_id + 1) as u64,
                task: task@,
                model: old(self)@.cfg.model(old(self).tier),
            }),
            final(self).input == old(self).input,
            final(self).cursor == old(self).cursor,
            old(self).wf() ==> final(self).wf(),
    {
        let id = self.begin();
        self.last_user = concat2("agent ", task);
        let model = String::from_str(self.cfg.model(self.tier));
        Action::Agent { id, task: String::from_str(task), model }
    }

    /// Does what a line that was sent says: a command, or else a task for the model.
    pub fn route(&mut self, line: &str) -> (r: Option<Action>)
        requires
            old(self).next_id < u64::MAX,
        ensures
            final(self)@ == old(self)@.routed(line@).0,
            r.deep_view() == old(self)@.routed(line@).1,
            final(self).input == old(self).input,
            final(self).cursor == old(self).cursor,
            old(self).wf() ==> final(self).wf(),
    {
        proof {
            if self@.inv() {
                model::routing_keeps_the_invariant(self@, line@);
            }
        }
        if !starts_with_char(line, '/') {
            return Some(Action::Ask { task: String::from_str(line) });
        }
        let (cmd, rest) = split_word(line);
        let arg = trim(rest.as_str());
        self.used.insert(cmd.as_str());
        self.run_command(cmd.as_str(), arg.as_str())
    }

    fn submit(&mut self, now: u128) -> (r: Option<Action>)
        requires
            cursor::on_boundary(old(self).input@, old(self).cursor as int),
            old(self).next_id < u64::MAX,
        ensures
            cursor::on_boundary(final(self).input@, final(self).cursor as int),
            final(self)@ == old(self)@.submitted(now).0,
            r.deep_view() == old(self)@.submitted(now).1,
    {
        proof {
            cursor::lemma_boundary_cuts(self.input@, self.cursor as int);
        }
        let line = trim(self.input.as_str());
        if line.as_str().is_empty() {
            return None;
        }
        if self.busy.is_some() {
            return self.refuse("still working — ctrl+c to cancel");
        }
        self.clear_input(now);
        self.push(Kind::User, line.clone());
        self.route(line.as_str())
    }

    // ---------- events ----------

    fn apply_key(&mut self, k: KeyEvent, now: u128) -> (r: Option<Action>)
        requires
            cursor::on_boundary(old(self).input@, old(self).cursor as int),
            old(self)@.takes_key(k),
        ensures
            cursor::on_boundary(final(self).input@, final(self).cursor as int),
            final(self)@ == old(self)@.key_applied(k, now).0,
            r.deep_view() == old(self)@.key_applied(k, now).1,
    {
        proof {
            cursor::lemma_boundary_cuts(self.input@, self.cursor as int);
        }
        match k.code {
            KeyCode::Char(c) => {
                if c == 'c' && k.ctrl {
                    if self.busy.is_some() {
                        self.cancel = true;
                        self.push(Kind::System, String::from_str("cancelling…"));
                    } else if self.input.as_str().is_empty() {
                        self.should_quit = true;
                    } else {
                        self.clear_input(now);
                    }
                } else if c == 'd' && k.ctrl && self.input.as_str().is_empty() {
                    self.should_quit = true;
                } else if c == 't' && k.ctrl {
                    self.cycle_tier();
                } else if c == 'l' && k.ctrl {
                    self.clear_entries();
                } else if c == 'u' && k.ctrl {
                    self.clear_input(now);
                } else if c == 'w' && k.ctrl {
                    self.delete_word();
                } else if c == 'a' && k.ctrl {
                    self.move_home();
                } else if c == 'e' && k.ctrl {
                    self.move_to_end();
                } else {
                    let mut s = String::new();
                    s.push(c);
                    assert(s@ =~= seq![c]);
                    self.insert_str(s.as_str());
                }
            },
            KeyCode::Enter => {
                if k.alt {
                    self.insert_str("\n");
                } else {
                    return self.submit(now);
                }
            },
            KeyCode::Tab => {
                self.complete();
            },
            KeyCode::Backspace => {
                self.backspace();
            },
            KeyCode::Delete => {
                self.delete();
            },
            KeyCode::Left => {
                self.move_left();
            },
            KeyCode::Right => {
                self.move_right();
            },
            KeyCode::Home => {
                self.move_home();
            },
            KeyCode::End => {
                if self.input.as_str().is_empty() {
                    self.pinned = true;
                } else {
                    self.move_to_end();
                }
            },
            KeyCode::PageUp => {
                self.pinned = false;
                self.scroll = self.scroll.saturating_sub(10);
            },
            KeyCode::PageDown => {
                self.scroll = self.scroll + 10;
            },
            KeyCode::Up => {
                if k.ctrl {
                    self.pinned = false;
                    self.scroll = self.scroll.saturating_sub(1);
                }
            },
            KeyCode::Down => {
                if k.ctrl {
                    self.scroll = self.scroll + 1;
                }
            },
            KeyCode::Other => {},
        }
        None
    }

    /// Takes a key, at the time `now`. The cursor stays on a character boundary.
    pub fn on_key(&mut self, k: KeyEvent, now: u128) -> (r: Option<Action>)
        requires
            cursor::on_boundary(old(self).input@, old(self).cursor as int),
            old(self)@.takes_key(k),
        ensures
            cursor::on_boundary(final(self).input@, final(self).cursor as int),
            final(self)@ == old(self)@.after_key(k, now).0,
            r.deep_view() == old(self)@.after_key(k, now).1,
            old(self).wf() ==> final(self).wf(),
    {
        proof {
            if self@.inv() {
                model::keys_keep_the_invariant(self@, k, now);
            }
        }
        self.last_key = now;
        let action = self.apply_key(k, now);
        proof {
            cursor::lemma_boundary_cuts(self.input@, self.cursor as int);
        }
        if self.input.as_str().is_empty() {
            self.idle_since = now;
        }
        action
    }

    fn on_term(&mut self, e: TermEvent, now: u128) -> (r: Option<Action>)
        requires
            cursor::on_boundary(old(self).input@, old(self).cursor as int),
            old(self)@.takes(EventModel::Term(e@)),
        ensures
            cursor::on_boundary(final(self).input@, final(self).cursor as int),
            final(self)@ == old(self)@.after_term(e@, now).0,
            r.deep_view() == old(self)@.after_term(e@, now).1,
    {
        match e {
            TermEvent::Key(k) => {
                if k.release {
                    None
                } else {
                    self.on_key(k, now)
                }
            },
            TermEvent::Paste(s) => {
                self.last_key = now;
                self.insert_str(s.as_str());
                None
            },
            TermEvent::Resize => {
                self.invalidate_wrap();
                None
            },
            TermEvent::Other => None,
        }
    }

    /// True when `ev` can be taken: no counter overflows, and the word that ctrl+w
    /// deletes does not end at a white-space character that is wider than a byte.
    pub fn accepts(&self, ev: &AppEvent) -> (r: bool)
        requires
            self.wf(),
        ensures
            r == self@.takes(ev@),
    {
        match ev {
            AppEvent::Tick => self.ticks < u64::MAX,
            AppEvent::Term(TermEvent::Key(k)) => k.release || match k.code {
                KeyCode::Char(c) => !(c == 'w' && k.ctrl) || cursor::can_remove_word(
                    self.input.as_str(),
                    self.cursor,
                ),
                KeyCode::Enter => k.alt || self.next_id < u64::MAX,
                KeyCode::PageDown => self.scroll <= usize::MAX - 10,
                KeyCode::Down => !k.ctrl || self.scroll < usize::MAX,
                _ => true,
            },
            _ => true,
        }
    }

    /// Takes an event, at the time `now`. What is returned is to be done next.
    pub fn handle(&mut self, ev: AppEvent, now: u128) -> (r: Option<Action>)
        requires
            old(self).wf(),
            old(self)@.takes(ev@),
        ensures
            final(self).wf(),
            final(self)@ == old(self)@.after(ev@, now).0,
            r.deep_view() == old(self)@.after(ev@, now).1,
    {
        proof {
            model::every_event_keeps_the_invariant(self@, ev@, now);
        }
        match ev {
            AppEvent::Tick => {
                self.ticks = self.ticks + 1;
                None
            },
            AppEvent::Term(e) => self.on_term(e, now),
            AppEvent::Token { id, delta } => {
                if self.busy == Some(id) {
                    if !self.streaming() {
                        self.open_agent_entry();
                    }
                    self.response.append(delta.as_str());
                    self.append_last(delta.as_str());
                }
                None
            },
            AppEvent::Sources { id, hits } => {
                if self.busy == Some(id) && hits.len() > 0 {
                    let body = join(&hits, "\n");
                    let text = concat2(
                        "top-k candidates (pre-rerank, pre-margin)\n",
                        body.as_str(),
                    );
                    self.push(Kind::Source, text);
                }
                None
            },
            AppEvent::Note { id, text } => {
                if self.busy == Some(id) || self.busy.is_none() {
                    self.push(Kind::System, text);
                }
                None
            },
            AppEvent::Done { id } => {
                if self.busy == Some(id) {
                    self.finish()
                } else {
                    None
                }
            },
            AppEvent::Failed { id, text } => {
                if self.busy == Some(id) {
                    self.push(Kind::Error, text);
                    self.busy = None;
                    self.agent_idx = None;
                    self.response = String::new();
                }
                None
            },
        }
    }

    // ---------- answers to actions ----------

    /// Shows the history, which was read for [`Action::ShowHistory`].
    pub fn show_history(&mut self, history: String)
        requires
            old(self).wf(),
        ensures
            final(self).wf(),
            final(self)@ == old(self)@.history_shown(history@),
    {
        let text = if blank(history.as_str()) { String::from_str("(empty)") } else { history };
        self.push(Kind::System, text);
    }

    /// Stages the file at `path`, which was read for [`Action::ReadFile`], into the
    /// next prompt; or says why it could not be read.
    pub fn stage_file(&mut self, path: &str, content: Result<String, String>)
        requires
            old(self).wf(),
        ensures
            final(self).wf(),
            match content {
                Ok(content) => final(self)@ == old(self)@.file_staged(path@, content@),
                Err(e) => final(self)@ == old(self)@.pushed(Kind::Error, path@ + ": "@ + e@),
            },
    {
        match content {
            Ok(content) => {
                let count = lines(content.as_str()).len();
                let ghost staged = self.staged.deep_view();
                self.file_context.append("\n\n### File: ");
                self.file_context.append(path);
                self.file_context.append("\n```\n");
                self.file_context.append(content.as_str());
                self.file_context.append("\n```");
                assert(self.file_context@ =~= old(self).file_context@ + model::staged_file(
                    path@,
                    content@,
                ));
                self.staged.push(String::from_str(path));
                assert(self.staged.deep_view() =~= staged.push(path@));
                let head = concat3("staged ", path, " (");
                let text = concat3(
                    head.as_str(),
                    number(count as u64).as_str(),
                    " lines) for the next prompt",
                );
                self.push(Kind::System, text);
            },
            Err(e) => {
                let text = concat3(path, ": ", e.as_str());
                self.push(Kind::Error, text);
            },
        }
    }

    /// Asks the model about `task`, with the history that was read for
    /// [`Action::Ask`].
    pub fn ask(&mut self, task: String, history: &str) -> (r: Action)
        requires
            old(self).wf(),
            old(self).next_id < u64::MAX,
        ensures
            final(self).wf(),
            final(self)@ == old(self)@.asked(task@),
            r@ == (ActionModel::Generate {
                id: (old(self).next_id + 1) as u64,
                model: old(self)@.cfg.model(old(self).tier),
                prompt: model::prompt_of(history@, old(self).file_context@, task@),
            }),
    {
        let prompt = build_prompt(history, self.file_context.as_str(), task.as_str());
        self.file_context = String::new();
        self.staged.clear();
        assert(self.staged.deep_view() =~= seq![]);
        self.last_user = task;
        self.spawn_generate(prompt)
    }

    fn spawn_generate(&mut self, prompt: String) -> (r: Action)
        requires
            old(self).next_id < u64::MAX,
        ensures
            final(self)@ == old(self)@.begun(),
            r@ == (ActionModel::Generate {
                id: (old(self).next_id + 1) as u64,
                model: old(self)@.cfg.model(old(self).tier),
                prompt: prompt@,
            }),
            final(self).input == old(self).input,
            final(self).cursor == old(self).cursor,
    {
        let id = self.begin();
        let model = String::from_str(self.cfg.model(self.tier));
        Action::Generate { id, model, prompt }
    }

    // ---------- view helpers ----------

    /// The hint bar at the time `now`.
    pub fn hint(&self, now: u128) -> (r: Hint)
        requires
            self.wf(),
        ensures
            r@ == self@.hint(now),
    {
        proof {
            cursor::lemma_boundary_cuts(self.input@, self.cursor as int);
        }
        hint::hint(
            self.input.as_str(),
            time_since(now, self.last_key),
            time_since(now, self.idle_since),
            &self.used,
        )
    }

    /// The frame that the busy spinner shows.
    pub fn spinner(&self) -> (r: &'static str)
        ensures
            r@ == self@.spinner(),
    {
        let n = self.ticks / 2 % 8;
        if n == 0 { "⠋" } else if n == 1 { "⠙" } else if n == 2 { "⠹" } else if n == 3 { "⠸" }
        else if n == 4 { "⠼" } else if n == 5 { "⠴" } else if n == 6 { "⠦" } else { "⠧" }
    }

    /// The right side of the status line.
    pub fn status_right(&self) -> (r: String)
        ensures
            r@ == self@.status(),
    {
        let mut s = String::new();
        if self.busy.is_some() {
            s.append(self.spinner());
            s.push(' ');
            proof {
                reveal_strlit(" ");
                assert(s@ =~= self@.spinner() + " "@);
            }
        }
        let ghost head = s@;
        if self.staged.len() > 0 {
            s.append(number(self.staged.len() as u64).as_str());
            s.append(" staged · ");
        }
        let ghost mid = s@;
        s.append(self.tier.label());
        s.append(" ");
        s.append(self.cfg.model(self.tier));
        assert(s@ =~= self@.status());
        s
    }
}

} // verus!
