//! What holds of every session, over any number of events.
use vstd::prelude::*;

use crate::config;
use crate::cursor;
use crate::event;
use crate::event::{EventModel, KeyCode, KeyEvent, TermModel};
use crate::hint;
use crate::hint::{CmdModel, HintModel};
use crate::model;
use crate::model::{ActionModel, Model, HISTORY_LINES};
use crate::ollama;
use crate::ollama::AnswerModel;
use crate::rag;
use crate::rag::{AgentPoll, IndexInput, OutcomeModel, Pipe};
use crate::scrollback::{EntryModel, Kind};
use crate::text;

verus! {

/// The session after `events`, one after the other.
pub open spec fn after_all(m: Model, events: Seq<EventModel>, now: u128) -> Model
    decreases events.len(),
{
    if events.len() == 0 {
        m
    } else {
        after_all(m, events.drop_last(), now).after(events.last(), now).0
    }
}

// ---------- requests ----------

impl ActionModel {
    /// The request that the action is to be done for.
    pub open spec fn request(self) -> Option<u64> {
        match self {
            ActionModel::Index { id, .. } => Some(id),
            ActionModel::Shell { id, .. } => Some(id),
            ActionModel::Rag { id, .. } => Some(id),
            ActionModel::Agent { id, .. } => Some(id),
            ActionModel::Generate { id, .. } => Some(id),
            _ => None,
        }
    }
}

proof fn running_requests_stay(m: Model, id: u64, events: Seq<EventModel>, now: u128)
    requires
        m.busy == Some(id),
        event::goes_on(events, id),
    ensures
        after_all(m, events, now).busy == Some(id),
        after_all(m, events, now).last_user == m.last_user,
        after_all(m, events, now).cfg == m.cfg,
    decreases events.len(),
{
    if events.len() > 0 {
        let rest = events.drop_last();
        assert forall|i: int| 0 <= i < rest.len() implies !(#[trigger] rest[i]).is_terminal()
            && rest[i].request() == Some(id) by {
            assert(rest[i] == events[i]);
        }
        running_requests_stay(m, id, rest, now);
        assert(!events[events.len() - 1].is_terminal());
        assert(events[events.len() - 1].request() == Some(id));
    }
}

/// Once the events that end a request have come in, the session is free again.
pub proof fn an_ended_request_is_cleared(m: Model, id: u64, events: Seq<EventModel>, now: u128)
    requires
        m.busy == Some(id),
        event::ends_once(events, id),
    ensures
        after_all(m, events, now).busy is None,
        after_all(m, events, now).agent_idx is None,
        after_all(m, events, now).response.len() == 0,
{
    let rest = events.drop_last();
    assert forall|i: int| 0 <= i < rest.len() implies !(#[trigger] rest[i]).is_terminal()
        && rest[i].request() == Some(id) by {
        assert(rest[i] == events[i]);
    }
    running_requests_stay(m, id, rest, now);
    assert(events[events.len() - 1].request() == Some(id));
}

/// Whatever Ollama answers, the session is free again once the answer has come to
/// an end.
pub proof fn an_answer_frees_the_session(
    m: Model,
    base_url: Seq<char>,
    id: u64,
    answer: AnswerModel,
    now: u128,
)
    requires
        m.busy == Some(id),
        ollama::comes_to_an_end(answer),
    ensures
        after_all(m, ollama::answer_events(base_url, id, answer), now).busy is None,
{
    ollama::one_terminal_event(base_url, id, answer);
    an_ended_request_is_cleared(m, id, ollama::answer_events(base_url, id, answer), now);
}

/// A retrieval, and Ollama's answer where it is asked one, free the session too.
pub proof fn a_retrieval_frees_the_session(
    m: Model,
    id: u64,
    outcome: OutcomeModel,
    cancelled: bool,
    base_url: Seq<char>,
    answer: AnswerModel,
    now: u128,
)
    requires
        m.busy == Some(id),
        ollama::comes_to_an_end(answer),
    ensures
        ({
            let (events, prompt) = rag::retrieval_events(id, outcome, cancelled);
            let all = match prompt {
                Some(_) => events + ollama::answer_events(base_url, id, answer),
                None => events,
            };
            event::ends_once(all, id) && after_all(m, all, now).busy is None
        }),
{
    let (events, prompt) = rag::retrieval_events(id, outcome, cancelled);
    let replies = ollama::answer_events(base_url, id, answer);
    rag::retrieval_ends_or_asks(id, outcome, cancelled);
    ollama::one_terminal_event(base_url, id, answer);
    if prompt is Some {
        event::ending_after_running(events, replies, id);
        an_ended_request_is_cleared(m, id, events + replies, now);
    } else {
        an_ended_request_is_cleared(m, id, events, now);
    }
}

/// A whole agent run makes one terminal event, its last, and frees the session. Where
/// the interpreter or the script is no file, the only event says which.
pub proof fn an_agent_run_frees_the_session(
    m: Model,
    id: u64,
    venv_is_file: bool,
    python_is_file: bool,
    script_is_file: bool,
    model: Seq<char>,
    lines: Seq<(Pipe, Result<String, String>)>,
    polls: Seq<AgentPoll>,
    now: u128,
)
    requires
        m.busy == Some(id),
        python_is_file && script_is_file ==> rag::deciding_poll(polls) is Some,
    ensures
        ({
            let python = rag::python_of(m.cfg.home, venv_is_file);
            let script = config::path_in(m.cfg.home, "agent/agent.py"@);
            let start = rag::agent_start_event(
                id,
                python,
                python_is_file,
                script,
                script_is_file,
                model,
                m.cfg.root,
            );
            let events = rag::agent_run_events(id, start, lines, polls);
            &&& event::ends_once(events, id)
            &&& after_all(m, events, now).busy is None
            &&& !python_is_file ==> events == seq![
                EventModel::Failed {
                    id,
                    text: "agent Python interpreter not found: "@ + python,
                },
            ]
            &&& python_is_file && !script_is_file ==> events == seq![
                EventModel::Failed { id, text: "agent.py not found: "@ + script },
            ]
        }),
{
    let start = rag::agent_start_event(
        id,
        rag::python_of(m.cfg.home, venv_is_file),
        python_is_file,
        config::path_in(m.cfg.home, "agent/agent.py"@),
        script_is_file,
        model,
        m.cfg.root,
    );
    rag::agent_runs_end_once(id, start, lines, polls);
    an_ended_request_is_cleared(m, id, rag::agent_run_events(id, start, lines, polls), now);
}

/// A whole indexing run frees the session, however it ends.
pub proof fn an_indexing_run_frees_the_session(
    m: Model,
    id: u64,
    inputs: Seq<IndexInput>,
    now: u128,
)
    requires
        m.busy == Some(id),
        rag::whole_index_run(inputs),
    ensures
        after_all(m, rag::index_events(id, inputs), now).busy is None,
{
    rag::index_runs_end_once(id, inputs);
    an_ended_request_is_cleared(m, id, rag::index_events(id, inputs), now);
}

/// Events of a request that is not in flight change nothing, except that a notice is
/// shown while no request is.
pub proof fn stale_events_change_nothing(m: Model, ev: EventModel, id: u64, now: u128)
    requires
        ev.request() == Some(id),
        m.busy != Some(id),
        !(ev is Note && m.busy is None),
    ensures
        m.after(ev, now) == (m, None::<ActionModel>),
{
}

/// No event begins a request while another is in flight, and what is begun has the
/// next number and has not been cancelled. Work for a request is handed out with the
/// number of the request in flight.
pub proof fn one_request_at_a_time(m: Model, ev: EventModel, now: u128)
    requires
        m.inv(),
        m.takes(ev),
    ensures
        ({
            let (n, action) = m.after(ev, now);
            &&& m.busy is Some ==> n.next_id == m.next_id && (n.busy == m.busy || n.busy is None)
            &&& m.busy is None ==> {
                ||| n.busy is None && n.next_id == m.next_id
                ||| n.busy == Some((m.next_id + 1) as u64) && n.next_id == m.next_id + 1
                    && !n.cancel
            }
            &&& m.busy is Some && n.busy is Some && m.cancel ==> n.cancel
            &&& action is Some && action->0.request() is Some ==> n.busy == action->0.request()
        }),
{
}

/// Asking the model begins the next request, and it is the one that is handed out.
pub proof fn asking_begins_the_next_request(m: Model, task: Seq<char>)
    requires
        m.next_id < u64::MAX,
    ensures
        m.asked(task).busy == Some((m.next_id + 1) as u64),
        m.asked(task).next_id == m.next_id + 1,
        !m.asked(task).cancel,
        m.asked(task).response.len() == 0,
        m.asked(task).last_user == task,
{
}

/// While a request is in flight, sending something starts nothing and loses nothing:
/// the input stays, and the refusal is shown.
pub proof fn busy_sessions_refuse(m: Model, now: u128)
    requires
        m.busy is Some,
        !text::is_blank(m.input()),
    ensures
        ({
            let (n, action) = m.submitted(now);
            &&& action is None
            &&& n.before == m.before && n.after == m.after
            &&& n.busy == m.busy && n.next_id == m.next_id
            &&& n.entries == m.entries.push(
                EntryModel { kind: Kind::Error, text: "still working — ctrl+c to cancel"@ },
            )
        }),
{
    text::lemma_trimmed_blank(m.input());
}

/// A session that was told to quit stays so.
pub proof fn quitting_is_final(m: Model, ev: EventModel, now: u128)
    requires
        m.should_quit,
    ensures
        m.after(ev, now).0.should_quit,
{
}

// ---------- answers ----------

/// The tokens of request `id` with the texts `deltas`.
pub open spec fn tokens(id: u64, deltas: Seq<Seq<char>>) -> Seq<EventModel> {
    deltas.map_values(|delta: Seq<char>| EventModel::Token { id, delta })
}

/// The tokens of an answer add up, in their order, both in the entry that shows the
/// answer and in what goes into the history.
pub proof fn tokens_add_up(m: Model, id: u64, deltas: Seq<Seq<char>>, now: u128)
    requires
        m.busy == Some(id),
        !m.streaming(),
        deltas.len() > 0,
    ensures
        ({
            let n = after_all(m, tokens(id, deltas), now);
            &&& n.response == m.response + deltas.flatten()
            &&& n.entries == m.entries.push(
                EntryModel { kind: Kind::Agent, text: deltas.flatten() },
            )
            &&& n.streaming()
            &&& n.busy == Some(id)
        }),
    decreases deltas.len(),
{
    let rest = deltas.drop_last();
    let last = deltas.last();
    let none = Seq::<Seq<char>>::empty();
    assert(tokens(id, deltas).drop_last() =~= tokens(id, rest));
    assert(tokens(id, deltas).last() == EventModel::Token { id, delta: last });
    assert(deltas =~= rest.push(last));
    rest.lemma_flatten_push(last);
    if rest.len() == 0 {
        assert(rest =~= none);
        assert(rest.flatten() =~= seq![]);
        assert(deltas.flatten() =~= last);
        let n = after_all(m, tokens(id, deltas), now);
        assert(after_all(m, tokens(id, rest), now) == m);
        assert(n.entries =~= m.entries.push(EntryModel { kind: Kind::Agent, text: last }));
    } else {
        tokens_add_up(m, id, rest, now);
        let before = after_all(m, tokens(id, rest), now);
        let n = after_all(m, tokens(id, deltas), now);
        assert(n.response =~= m.response + deltas.flatten());
        assert(n.entries =~= m.entries.push(
            EntryModel { kind: Kind::Agent, text: deltas.flatten() },
        ));
    }
}

/// The texts of the Agent entries, one after the other.
pub open spec fn agent_text(entries: Seq<EntryModel>) -> Seq<char>
    decreases entries.len(),
{
    if entries.len() == 0 {
        seq![]
    } else if entries.last().kind == Kind::Agent {
        agent_text(entries.drop_last()) + entries.last().text
    } else {
        agent_text(entries.drop_last())
    }
}

/// The entries that are not the agent's, in their order.
pub open spec fn other_entries(entries: Seq<EntryModel>) -> Seq<EntryModel>
    decreases entries.len(),
{
    if entries.len() == 0 {
        seq![]
    } else if entries.last().kind == Kind::Agent {
        other_entries(entries.drop_last())
    } else {
        other_entries(entries.drop_last()).push(entries.last())
    }
}

/// The texts of the tokens among the events, one after the other.
pub open spec fn token_text(events: Seq<EventModel>) -> Seq<char>
    decreases events.len(),
{
    if events.len() == 0 {
        seq![]
    } else {
        match events.last() {
            EventModel::Token { delta, .. } => token_text(events.drop_last()) + delta,
            _ => token_text(events.drop_last()),
        }
    }
}

/// The tokens of two runs of events come one after the other.
pub proof fn token_texts_add_up(a: Seq<EventModel>, b: Seq<EventModel>)
    ensures
        token_text(a + b) == token_text(a) + token_text(b),
    decreases b.len(),
{
    if b.len() == 0 {
        assert(a + b =~= a);
        assert(token_text(a) + token_text(b) =~= token_text(a));
    } else {
        assert((a + b).drop_last() =~= a + b.drop_last());
        token_texts_add_up(a, b.drop_last());
        if let EventModel::Token { delta, .. } = b.last() {
            assert(token_text(a) + token_text(b.drop_last()) + delta =~= token_text(a) + (
            token_text(b.drop_last()) + delta));
        }
    }
}

/// A token counts with its text as it is, and no other event counts.
pub proof fn tokens_count_with_their_text(events: Seq<EventModel>, ev: EventModel)
    ensures
        token_text(events.push(ev)) == (match ev {
            EventModel::Token { delta, .. } => token_text(events) + delta,
            _ => token_text(events),
        }),
        token_text(seq![]).len() == 0,
{
    assert(events.push(ev).drop_last() =~= events);
}

/// A token goes into an Agent entry and nowhere else, and every other event of a
/// request leaves what the agent said as it was.
pub proof fn tokens_go_only_into_agent_entries(m: Model, id: u64, ev: EventModel, now: u128)
    requires
        m.busy == Some(id),
        ev.request() == Some(id),
    ensures
        ({
            let n = m.after(ev, now).0;
            match ev {
                EventModel::Token { delta, .. } => {
                    &&& agent_text(n.entries) == agent_text(m.entries) + delta
                    &&& other_entries(n.entries) == other_entries(m.entries)
                    &&& n.response == m.response + delta
                    &&& n.streaming()
                    &&& m.streaming() ==> n.agent_idx == m.agent_idx && n.pinned == m.pinned
                    &&& n == Model {
                        entries: n.entries,
                        response: n.response,
                        agent_idx: n.agent_idx,
                        pinned: n.pinned,
                        ..m
                    }
                },
                _ => agent_text(n.entries) == agent_text(m.entries),
            }
        }),
{
    let n = m.after(ev, now).0;
    if let EventModel::Token { delta, .. } = ev {
        let said = if m.streaming() { m.entries.last().text } else { seq![] };
        let above = if m.streaming() { m.entries.drop_last() } else { m.entries };
        assert(n.entries =~= above.push(EntryModel { kind: Kind::Agent, text: said + delta }));
        assert(n.entries.drop_last() =~= above);
        assert(agent_text(n.entries) =~= agent_text(above) + said + delta);
        assert(agent_text(m.entries) =~= agent_text(above) + said);
        assert(agent_text(n.entries) =~= agent_text(m.entries) + delta);
    } else if n.entries != m.entries {
        assert(n.entries.drop_last() =~= m.entries);
    }
}

/// Whatever notices and sources come between its tokens, an answer is shown whole and
/// in order, in Agent entries, and gathered whole for the history.
pub proof fn answers_are_shown_whole(m: Model, id: u64, events: Seq<EventModel>, now: u128)
    requires
        m.busy == Some(id),
        event::goes_on(events, id),
    ensures
        ({
            let n = after_all(m, events, now);
            &&& agent_text(n.entries) == agent_text(m.entries) + token_text(events)
            &&& n.response == m.response + token_text(events)
        }),
    decreases events.len(),
{
    if events.len() == 0 {
        assert(agent_text(m.entries) + token_text(events) =~= agent_text(m.entries));
        assert(m.response + token_text(events) =~= m.response);
    } else {
        let rest = events.drop_last();
        assert(event::goes_on(rest, id)) by {
            assert forall|i: int| 0 <= i < rest.len() implies !(#[trigger] rest[i]).is_terminal()
                && rest[i].request() == Some(id) by {
                assert(rest[i] == events[i]);
            }
        }
        running_requests_stay(m, id, rest, now);
        answers_are_shown_whole(m, id, rest, now);
        assert(!events[events.len() - 1].is_terminal());
        assert(events[events.len() - 1].request() == Some(id));
        let mid = after_all(m, rest, now);
        tokens_go_only_into_agent_entries(mid, id, events.last(), now);
        if let EventModel::Token { delta, .. } = events.last() {
            assert(agent_text(m.entries) + token_text(rest) + delta =~= agent_text(m.entries) + (
            token_text(rest) + delta));
            assert(m.response + token_text(rest) + delta =~= m.response + (token_text(rest)
                + delta));
        }
    }
}

/// An answer that is done goes into the history whole, unless it is blank.
pub proof fn answers_go_into_the_history(m: Model, id: u64, events: Seq<EventModel>, now: u128)
    requires
        m.busy == Some(id),
        m.response.len() == 0,
        event::goes_on(events, id),
    ensures
        after_all(m, events, now).after(EventModel::Done { id }, now).1 == (if text::is_blank(
            token_text(events),
        ) {
            None
        } else {
            Some(
                ActionModel::AppendHistory {
                    record: model::history_record(
                        m.cfg.session,
                        m.last_user,
                        token_text(events),
                    ),
                },
            )
        }),
{
    running_requests_stay(m, id, events, now);
    answers_are_shown_whole(m, id, events, now);
    assert(m.response + token_text(events) =~= token_text(events));
}

// ---------- the scrollback ----------

/// True when the event clears the scrollback.
pub open spec fn clears(m: Model, ev: EventModel) -> bool {
    ev matches EventModel::Term(TermModel::Key(k)) && !k.release && match k.code {
        KeyCode::Char(c) => c == 'l' && k.ctrl,
        KeyCode::Enter => !k.alt && m.busy is None && text::first_word(text::trimmed(m.input()))
            == "/clear"@,
        _ => false,
    }
}

/// True when `new` has every entry of `old` but the last as it was, and that one
/// with nothing but text added.
pub open spec fn extends(old_entries: Seq<EntryModel>, new: Seq<EntryModel>) -> bool {
    let last = old_entries.len() - 1;
    &&& old_entries.len() <= new.len()
    &&& forall|i: int| 0 <= i < last ==> #[trigger] new[i] == old_entries[i]
    &&& last >= 0 ==> new[last].kind == old_entries[last].kind
        && old_entries[last].text.is_prefix_of(new[last].text)
}

proof fn prefixes_extend(a: Seq<EntryModel>, b: Seq<EntryModel>)
    requires
        a.is_prefix_of(b),
    ensures
        extends(a, b),
{
    assert forall|i: int| 0 <= i < a.len() implies #[trigger] b[i] == a[i] by {
        assert(b.take(a.len() as int)[i] == b[i]);
    }
    if a.len() > 0 {
        let text = a.last().text;
        assert(text.take(text.len() as int) =~= text);
    }
}

proof fn commands_only_add(m: Model, cmd: Seq<char>, arg: Seq<char>)
    requires
        cmd != "/clear"@,
    ensures
        m.entries.is_prefix_of(m.commanded(cmd, arg).0.entries),
{
    let entries = m.commanded(cmd, arg).0.entries;
    assert(entries == m.entries || entries == m.entries.push(entries.last()));
    assert(entries.take(m.entries.len() as int) =~= m.entries);
}

proof fn sending_only_adds(m: Model, now: u128)
    requires
        m.busy is Some || text::first_word(text::trimmed(m.input())) != "/clear"@,
    ensures
        m.entries.is_prefix_of(m.submitted(now).0.entries),
{
    let entries = m.submitted(now).0.entries;
    let n = m.entries.len() as int;
    let line = text::trimmed(m.input());
    if line.len() > 0 && m.busy is None && line[0] == '/' {
        let sent = m.input_cleared(now).pushed(Kind::User, line);
        let cmd = text::first_word(line);
        let arg = text::trimmed(line.skip(text::word_end(line) as int));
        let noted = Model { used: sent.used.insert(cmd), ..sent };
        commands_only_add(noted, cmd, arg);
        assert(entries.take(n) =~= entries.take(n + 1).take(n));
        assert(entries.take(n) =~= m.entries);
    } else {
        assert(entries.take(n) =~= m.entries);
    }
}

proof fn keys_only_add(m: Model, k: KeyEvent, now: u128)
    requires
        !k.release,
        !clears(m, EventModel::Term(TermModel::Key(k))),
    ensures
        m.entries.is_prefix_of(m.key_applied(k, now).0.entries),
{
    let entries = m.key_applied(k, now).0.entries;
    if k.code == KeyCode::Enter && !k.alt {
        sending_only_adds(m, now);
    } else {
        assert(entries == m.entries || entries == m.entries.push(entries.last()));
        assert(entries.take(m.entries.len() as int) =~= m.entries);
    }
}

/// Unless it clears the scrollback, an event changes no entry but the last, and that
/// one only by adding to its text.
pub proof fn only_the_last_entry_changes(m: Model, ev: EventModel, now: u128)
    requires
        !clears(m, ev),
    ensures
        extends(m.entries, m.after(ev, now).0.entries),
{
    let entries = m.after(ev, now).0.entries;
    match ev {
        EventModel::Term(TermModel::Key(k)) => {
            if !k.release {
                let n = Model { last_key: now, ..m };
                assert(n.input() == m.input());
                keys_only_add(n, k, now);
                assert(entries == n.key_applied(k, now).0.entries);
            } else {
                assert(entries.take(m.entries.len() as int) =~= m.entries);
            }
            prefixes_extend(m.entries, entries);
        },
        EventModel::Token { id, delta } => {
            if m.busy == Some(id) && m.streaming() {
                let text = m.entries.last().text;
                assert((text + delta).take(text.len() as int) =~= text);
            } else {
                assert(entries.take(m.entries.len() as int) =~= m.entries);
                prefixes_extend(m.entries, entries);
            }
        },
        _ => {
            assert(entries == m.entries || entries == m.entries.push(entries.last()));
            assert(entries.take(m.entries.len() as int) =~= m.entries);
            prefixes_extend(m.entries, entries);
        },
    }
}

/// With nothing typed, the end key puts the end of the scrollback in view.
pub proof fn end_re_pins(m: Model, k: KeyEvent, now: u128, width: u16, height: u16)
    requires
        m.input().len() == 0,
        k.code == KeyCode::End,
    ensures
        ({
            let n = m.after_key(k, now).0;
            n.pinned && n.scrolled(width, height).scroll == m.bottom(width, height)
        }),
{
}

// ---------- editing ----------

/// Moving the cursor leaves the text as it is.
pub proof fn moves_keep_the_text(m: Model)
    ensures
        m.moved_left().input() == m.input(),
        m.moved_right().input() == m.input(),
        m.moved_home().input() == m.input(),
        m.moved_to_end().input() == m.input(),
{
    assert(m.moved_left().input() =~= m.input());
    assert(m.moved_right().input() =~= m.input());
    assert(m.moved_home().input() =~= m.input());
    assert(m.moved_to_end().input() =~= m.input());
}

/// A step to the left and one to the right undo each other.
pub proof fn left_and_right_undo_each_other(m: Model)
    ensures
        m.before.len() > 0 ==> m.moved_left().moved_right() == m,
        m.after.len() > 0 ==> m.moved_right().moved_left() == m,
{
    if m.before.len() > 0 {
        assert(m.moved_left().moved_right() =~= m);
    }
    if m.after.len() > 0 {
        assert(m.moved_right().moved_left() =~= m);
    }
}

/// Backspace undoes typing a character, and deleting a character is the same as
/// stepping over it and taking it out.
pub proof fn backspace_undoes_typing(m: Model, c: char)
    ensures
        m.inserted(seq![c]).backspaced() == m,
        m.after.len() > 0 ==> m.deleted() == m.moved_right().backspaced(),
{
    assert(m.inserted(seq![c]).backspaced() =~= m);
    if m.after.len() > 0 {
        assert(m.deleted() =~= m.moved_right().backspaced());
    }
}

/// What is put in piece by piece is put in whole.
pub proof fn typing_adds_up(m: Model, a: Seq<char>, b: Seq<char>)
    ensures
        m.inserted(a).inserted(b) == m.inserted(a + b),
{
    assert(m.inserted(a).inserted(b) =~= m.inserted(a + b));
}

/// Deleting a word takes out the last word before the cursor, with the white space behind
/// it, and leaves everything else as it is. What is left ends in white space, or is
/// nothing. The result says where the word begins and where it ends.
pub proof fn words_are_deleted_whole(m: Model) -> (r: (int, int))
    ensures
        0 <= r.0 <= r.1 <= m.before.len(),
        m.word_deleted() == (Model { before: m.before.take(r.0), ..m }),
        forall|k: int| r.0 <= k < r.1 ==> !text::is_white(#[trigger] m.before[k]),
        forall|k: int| r.1 <= k < m.before.len() ==> text::is_white(#[trigger] m.before[k]),
        r.0 > 0 ==> text::is_white(m.before[r.0 - 1]),
        r.1 > 0 ==> r.0 < r.1,
        m.word_deleted().after == m.after,
        m.word_deleted().before.is_prefix_of(m.before),
        m.before.len() > 0 ==> m.word_deleted().before.len() < m.before.len(),
        m.word_deleted().before.len() > 0 ==> text::is_white(m.word_deleted().before.last()),
{
    let a = m.before;
    trimming_shortens(a);
    last_word_is_found(text::trimmed_end(a));
    let j = text::trimming_the_end(a);
    let t = text::trimmed_end(a);
    text::the_last_word_begins_behind_white_space(t);
    let k = text::last_word_start(t) as int;
    assert(cursor::without_last_word(a) =~= a.take(k));
    assert forall|i: int| k <= i < j implies !text::is_white(#[trigger] a[i]) by {
        assert(t[i] == a[i]);
    }
    if k > 0 {
        assert(t[k - 1] == a[k - 1]);
    }
    if j > 0 {
        assert(t[j - 1] == a[j - 1]);
    }
    (k, j)
}

proof fn trimming_shortens(s: Seq<char>)
    ensures
        text::trimmed_end(s).len() <= s.len(),
        text::trimmed_end(s) == s.take(text::trimmed_end(s).len() as int),
        text::trimmed_end(s).len() > 0 ==> !text::is_white(text::trimmed_end(s).last()),
    decreases s.len(),
{
    if s.len() > 0 && text::is_white(s.last()) {
        let t = s.drop_last();
        trimming_shortens(t);
        let n = text::trimmed_end(t).len() as int;
        assert(t.take(n) =~= s.take(n));
    } else {
        assert(s =~= s.take(s.len() as int));
    }
}

proof fn last_word_is_found(s: Seq<char>)
    ensures
        text::last_word_start(s) <= s.len(),
        s.len() > 0 && !text::is_white(s.last()) ==> text::last_word_start(s) < s.len(),
        text::last_word_start(s) > 0 ==> text::is_white(s[text::last_word_start(s) - 1]),
    decreases s.len(),
{
    if s.len() > 0 && !text::is_white(s.last()) {
        last_word_is_found(s.drop_last());
    }
}

/// What is put in goes in as it is, at the cursor, and the cursor goes behind it; nothing
/// else changes.
pub proof fn what_is_typed_goes_in_as_it_is(m: Model, s: Seq<char>)
    ensures
        ({
            let n = m.inserted(s);
            &&& n.before.len() == m.before.len() + s.len()
            &&& n.before.take(m.before.len() as int) == m.before
            &&& n.before.skip(m.before.len() as int) == s
            &&& n == Model { before: n.before, ..m }
        }),
{
    let n = m.inserted(s);
    assert(n.before.take(m.before.len() as int) =~= m.before);
    assert(n.before.skip(m.before.len() as int) =~= s);
}

/// Backspace takes out the one character before the cursor, and delete the one behind it;
/// nothing else changes, and where there is none nothing does.
pub proof fn one_character_is_taken_out(m: Model)
    ensures
        m.before.len() == 0 ==> m.backspaced() == m,
        m.before.len() > 0 ==> m.backspaced() == (Model {
            before: m.before.take(m.before.len() - 1),
            ..m
        }),
        m.after.len() == 0 ==> m.deleted() == m,
        m.after.len() > 0 ==> m.deleted() == (Model { after: m.after.skip(1), ..m }),
{
    if m.before.len() > 0 {
        assert(m.before.drop_last() =~= m.before.take(m.before.len() - 1));
    }
    if m.after.len() > 0 {
        assert(m.after.drop_first() =~= m.after.skip(1));
    }
}

/// Home goes before all of the text and end behind it, and one step goes over one
/// character. Nothing but the place of the cursor changes.
pub proof fn moves_go_where_they_say(m: Model)
    ensures
        m.moved_home() == (Model { before: seq![], after: m.before + m.after, ..m }),
        m.moved_to_end() == (Model { before: m.before + m.after, after: seq![], ..m }),
        m.before.len() == 0 ==> m.moved_left() == m,
        m.before.len() > 0 ==> m.moved_left().before.len() == m.before.len() - 1,
        m.after.len() == 0 ==> m.moved_right() == m,
        m.after.len() > 0 ==> m.moved_right().before.len() == m.before.len() + 1,
        m.moved_left() == (Model {
            before: m.moved_left().before,
            after: m.moved_left().after,
            ..m
        }),
        m.moved_right() == (Model {
            before: m.moved_right().before,
            after: m.moved_right().after,
            ..m
        }),
{
}

/// Clearing the input leaves none of it, and nothing else changes but that the session is
/// idle from then on.
pub proof fn clearing_leaves_no_input(m: Model, now: u128)
    ensures
        m.input_cleared(now) == (Model { before: seq![], after: seq![], idle_since: now, ..m }),
        m.input_cleared(now).input().len() == 0,
{
}

/// Tab takes the first command that the menu offers, and does nothing where there is
/// no menu.
pub proof fn tab_takes_the_first_offer(m: Model, now: u128)
    ensures
        m.hint(now) matches HintModel::Menu(cmds) ==> m.completed() == (Model {
            before: cmds[0].name + " "@,
            after: seq![],
            ..m
        }) && m.completed().input() == cmds[0].name + " "@,
        !(m.hint(now) is Menu) ==> m.completed() == m,
{
    let token = m.input();
    let offered = hint::matching(hint::command_table(), token);
    if offered.len() > 0 {
        assert(offered[0].name + " "@ + seq![] =~= offered[0].name + " "@);
    }
}

/// The entry that answers a command which is not known.
pub open spec fn unknown_entry(cmd: Seq<char>) -> EntryModel {
    EntryModel { kind: Kind::Error, text: "unknown command "@ + cmd }
}

/// True for the commands that are offered, and for another word for quitting.
pub open spec fn is_known(cmd: Seq<char>) -> bool {
    hint::named(hint::command_table(), cmd) is Some || cmd == "/exit"@
}

/// A command is answered as unknown exactly when it is not known. Nothing begins then,
/// and nothing changes but the scrollback and the commands that were used. Whatever
/// the command, it counts as used.
pub proof fn unknown_exactly_when_unlisted(m: Model, line: Seq<char>)
    requires
        line.len() > 0,
        line[0] == '/',
    ensures
        ({
            let cmd = text::first_word(line);
            let (n, action) = m.routed(line);
            &&& n.used == m.used.insert(cmd)
            &&& n.entries == m.entries.push(unknown_entry(cmd)) <==> !is_known(cmd)
            &&& !is_known(cmd) ==> action is None && n == (Model {
                used: m.used.insert(cmd),
                entries: m.entries.push(unknown_entry(cmd)),
                pinned: true,
                ..m
            })
        }),
{
    let cmd = text::first_word(line);
    let arg = text::trimmed(line.skip(text::word_end(line) as int));
    let noted = Model { used: m.used.insert(cmd), ..m };
    let n = m.routed(line).0;
    assert(n == noted.commanded(cmd, arg).0);
    if is_known(cmd) {
        known_commands_are_not_refused(noted, cmd, arg);
    } else {
        unlisted_commands_are_unknown(noted, cmd, arg);
    }
}

proof fn known_commands_are_not_refused(m: Model, cmd: Seq<char>, arg: Seq<char>)
    requires
        is_known(cmd),
    ensures
        m.commanded(cmd, arg).0.entries != m.entries.push(unknown_entry(cmd)),
        m.commanded(cmd, arg).0.used == m.used,
{
    let entries = m.commanded(cmd, arg).0.entries;
    let table = hint::command_table();
    if cmd != "/exit"@ {
        named_commands_are_present(table, cmd);
    }
    reveal_strlit("unknown command ");
    reveal_strlit("usage: /file <path>");
    reveal_strlit("usage: /shell <cmd>");
    reveal_strlit("usage: /rag <question>");
    reveal_strlit("usage: /ask <task>");
    reveal_strlit("usage: /agent <task>");
    assert(unknown_entry(cmd).text[1] == 'n');
    let unknown = m.entries.push(unknown_entry(cmd));
    assert(unknown.last() == unknown_entry(cmd));
    assert(unknown.len() == m.entries.len() + 1);
    assert(entries == m.entries || entries.last().kind == Kind::System || entries.last().text[1]
        == 's');
}

proof fn unlisted_commands_are_unknown(m: Model, cmd: Seq<char>, arg: Seq<char>)
    requires
        !is_known(cmd),
    ensures
        m.commanded(cmd, arg) == m.refused("unknown command "@ + cmd),
{
    let table = hint::command_table();
    assert forall|i: int| 0 <= i < table.len() implies #[trigger] table[i].name != cmd by {
        unnamed_commands_are_absent(table, cmd, i);
    }
    assert(table[0].name == "/rag"@ && table[1].name == "/ask"@ && table[2].name == "/index"@);
    assert(table[3].name == "/file"@ && table[4].name == "/shell"@ && table[5].name == "/agent"@);
    assert(table[6].name == "/model"@ && table[7].name == "/history"@);
    assert(table[8].name == "/clear"@ && table[9].name == "/quit"@);
}

proof fn named_commands_are_present(table: Seq<CmdModel>, name: Seq<char>)
    requires
        hint::named(table, name) is Some,
    ensures
        exists|i: int| 0 <= i < table.len() && #[trigger] table[i].name == name,
    decreases table.len(),
{
    if table[0].name == name {
    } else {
        named_commands_are_present(table.drop_first(), name);
        let i = choose|i: int|
            0 <= i < table.drop_first().len() && #[trigger] table.drop_first()[i].name == name;
        assert(table[i + 1].name == name);
    }
}

proof fn unnamed_commands_are_absent(table: Seq<CmdModel>, name: Seq<char>, i: int)
    requires
        hint::named(table, name) is None,
        0 <= i < table.len(),
    ensures
        table[i].name != name,
    decreases table.len(),
{
    if i > 0 {
        unnamed_commands_are_absent(table.drop_first(), name, i - 1);
    }
}

// ---------- files and history ----------

/// The session after the `files`, each a path and a content, were staged.
pub open spec fn staged_all(m: Model, files: Seq<(Seq<char>, Seq<char>)>) -> Model
    decreases files.len(),
{
    if files.len() == 0 {
        m
    } else {
        staged_all(m, files.drop_last()).file_staged(files.last().0, files.last().1)
    }
}

/// The `files` as they are put in a prompt.
pub open spec fn in_prompt(files: Seq<(Seq<char>, Seq<char>)>) -> Seq<char> {
    files.map_values(|f: (Seq<char>, Seq<char>)| model::staged_file(f.0, f.1)).flatten()
}

/// Files stack up: all that were staged go into the next prompt, in their order. They
/// are staged no longer once that is sent.
pub proof fn staged_files_go_into_one_prompt(
    m: Model,
    files: Seq<(Seq<char>, Seq<char>)>,
    history: Seq<char>,
    task: Seq<char>,
)
    requires
        m.file_context.len() == 0,
    ensures
        model::prompt_of(history, staged_all(m, files).file_context, task) == model::prompt_of(
            history,
            in_prompt(files),
            task,
        ),
        staged_all(m, files).staged == m.staged + files.map_values(
            |f: (Seq<char>, Seq<char>)| f.0,
        ),
        staged_all(m, files).asked(task).file_context.len() == 0,
        staged_all(m, files).asked(task).staged.len() == 0,
{
    staging_adds_up(m, files);
    assert(m.file_context + in_prompt(files) =~= in_prompt(files));
}

proof fn staging_adds_up(m: Model, files: Seq<(Seq<char>, Seq<char>)>)
    ensures
        staged_all(m, files).file_context == m.file_context + in_prompt(files),
        staged_all(m, files).staged == m.staged + files.map_values(
            |f: (Seq<char>, Seq<char>)| f.0,
        ),
    decreases files.len(),
{
    let shown = |f: (Seq<char>, Seq<char>)| model::staged_file(f.0, f.1);
    let path = |f: (Seq<char>, Seq<char>)| f.0;
    if files.len() == 0 {
        assert(files.map_values(shown) =~= Seq::<Seq<char>>::empty());
        assert(in_prompt(files) =~= seq![]);
        assert(m.file_context + in_prompt(files) =~= m.file_context);
        assert(m.staged + files.map_values(path) =~= m.staged);
    } else {
        let rest = files.drop_last();
        staging_adds_up(m, rest);
        assert(files.map_values(shown) =~= rest.map_values(shown).push(shown(files.last())));
        rest.map_values(shown).lemma_flatten_push(shown(files.last()));
        assert(staged_all(m, files).file_context =~= m.file_context + in_prompt(files));
        assert(staged_all(m, files).staged =~= m.staged + files.map_values(path));
    }
}

/// An exchange is remembered: its record ends a line, its lines come behind those
/// that were there, and as long as there are no more of them than go into a prompt,
/// they all go into the next one, at the end of its history.
pub proof fn an_exchange_is_remembered(
    history: Seq<char>,
    session: u64,
    user: Seq<char>,
    agent: Seq<char>,
)
    requires
        history.len() == 0 || history.last() == '\n',
    ensures
        ({
            let record = model::history_record(session, user, agent);
            let lines = text::lines_of(record);
            let recent = model::recent_lines(history + record);
            &&& (history + record).last() == '\n'
            &&& text::lines_of(history + record) == text::lines_of(history) + lines
            &&& recent.len() <= HISTORY_LINES
            &&& lines.len() <= HISTORY_LINES ==> lines.len() <= recent.len() && recent.skip(
                recent.len() - lines.len(),
            ) == lines
        }),
{
    let record = model::history_record(session, user, agent);
    reveal_strlit("\n---\n\n");
    assert(record.last() == '\n');
    lines_add_up(history, record);
    let all = text::lines_of(history + record);
    let lines = text::lines_of(record);
    let recent = model::recent_lines(history + record);
    if lines.len() <= HISTORY_LINES {
        assert(recent.skip(recent.len() - lines.len()) =~= lines);
    }
}

/// The lines of the last exchange stand one after the other in the next prompt, whatever
/// files are staged and whatever is asked. The result says where.
pub proof fn the_last_exchange_is_in_the_prompt(
    history: Seq<char>,
    session: u64,
    user: Seq<char>,
    agent: Seq<char>,
    file_context: Seq<char>,
    task: Seq<char>,
) -> (at: int)
    requires
        history.len() == 0 || history.last() == '\n',
        text::lines_of(model::history_record(session, user, agent)).len() <= HISTORY_LINES,
    ensures
        ({
            let record = model::history_record(session, user, agent);
            let said = text::joined(text::lines_of(record), "\n"@);
            let prompt = model::prompt_of(history + record, file_context, task);
            0 <= at && at + said.len() <= prompt.len() && prompt.subrange(at, at + said.len())
                == said
        }),
{
    let record = model::history_record(session, user, agent);
    let lines = text::lines_of(record);
    let sep = "\n"@;
    let said = text::joined(lines, sep);
    let recent = model::recent_lines(history + record);
    let past = text::joined(recent, sep);
    let prompt = model::prompt_of(history + record, file_context, task);
    an_exchange_is_remembered(history, session, user, agent);
    model::prompts_hold_history_files_and_task(history + record, file_context, task);
    text::lines_are_what_newlines_end(record);
    model::records_hold_the_exchange(session, user, agent);
    let cut = recent.len() - lines.len();
    let older = recent.take(cut);
    assert(recent =~= older + lines);
    let head = (model::SYSTEM_PROMPT@ + "\n\n--- Recent History ---\n"@).len() as int;
    assert(prompt.subrange(head, head + past.len()) == past);
    let inside: int = if cut == 0 || lines.len() == 0 {
        past.len() - said.len()
    } else {
        text::joining_adds_up(older, lines, sep);
        past.len() - said.len()
    };
    if cut == 0 {
        assert(recent =~= lines);
    }
    if lines.len() == 0 {
        assert(said.len() == 0);
    }
    let at = head + inside;
    let n = said.len() as int;
    let found = prompt.subrange(at, at + n);
    assert(past.subrange(inside, inside + n) =~= said);
    assert forall|i: int| 0 <= i < n implies #[trigger] found[i] == said[i] by {
        assert(prompt.subrange(head, head + past.len())[inside + i] == prompt[at + i]);
        assert(past.subrange(inside, inside + n)[i] == past[inside + i]);
    }
    assert(found =~= said);
    at
}

/// The lines of two texts come one after the other, where the first ends its last
/// line.
pub proof fn lines_add_up(a: Seq<char>, b: Seq<char>)
    requires
        a.len() == 0 || a.last() == '\n',
    ensures
        text::lines_of(a + b) == text::lines_of(a) + text::lines_of(b),
    decreases a.len(),
{
    if a.len() == 0 {
        assert(a + b =~= b);
        assert(text::lines_of(a) + text::lines_of(b) =~= text::lines_of(b));
    } else {
        text::lemma_newline_is_found(a);
        let k = text::newline_at(a) as int;
        let ab = a + b;
        if k >= a.len() {
            assert(a[a.len() - 1] != '\n');
        }
        assert forall|j: int| 0 <= j < k implies #[trigger] ab[j] != '\n' by {
            assert(ab[j] == a[j]);
        }
        text::lemma_newline_at(ab, k);
        assert(ab.take(k) =~= a.take(k));
        let rest = a.skip(k + 1);
        assert(ab.skip(k + 1) =~= rest + b);
        lines_add_up(rest, b);
        let first = seq![text::without_return(a.take(k))];
        assert(first + (text::lines_of(rest) + text::lines_of(b)) =~= (first + text::lines_of(
            rest,
        )) + text::lines_of(b));
    }
}

} // verus!
