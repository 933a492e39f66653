//! Everything that can wake the session.
use vstd::prelude::*;

verus! {

/// A key, as far as the session tells keys apart.
#[derive(Clone, Copy, Debug, PartialEq, Eq, Structural)]
pub enum KeyCode {
    Char(char),
    Enter,
    Tab,
    Backspace,
    Delete,
    Left,
    Right,
    Up,
    Down,
    Home,
    End,
    PageUp,
    PageDown,
    Other,
}

/// A key that went down, is held down, or came up (`release`).
#[derive(Clone, Copy, Debug, PartialEq, Eq, Structural)]
pub struct KeyEvent {
    pub code: KeyCode,
    pub ctrl: bool,
    pub alt: bool,
    pub release: bool,
}

/// What the terminal reports.
#[derive(Debug)]
pub enum TermEvent {
    Key(KeyEvent),
    Paste(String),
    Resize,
    Other,
}

/// Everything that can wake the session.
#[derive(Debug)]
pub enum AppEvent {
    /// A key, paste or resize from the terminal.
    Term(TermEvent),
    /// Fires every 100ms. Drives the hint rotation and the busy spinner.
    Tick,
    /// Retrieval candidates for request `id`, already formatted for display.
    Sources { id: u64, hits: Vec<String> },
    /// A streamed token from Ollama.
    Token { id: u64, delta: String },
    /// Request `id` finished normally.
    Done { id: u64 },
    /// A line of plain output (indexing progress, shell output, notices).
    Note { id: u64, text: String },
    /// Request `id` failed. Ends the request.
    Failed { id: u64, text: String },
}

pub enum TermModel {
    Key(KeyEvent),
    Paste(Seq<char>),
    Resize,
    Other,
}

pub enum EventModel {
    Term(TermModel),
    Tick,
    Sources { id: u64, hits: Seq<Seq<char>> },
    Token { id: u64, delta: Seq<char> },
    Done { id: u64 },
    Note { id: u64, text: Seq<char> },
    Failed { id: u64, text: Seq<char> },
}

impl View for TermEvent {
    type V = TermModel;

    open spec fn view(&self) -> TermModel {
        match self {
            TermEvent::Key(k) => TermModel::Key(*k),
            TermEvent::Paste(s) => TermModel::Paste(s@),
            TermEvent::Resize => TermModel::Resize,
            TermEvent::Other => TermModel::Other,
        }
    }
}

impl View for AppEvent {
    type V = EventModel;

    open spec fn view(&self) -> EventModel {
        match self {
            AppEvent::Term(e) => EventModel::Term(e@),
            AppEvent::Tick => EventModel::Tick,
            AppEvent::Sources { id, hits } => EventModel::Sources {
                id: *id,
                hits: hits.deep_view(),
            },
            AppEvent::Token { id, delta } => EventModel::Token { id: *id, delta: delta@ },
            AppEvent::Done { id } => EventModel::Done { id: *id },
            AppEvent::Note { id, text } => EventModel::Note { id: *id, text: text@ },
            AppEvent::Failed { id, text } => EventModel::Failed { id: *id, text: text@ },
        }
    }
}

impl DeepView for AppEvent {
    type V = EventModel;

    open spec fn deep_view(&self) -> EventModel {
        self@
    }
}

impl EventModel {
    /// True for the two events that end a request.
    pub open spec fn is_terminal(self) -> bool {
        self is Done || self is Failed
    }

    /// The request that an event belongs to.
    pub open spec fn request(self) -> Option<u64> {
        match self {
            EventModel::Sources { id, .. } => Some(id),
            EventModel::Token { id, .. } => Some(id),
            EventModel::Done { id } => Some(id),
            EventModel::Note { id, .. } => Some(id),
            EventModel::Failed { id, .. } => Some(id),
            _ => None,
        }
    }
}

/// True when the events tell the end of request `id`: the last of them ends it,
/// none before does, and all belong to it.
pub open spec fn ends_once(events: Seq<EventModel>, id: u64) -> bool {
    &&& events.len() > 0
    &&& events.last().is_terminal()
    &&& forall|i: int| 0 <= i < events.len() - 1 ==> !(#[trigger] events[i]).is_terminal()
    &&& forall|i: int| 0 <= i < events.len() ==> (#[trigger] events[i]).request() == Some(id)
}

/// True when the events belong to request `id` and leave it running.
pub open spec fn goes_on(events: Seq<EventModel>, id: u64) -> bool {
    &&& forall|i: int| 0 <= i < events.len() ==> !(#[trigger] events[i]).is_terminal()
    &&& forall|i: int| 0 <= i < events.len() ==> (#[trigger] events[i]).request() == Some(id)
}

/// A request ends with `Done` or `Failed` and with nothing else, and every event but the
/// terminal's and the clock's belongs to the request whose number it carries.
pub proof fn only_done_and_failed_end_a_request(
    id: u64,
    words: Seq<char>,
    hits: Seq<Seq<char>>,
    e: TermModel,
)
    ensures
        (EventModel::Done { id }).is_terminal(),
        (EventModel::Failed { id, text: words }).is_terminal(),
        !(EventModel::Token { id, delta: words }).is_terminal(),
        !(EventModel::Note { id, text: words }).is_terminal(),
        !(EventModel::Sources { id, hits }).is_terminal(),
        !EventModel::Tick.is_terminal(),
        !EventModel::Term(e).is_terminal(),
        (EventModel::Done { id }).request() == Some(id),
        (EventModel::Failed { id, text: words }).request() == Some(id),
        (EventModel::Token { id, delta: words }).request() == Some(id),
        (EventModel::Note { id, text: words }).request() == Some(id),
        (EventModel::Sources { id, hits }).request() == Some(id),
        EventModel::Tick.request() is None,
        EventModel::Term(e).request() is None,
{
}

/// Events that leave a request running, and then events that end it, end it once.
pub proof fn ending_after_running(a: Seq<EventModel>, b: Seq<EventModel>, id: u64)
    requires
        goes_on(a, id),
        ends_once(b, id),
    ensures
        ends_once(a + b, id),
{
    let all = a + b;
    assert(all.last() == b.last());
    assert forall|i: int| 0 <= i < all.len() implies (#[trigger] all[i]).request() == Some(id) && (i
        < all.len() - 1 ==> !all[i].is_terminal()) by {
        if i < a.len() {
            assert(all[i] == a[i]);
        } else {
            assert(all[i] == b[i - a.len()]);
        }
    }
}

impl AppEvent {
    /// True for the two events that end a request.
    pub fn is_terminal(&self) -> (r: bool)
        ensures
            r == self@.is_terminal(),
    {
        match self {
            AppEvent::Done { .. } => true,
            AppEvent::Failed { .. } => true,
            _ => false,
        }
    }
}

} // verus!
