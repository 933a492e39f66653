//! The slash commands, and the hint bar.
use vstd::prelude::*;
use vstd::string::StringExecFns;

use crate::text;
use crate::text::{blank, concat2, concat3, split_word, starts_with, starts_with_char, str_eq};

verus! {

/// A slash command. `name` includes the leading slash.
#[derive(Clone, Copy, Debug)]
pub struct Cmd {
    pub name: &'static str,
    pub args: &'static str,
    pub help: &'static str,
}

pub struct CmdModel {
    pub name: Seq<char>,
    pub args: Seq<char>,
    pub help: Seq<char>,
}

impl View for Cmd {
    type V = CmdModel;

    open spec fn view(&self) -> CmdModel {
        CmdModel { name: self.name@, args: self.args@, help: self.help@ }
    }
}

impl DeepView for Cmd {
    type V = CmdModel;

    open spec fn deep_view(&self) -> CmdModel {
        self@
    }
}

/// Commands are told apart by their names.
impl PartialEq for Cmd {
    fn eq(&self, other: &Self) -> (r: bool) {
        str_eq(self.name, other.name)
    }
}

impl vstd::std_specs::cmp::PartialEqSpecImpl for Cmd {
    open spec fn obeys_eq_spec() -> bool {
        true
    }

    open spec fn eq_spec(&self, other: &Self) -> bool {
        self.name@ == other.name@
    }
}

/// The commands, in the order in which they are offered.
pub open spec fn command_table() -> Seq<CmdModel> {
    seq![
        CmdModel { name: "/rag"@, args: "<question>"@, help: "codebase-grounded answer"@ },
        CmdModel { name: "/ask"@, args: "<task>"@, help: "ask the model with no retrieval"@ },
        CmdModel { name: "/index"@, args: "[dir]"@, help: "build or refresh the RAG index"@ },
        CmdModel { name: "/file"@, args: "<path>"@, help: "stage a file into the next prompt"@ },
        CmdModel {
            name: "/shell"@,
            args: "<cmd>"@,
            help: "run a command, output into scrollback"@,
        },
        CmdModel { name: "/agent"@, args: "<task>"@, help: "autonomous coding agent"@ },
        CmdModel { name: "/model"@, args: ""@, help: "cycle fast / main / heavy"@ },
        CmdModel { name: "/history"@, args: ""@, help: "show this session's history"@ },
        CmdModel { name: "/clear"@, args: ""@, help: "clear scrollback and history file"@ },
        CmdModel { name: "/quit"@, args: ""@, help: "exit"@ },
    ]
}

/// Keybinding reminders, mixed into the idle rotation alongside unused commands.
pub open spec fn tip_table() -> Seq<Seq<char>> {
    seq![
        "ctrl+t cycles the model tier"@,
        "alt+enter inserts a newline, enter sends"@,
        "pgup / pgdn scroll, end re-pins to the bottom"@,
        "ctrl+c cancels a running answer"@,
        "type / to see every command"@,
    ]
}

/// How long after the last keystroke the bar stays out of the way, in nanoseconds.
pub const QUIET: u128 = 800_000_000;

/// How long each idle hint is shown before rotating, in nanoseconds.
pub const ROTATE: u128 = 4_000_000_000;

fn cmd(name: &'static str, args: &'static str, help: &'static str) -> (r: Cmd)
    ensures
        r@ == (CmdModel { name: name@, args: args@, help: help@ }),
{
    Cmd { name, args, help }
}

/// The commands, in the order in which they are offered.
pub fn commands() -> (r: Vec<Cmd>)
    ensures
        r.deep_view() == command_table(),
{
    let mut r: Vec<Cmd> = Vec::new();
    r.push(cmd("/rag", "<question>", "codebase-grounded answer"));
    r.push(cmd("/ask", "<task>", "ask the model with no retrieval"));
    r.push(cmd("/index", "[dir]", "build or refresh the RAG index"));
    r.push(cmd("/file", "<path>", "stage a file into the next prompt"));
    r.push(cmd("/shell", "<cmd>", "run a command, output into scrollback"));
    r.push(cmd("/agent", "<task>", "autonomous coding agent"));
    r.push(cmd("/model", "", "cycle fast / main / heavy"));
    r.push(cmd("/history", "", "show this session's history"));
    r.push(cmd("/clear", "", "clear scrollback and history file"));
    r.push(cmd("/quit", "", "exit"));
    assert(r.deep_view() =~= command_table());
    r
}

fn tips() -> (r: Vec<String>)
    ensures
        r.deep_view() == tip_table(),
{
    let mut r: Vec<String> = Vec::new();
    r.push(String::from_str("ctrl+t cycles the model tier"));
    r.push(String::from_str("alt+enter inserts a newline, enter sends"));
    r.push(String::from_str("pgup / pgdn scroll, end re-pins to the bottom"));
    r.push(String::from_str("ctrl+c cancels a running answer"));
    r.push(String::from_str("type / to see every command"));
    assert(r.deep_view() =~= tip_table());
    r
}

/// The commands that a session has used, each of them once.
#[derive(Debug)]
pub struct UsedCommands {
    names: Vec<String>,
}

impl View for UsedCommands {
    type V = Set<Seq<char>>;

    closed spec fn view(&self) -> Set<Seq<char>> {
        self.names.deep_view().to_set()
    }
}

impl UsedCommands {
    #[verifier::type_invariant]
    spec fn nothing_twice(self) -> bool {
        self.names.deep_view().no_duplicates()
    }

    pub fn new() -> (r: UsedCommands)
        ensures
            r@ == Set::<Seq<char>>::empty(),
    {
        let names: Vec<String> = Vec::new();
        assert(names.deep_view() =~= seq![]);
        assert(names.deep_view().to_set() =~= Set::empty());
        UsedCommands { names }
    }

    pub fn contains(&self, name: &str) -> (r: bool)
        ensures
            r == self@.contains(name@),
    {
        for i in 0..self.names.len()
            invariant
                forall|j: int| 0 <= j < i ==> #[trigger] self.names.deep_view()[j] != name@,
        {
            assert(self.names.deep_view()[i as int] == self.names@[i as int]@);
            if str_eq(self.names[i].as_str(), name) {
                assert(self.names.deep_view().contains(name@));
                return true;
            }
        }
        assert(!self.names.deep_view().contains(name@));
        false
    }

    pub fn insert(&mut self, name: &str)
        ensures
            final(self)@ == old(self)@.insert(name@),
    {
        proof {
            use_type_invariant(&*self);
        }
        if self.contains(name) {
            assert(self@ =~= old(self)@.insert(name@));
            return;
        }
        let ghost names = self.names.deep_view();
        let mut grown: Vec<String> = Vec::new();
        std::mem::swap(&mut grown, &mut self.names);
        grown.push(String::from_str(name));
        proof {
            let longer = grown.deep_view();
            assert(longer =~= names.push(name@));
            assert(!names.contains(name@));
            assert forall|x: Seq<char>| longer.to_set().contains(x) == names.to_set().insert(
                name@,
            ).contains(x) by {
                if names.contains(x) {
                    let i = choose|i: int| 0 <= i < names.len() && names[i] == x;
                    assert(longer[i] == x);
                }
                if x == name@ {
                    assert(longer[names.len() as int] == x);
                }
                if longer.contains(x) {
                    let i = choose|i: int| 0 <= i < longer.len() && longer[i] == x;
                    if i < names.len() {
                        assert(names[i] == x);
                    }
                }
            }
            assert(longer.to_set() =~= names.to_set().insert(name@));
        }
        self.names = grown;
    }
}

/// What the hint bar shows.
#[derive(Debug, PartialEq)]
pub enum Hint {
    Hidden,
    Tip(String),
    /// Completion candidates, rendered as a popup above the input.
    Menu(Vec<Cmd>),
}

pub enum HintModel {
    Hidden,
    Tip(Seq<char>),
    Menu(Seq<CmdModel>),
}

impl View for Hint {
    type V = HintModel;

    open spec fn view(&self) -> HintModel {
        match self {
            Hint::Hidden => HintModel::Hidden,
            Hint::Tip(t) => HintModel::Tip(t@),
            Hint::Menu(m) => HintModel::Menu(m.deep_view()),
        }
    }
}

/// How a command is used, in one line.
pub open spec fn usage_of(c: CmdModel) -> Seq<char> {
    if c.args.len() == 0 {
        c.name + "  — "@ + c.help
    } else {
        c.name + " "@ + c.args + "  — "@ + c.help
    }
}

/// How a command is used, in one line.
pub fn usage(c: &Cmd) -> (r: String)
    ensures
        r@ == usage_of(c@),
{
    if c.args.is_empty() {
        concat3(c.name, "  — ", c.help)
    } else {
        let head = concat3(c.name, " ", c.args);
        concat3(head.as_str(), "  — ", c.help)
    }
}

/// The commands of `table` whose names begin with `token`, in order.
pub open spec fn matching(table: Seq<CmdModel>, token: Seq<char>) -> Seq<CmdModel> {
    table.filter(|c: CmdModel| token.is_prefix_of(c.name))
}

/// Candidates for a partially typed command token.
pub fn matches(token: &str) -> (r: Vec<Cmd>)
    ensures
        r.deep_view() == matching(command_table(), token@),
{
    let all = commands();
    let mut r: Vec<Cmd> = Vec::new();
    let ghost table = command_table();
    let ghost fits = |c: CmdModel| token@.is_prefix_of(c.name);
    proof {
        reveal(Seq::filter);
        assert(table.take(0).filter(fits) =~= seq![]);
        assert(r.deep_view() =~= seq![]);
    }
    for i in 0..all.len()
        invariant
            all.deep_view() == table,
            fits == (|c: CmdModel| token@.is_prefix_of(c.name)),
            r.deep_view() == table.take(i as int).filter(fits),
    {
        let c = all[i];
        let ghost old_r = r.deep_view();
        proof {
            reveal(Seq::filter);
            assert(table[i as int] == all@[i as int]@);
            assert(table.take(i + 1).drop_last() =~= table.take(i as int));
        }
        if starts_with(c.name, token) {
            r.push(c);
            assert(r.deep_view() =~= old_r.push(c@));
        }
    }
    assert(table.take(all@.len() as int) =~= table);
    r
}

/// The first command of `table` named `name`.
pub open spec fn named(table: Seq<CmdModel>, name: Seq<char>) -> Option<CmdModel>
    decreases table.len(),
{
    if table.len() == 0 {
        None
    } else if table[0].name == name {
        Some(table[0])
    } else {
        named(table.drop_first(), name)
    }
}

/// The command named `name`.
pub fn find(name: &str) -> (r: Option<Cmd>)
    ensures
        r.deep_view() == named(command_table(), name@),
{
    let all = commands();
    let ghost table = command_table();
    assert(table.skip(0) =~= table);
    for i in 0..all.len()
        invariant
            all.deep_view() == table,
            table == command_table(),
            named(table.skip(i as int), name@) == named(table, name@),
    {
        proof {
            assert(table[i as int] == all@[i as int]@);
            assert(table.skip(i as int).drop_first() =~= table.skip(i + 1));
        }
        if str_eq(all[i].name, name) {
            assert(table.skip(i as int)[0] == all@[i as int].deep_view());
            return Some(all[i]);
        }
    }
    None
}

/// How the commands of `table` that have not been used are used.
pub open spec fn unused_usages(table: Seq<CmdModel>, used: Set<Seq<char>>) -> Seq<Seq<char>> {
    table.filter(|c: CmdModel| !used.contains(c.name)).map_values(|c: CmdModel| usage_of(c))
}

/// What the idle hints rotate through.
pub open spec fn idle_pool(used: Set<Seq<char>>) -> Seq<Seq<char>> {
    unused_usages(command_table(), used) + tip_table()
}

/// The place in a pool of `n` hints, `idle_for` nanoseconds into the idle time.
pub open spec fn idle_slot(idle_for: u128, n: nat) -> int {
    ((idle_for / ROTATE) as usize) as int % n as int
}

fn pool(used: &UsedCommands) -> (r: Vec<String>)
    ensures
        r.deep_view() == idle_pool(used@),
{
    let all = commands();
    let mut r: Vec<String> = Vec::new();
    let ghost table = command_table();
    let ghost unused = |c: CmdModel| !used@.contains(c.name);
    let ghost show = |c: CmdModel| usage_of(c);
    proof {
        reveal(Seq::filter);
        assert(table.take(0).filter(unused) =~= seq![]);
        assert(r.deep_view() =~= table.take(0).filter(unused).map_values(show));
    }
    for i in 0..all.len()
        invariant
            all.deep_view() == table,
            unused == (|c: CmdModel| !used@.contains(c.name)),
            show == (|c: CmdModel| usage_of(c)),
            r.deep_view() == table.take(i as int).filter(unused).map_values(show),
    {
        let c = all[i];
        let ghost old_r = r.deep_view();
        proof {
            reveal(Seq::filter);
            assert(table[i as int] == all@[i as int]@);
            assert(table.take(i + 1).drop_last() =~= table.take(i as int));
        }
        if !used.contains(c.name) {
            let line = usage(&c);
            r.push(line);
            assert(r.deep_view() =~= old_r.push(line@));
            assert(table.take(i as int).filter(unused).push(c@).map_values(show) =~= old_r.push(
                show(c@),
            ));
        }
    }
    assert(table.take(all@.len() as int) =~= table);
    let ghost old_r = r.deep_view();
    let mut rest = tips();
    r.append(&mut rest);
    assert(r.deep_view() =~= old_r + tip_table());
    r
}

/// The whole hint bar, as a function of input state.
pub open spec fn hint_of(
    input: Seq<char>,
    since_key: u128,
    idle_for: u128,
    used: Set<Seq<char>>,
) -> HintModel {
    if input.len() > 0 && input[0] == '/' {
        let token = text::first_word(input);
        if token == input {
            // Still typing the command itself: offer completions.
            let m = matching(command_table(), token);
            if m.len() == 0 {
                HintModel::Tip("no command matches "@ + token)
            } else {
                HintModel::Menu(m)
            }
        } else {
            // Command is settled, user is typing arguments: show its usage.
            match named(command_table(), token) {
                Some(c) => HintModel::Tip(usage_of(c)),
                None => HintModel::Tip("unknown command "@ + token),
            }
        }
    } else if since_key < QUIET {
        HintModel::Hidden
    } else if text::is_blank(input) {
        let pool = idle_pool(used);
        HintModel::Tip(pool[idle_slot(idle_for, pool.len())])
    } else {
        HintModel::Tip("enter to send · alt+enter for a newline"@)
    }
}

/// The whole hint bar, as a pure function of input state. No terminal, no
/// clock reads, so it is testable directly.
///
/// `since_key` is time since the last keystroke; `idle_for` is time since the
/// input buffer last became empty (used only to rotate idle hints). Both are in
/// nanoseconds.
pub fn hint(input: &str, since_key: u128, idle_for: u128, used: &UsedCommands) -> (r: Hint)
    ensures
        r@ == hint_of(input@, since_key, idle_for, used@),
{
    if starts_with_char(input, '/') {
        let (token, rest) = split_word(input);
        assert(token@ == input@ <==> rest@.len() == 0) by {
            assert(rest@.len() == 0 ==> token@ =~= input@);
        }
        if rest.as_str().is_empty() {
            let m = matches(token.as_str());
            return if m.is_empty() {
                Hint::Tip(concat2("no command matches ", token.as_str()))
            } else {
                Hint::Menu(m)
            };
        }
        return match find(token.as_str()) {
            Some(c) => Hint::Tip(usage(&c)),
            None => Hint::Tip(concat2("unknown command ", token.as_str())),
        };
    }
    if since_key < QUIET {
        return Hint::Hidden;
    }
    if blank(input) {
        let pool = pool(used);
        let turns = #[verifier::truncate] ((idle_for / ROTATE) as usize);
        let slot = turns % pool.len();
        return Hint::Tip(pool[slot].clone());
    }
    Hint::Tip(String::from_str("enter to send · alt+enter for a newline"))
}

// ---------- what holds of every hint ----------

/// Command completion and usage do not wait for the quiet window, and do not
/// depend on what was used.
pub proof fn command_hints_ignore_the_clock(
    input: Seq<char>,
    since_a: u128,
    idle_a: u128,
    used_a: Set<Seq<char>>,
    since_b: u128,
    idle_b: u128,
    used_b: Set<Seq<char>>,
)
    requires
        input.len() > 0,
        input[0] == '/',
    ensures
        hint_of(input, since_a, idle_a, used_a) == hint_of(input, since_b, idle_b, used_b),
        !(hint_of(input, since_a, idle_a, used_a) is Hidden),
{
}

/// While prose is being typed the bar is hidden, and only then.
pub proof fn hidden_exactly_in_the_quiet_window(
    input: Seq<char>,
    since_key: u128,
    idle_for: u128,
    used: Set<Seq<char>>,
)
    ensures
        hint_of(input, since_key, idle_for, used) is Hidden <==> since_key < QUIET && !(input.len()
            > 0 && input[0] == '/'),
{
}

/// Idle hints change only at the rotation boundary, and at each one they move on by
/// one place in the pool, back to the first behind the last.
pub proof fn idle_hints_rotate(input: Seq<char>, since_key: u128, a: u128, b: u128, used: Set<Seq<char>>)
    requires
        text::is_blank(input),
        since_key >= QUIET,
    ensures
        a / ROTATE == b / ROTATE ==> hint_of(input, since_key, a, used) == hint_of(
            input,
            since_key,
            b,
            used,
        ),
        b / ROTATE == a / ROTATE + 1 && b / ROTATE <= usize::MAX ==> idle_slot(
            b,
            idle_pool(used).len(),
        ) == (idle_slot(a, idle_pool(used).len()) + 1) % idle_pool(used).len() as int,
        hint_of(input, since_key, a, used) == HintModel::Tip(
            idle_pool(used)[idle_slot(a, idle_pool(used).len())],
        ),
        0 <= idle_slot(a, idle_pool(used).len()) < idle_pool(used).len(),
{
    assert(!(input.len() > 0 && input[0] == '/')) by {
        if input.len() > 0 {
            assert(text::is_white(input[0]));
        }
    }
    let n = idle_pool(used).len() as int;
    let x = a / ROTATE;
    assert(n >= 5);
    vstd::arithmetic::div_mod::lemma_mod_bound(x as usize as int, n);
    if b / ROTATE == x + 1 && b / ROTATE <= usize::MAX {
        vstd::arithmetic::div_mod::lemma_add_mod_noop(x as int, 1, n);
        vstd::arithmetic::div_mod::lemma_small_mod(1, n as nat);
    }
}

/// Used commands drop out of the rotation: every idle hint is a key binding or the
/// usage of a command that was not used.
pub proof fn used_commands_drop_out(used: Set<Seq<char>>, i: int)
    requires
        0 <= i < idle_pool(used).len(),
    ensures
        tip_table().contains(idle_pool(used)[i]) || exists|c: CmdModel|
            #[trigger] command_table().contains(c) && !used.contains(c.name) && idle_pool(used)[i]
                == usage_of(c),
{
    let unused = |c: CmdModel| !used.contains(c.name);
    let kept = command_table().filter(unused);
    let lines = unused_usages(command_table(), used);
    if i < lines.len() {
        lemma_filter_members(command_table(), unused, kept[i]);
        assert(kept.contains(kept[i]));
        assert(lines[i] == usage_of(kept[i]));
    } else {
        assert(idle_pool(used)[i] == tip_table()[i - lines.len()]);
    }
}

/// The completion menu holds exactly the commands that the token can grow into.
pub proof fn menu_is_sound_and_complete(token: Seq<char>, c: CmdModel)
    ensures
        matching(command_table(), token).contains(c) <==> command_table().contains(c)
            && token.is_prefix_of(c.name),
{
    lemma_filter_members(command_table(), |c: CmdModel| token.is_prefix_of(c.name), c);
}

/// A filter keeps the members that it lets through, and no others.
proof fn lemma_filter_members<A>(s: Seq<A>, keep: spec_fn(A) -> bool, x: A)
    ensures
        s.filter(keep).contains(x) <==> s.contains(x) && keep(x),
    decreases s.len(),
{
    reveal(Seq::filter);
    if s.len() > 0 {
        let t = s.drop_last();
        let kept = t.filter(keep);
        lemma_filter_members(t, keep, x);
        assert(s =~= t.push(s.last()));
        assert(s.contains(x) <==> t.contains(x) || x == s.last()) by {
            if t.contains(x) {
                let i = choose|i: int| 0 <= i < t.len() && t[i] == x;
                assert(s[i] == x);
            }
            if x == s.last() {
                assert(s[s.len() - 1] == x);
            }
            if s.contains(x) {
                let i = choose|i: int| 0 <= i < s.len() && s[i] == x;
                if i < t.len() {
                    assert(t[i] == x);
                }
            }
        }
        if keep(s.last()) {
            let more = kept.push(s.last());
            assert(more.contains(x) <==> kept.contains(x) || x == s.last()) by {
                if kept.contains(x) {
                    let i = choose|i: int| 0 <= i < kept.len() && kept[i] == x;
                    assert(more[i] == x);
                }
                if x == s.last() {
                    assert(more[kept.len() as int] == x);
                }
                if more.contains(x) {
                    let i = choose|i: int| 0 <= i < more.len() && more[i] == x;
                    if i < kept.len() {
                        assert(kept[i] == x);
                    }
                }
            }
        }
    }
}

/// The menu keeps the order of the list: of two commands on it, the one that is offered
/// first stands first in the list. The result is where the two stand.
pub proof fn the_menu_keeps_the_order(token: Seq<char>, i: int, j: int) -> (r: (int, int))
    requires
        0 <= i < j < matching(command_table(), token).len(),
    ensures
        0 <= r.0 < r.1 < command_table().len(),
        matching(command_table(), token)[i] == command_table()[r.0],
        matching(command_table(), token)[j] == command_table()[r.1],
{
    lemma_filter_order(command_table(), |c: CmdModel| token.is_prefix_of(c.name), i, j)
}

proof fn lemma_filter_place<A>(s: Seq<A>, keep: spec_fn(A) -> bool, i: int) -> (r: int)
    requires
        0 <= i < s.filter(keep).len(),
    ensures
        0 <= r < s.len(),
        s.filter(keep)[i] == s[r],
    decreases s.len(),
{
    reveal(Seq::filter);
    let t = s.drop_last();
    if i < t.filter(keep).len() {
        lemma_filter_place(t, keep, i)
    } else {
        s.len() - 1
    }
}

proof fn lemma_filter_order<A>(s: Seq<A>, keep: spec_fn(A) -> bool, i: int, j: int) -> (r: (
    int,
    int,
))
    requires
        0 <= i < j < s.filter(keep).len(),
    ensures
        0 <= r.0 < r.1 < s.len(),
        s.filter(keep)[i] == s[r.0],
        s.filter(keep)[j] == s[r.1],
    decreases s.len(),
{
    reveal(Seq::filter);
    let t = s.drop_last();
    if j < t.filter(keep).len() {
        lemma_filter_order(t, keep, i, j)
    } else {
        (lemma_filter_place(t, keep, i), s.len() - 1)
    }
}

/// A command is found by its name: what is found is in the list and has that name, and
/// where nothing is found no command has it.
pub proof fn commands_are_found_by_their_names(table: Seq<CmdModel>, name: Seq<char>)
    ensures
        named(table, name) matches Some(c) ==> table.contains(c) && c.name == name,
        named(table, name) is None ==> forall|i: int|
            0 <= i < table.len() ==> (#[trigger] table[i]).name != name,
    decreases table.len(),
{
    if table.len() > 0 && table[0].name != name {
        let rest = table.drop_first();
        commands_are_found_by_their_names(rest, name);
        if let Some(c) = named(rest, name) {
            let i = choose|i: int| 0 <= i < rest.len() && rest[i] == c;
            assert(table[i + 1] == c);
        } else {
            assert forall|i: int| 0 <= i < table.len() implies (#[trigger] table[i]).name
                != name by {
                if i > 0 {
                    assert(rest[i - 1] == table[i]);
                }
            }
        }
    } else if table.len() > 0 {
        assert(table[0] == named(table, name)->0);
    }
}

/// How a command is used begins with its name, has its arguments behind it, and ends in
/// its help.
pub proof fn usage_holds_name_arguments_and_help(c: CmdModel)
    ensures
        ({
            let line = usage_of(c);
            let gap = "  — "@;
            let n = c.name.len() as int;
            let a = if c.args.len() == 0 { n } else { n + 1 + c.args.len() };
            &&& line.len() == a + gap.len() + c.help.len()
            &&& line.take(n) == c.name
            &&& c.args.len() > 0 ==> line[n] == ' ' && line.subrange(n + 1, a) == c.args
            &&& line.subrange(a, a + gap.len()) == gap
            &&& line.skip(a + gap.len()) == c.help
        }),
{
    reveal_strlit(" ");
    let line = usage_of(c);
    let gap = "  — "@;
    let n = c.name.len() as int;
    let a = if c.args.len() == 0 { n } else { n + 1 + c.args.len() };
    assert(line.take(n) =~= c.name);
    if c.args.len() > 0 {
        assert(line.subrange(n + 1, a) =~= c.args);
    }
    assert(line.subrange(a, a + gap.len()) =~= gap);
    assert(line.skip(a + gap.len()) =~= c.help);
}

/// The idle hints leave nothing out: every command that was not used is among them, with
/// its usage, and so is every key binding.
pub proof fn idle_hints_leave_nothing_out(used: Set<Seq<char>>, c: CmdModel, i: int)
    ensures
        command_table().contains(c) && !used.contains(c.name) ==> idle_pool(used).contains(
            usage_of(c),
        ),
        0 <= i < tip_table().len() ==> idle_pool(used).contains(tip_table()[i]),
        ({
            let kept = command_table().filter(|c: CmdModel| !used.contains(c.name));
            &&& idle_pool(used).len() == kept.len() + tip_table().len()
            &&& 0 <= i < kept.len() ==> idle_pool(used)[i] == usage_of(kept[i])
            &&& 0 <= i < tip_table().len() ==> idle_pool(used)[kept.len() + i] == tip_table()[i]
        }),
{
    let unused = |c: CmdModel| !used.contains(c.name);
    let kept = command_table().filter(unused);
    let lines = unused_usages(command_table(), used);
    let pool = idle_pool(used);
    lemma_filter_members(command_table(), unused, c);
    if command_table().contains(c) && !used.contains(c.name) {
        let k = choose|k: int| 0 <= k < kept.len() && kept[k] == c;
        assert(lines[k] == usage_of(c));
        assert(pool[k] == usage_of(c));
    }
    if 0 <= i < tip_table().len() {
        assert(pool[lines.len() + i] == tip_table()[i]);
    }
}

/// The first idle hint is shown from the start, each for four seconds, and behind the last
/// one comes the first again.
pub proof fn idle_hints_take_their_turns(idle_for: u128, n: nat)
    requires
        n > 0,
        idle_for / 4_000_000_000 <= usize::MAX,
    ensures
        idle_slot(idle_for, n) == (idle_for / 4_000_000_000) as int % n as int,
{
}

/// The commands that are offered, with their arguments and what they are for.
pub proof fn the_commands_are_these(i: int)
    requires
        0 <= i < command_table().len(),
    ensures
        ({
            let c = command_table()[i];
            &&& i == 0 ==> c.name == "/rag"@ && c.args == "<question>"@ && c.help
                == "codebase-grounded answer"@
            &&& i == 1 ==> c.name == "/ask"@ && c.args == "<task>"@ && c.help
                == "ask the model with no retrieval"@
            &&& i == 2 ==> c.name == "/index"@ && c.args == "[dir]"@ && c.help
                == "build or refresh the RAG index"@
            &&& i == 3 ==> c.name == "/file"@ && c.args == "<path>"@ && c.help
                == "stage a file into the next prompt"@
            &&& i == 4 ==> c.name == "/shell"@ && c.args == "<cmd>"@ && c.help
                == "run a command, output into scrollback"@
            &&& i == 5 ==> c.name == "/agent"@ && c.args == "<task>"@ && c.help
                == "autonomous coding agent"@
            &&& i == 6 ==> c.name == "/model"@ && c.args == ""@ && c.help
                == "cycle fast / main / heavy"@
            &&& i == 7 ==> c.name == "/history"@ && c.args == ""@ && c.help
                == "show this session's history"@
            &&& i == 8 ==> c.name == "/clear"@ && c.args == ""@ && c.help
                == "clear scrollback and history file"@
            &&& i == 9 ==> c.name == "/quit"@ && c.args == ""@ && c.help == "exit"@
            &&& i < 10
        }),
        command_table().len() == 10,
        tip_table().len() == 5,
        tip_table()[0] == "ctrl+t cycles the model tier"@,
        tip_table()[1] == "alt+enter inserts a newline, enter sends"@,
        tip_table()[2] == "pgup / pgdn scroll, end re-pins to the bottom"@,
        tip_table()[3] == "ctrl+c cancels a running answer"@,
        tip_table()[4] == "type / to see every command"@,
{
}

/// What the bar says of a command: while its name is being typed, the commands that it
/// can grow into, or that there is none; once white space stands behind it, how it is
/// used, or that it is unknown.
pub proof fn commands_are_explained(
    token: Seq<char>,
    rest: Seq<char>,
    since_key: u128,
    idle_for: u128,
    used: Set<Seq<char>>,
)
    requires
        token.len() > 0,
        token[0] == '/',
        forall|i: int| 0 <= i < token.len() ==> !text::is_white(#[trigger] token[i]),
        rest.len() > 0 ==> text::is_white(rest[0]),
    ensures
        ({
            let shown = hint_of(token + rest, since_key, idle_for, used);
            let offered = matching(command_table(), token);
            &&& rest.len() == 0 && offered.len() > 0 ==> shown == HintModel::Menu(offered)
            &&& rest.len() == 0 && offered.len() == 0 ==> shown == HintModel::Tip(
                "no command matches "@ + token,
            )
            &&& rest.len() > 0 ==> match named(command_table(), token) {
                Some(c) => shown == HintModel::Tip(usage_of(c)),
                None => shown == HintModel::Tip("unknown command "@ + token),
            }
        }),
{
    let input = token + rest;
    let k = token.len() as int;
    assert forall|j: int| 0 <= j < k implies !text::is_white(#[trigger] input[j]) by {
        assert(input[j] == token[j]);
    }
    if rest.len() > 0 {
        assert(input[k] == rest[0]);
    }
    text::lemma_word_end(input, k);
    assert(text::first_word(input) =~= token);
    if rest.len() == 0 {
        assert(input =~= token);
    } else {
        assert(input.len() != token.len());
    }
}

/// Prose that is left alone for a while is told how it is sent.
pub proof fn prose_is_told_how_it_is_sent(
    input: Seq<char>,
    since_key: u128,
    idle_for: u128,
    used: Set<Seq<char>>,
)
    requires
        !text::is_blank(input),
        input[0] != '/',
        since_key >= 800_000_000,
    ensures
        hint_of(input, since_key, idle_for, used) == HintModel::Tip(
            "enter to send · alt+enter for a newline"@,
        ),
{
}

} // verus!
