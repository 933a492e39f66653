//! The model tiers, and what the environment says about a session.
use vstd::prelude::*;
use vstd::string::StringExecFns;

use crate::text::{chars_of, str_eq};

verus! {

/// Which of the three local models answers.
#[derive(Clone, Copy, Debug, PartialEq, Eq, Structural)]
pub enum Tier {
    Fast,
    Main,
    Heavy,
}

/// The name of a tier.
pub open spec fn tier_label(tier: Tier) -> Seq<char> {
    match tier {
        Tier::Fast => "fast"@,
        Tier::Main => "main"@,
        Tier::Heavy => "heavy"@,
    }
}

/// The tier that follows `tier` in the cycle.
pub open spec fn tier_after(tier: Tier) -> Tier {
    match tier {
        Tier::Fast => Tier::Main,
        Tier::Main => Tier::Heavy,
        Tier::Heavy => Tier::Fast,
    }
}

impl Tier {
    pub fn label(self) -> (r: &'static str)
        ensures
            r@ == tier_label(self),
    {
        match self {
            Tier::Fast => "fast",
            Tier::Main => "main",
            Tier::Heavy => "heavy",
        }
    }

    pub fn next(self) -> (r: Tier)
        ensures
            r == tier_after(self),
    {
        match self {
            Tier::Fast => Tier::Main,
            Tier::Main => Tier::Heavy,
            Tier::Heavy => Tier::Fast,
        }
    }
}

/// Three steps through the tiers lead back, and fewer do not: the cycle reaches
/// every tier.
pub proof fn tiers_form_one_cycle(tier: Tier)
    ensures
        tier_after(tier) != tier,
        tier_after(tier_after(tier)) != tier,
        tier_after(tier_after(tier)) != tier_after(tier),
        tier_after(tier_after(tier_after(tier))) == tier,
{
}

/// No two tiers have the same name.
pub proof fn tier_labels_differ(a: Tier, b: Tier)
    requires
        tier_label(a) == tier_label(b),
    ensures
        a == b,
{
    reveal_strlit("fast");
    reveal_strlit("main");
    reveal_strlit("heavy");
    assert("fast"@[0] == 'f' && "main"@[0] == 'm' && "heavy"@[0] == 'h');
}

/// The name of the history file in the project's directory.
pub const HISTORY_NAME: &'static str = ".agent_history.txt";

/// What a session is run with.
#[derive(Debug)]
pub struct Config {
    /// The project that is being worked on.
    pub root: String,
    /// The installation: its interpreter, its retrieval script and its agent.
    pub home: String,
    pub ollama_url: String,
    pub fast_model: String,
    pub main_model: String,
    pub heavy_model: String,
    pub history_file: String,
    pub session: u64,
}

pub struct ConfigModel {
    pub root: Seq<char>,
    pub home: Seq<char>,
    pub ollama_url: Seq<char>,
    pub fast_model: Seq<char>,
    pub main_model: Seq<char>,
    pub heavy_model: Seq<char>,
    pub history_file: Seq<char>,
    pub session: u64,
}

impl View for Config {
    type V = ConfigModel;

    open spec fn view(&self) -> ConfigModel {
        ConfigModel {
            root: self.root@,
            home: self.home@,
            ollama_url: self.ollama_url@,
            fast_model: self.fast_model@,
            main_model: self.main_model@,
            heavy_model: self.heavy_model@,
            history_file: self.history_file@,
            session: self.session,
        }
    }
}

impl Clone for Config {
    fn clone(&self) -> (r: Self)
        ensures
            r@ == self@,
    {
        Config {
            root: self.root.clone(),
            home: self.home.clone(),
            ollama_url: self.ollama_url.clone(),
            fast_model: self.fast_model.clone(),
            main_model: self.main_model.clone(),
            heavy_model: self.heavy_model.clone(),
            history_file: self.history_file.clone(),
            session: self.session,
        }
    }
}

impl ConfigModel {
    /// The model that answers in `tier`.
    pub open spec fn model(self, tier: Tier) -> Seq<char> {
        match tier {
            Tier::Fast => self.fast_model,
            Tier::Main => self.main_model,
            Tier::Heavy => self.heavy_model,
        }
    }

    /// The model that answers from retrieved context in `tier`: the heavy one, unless
    /// the fast tier opts down.
    pub open spec fn rag_model(self, tier: Tier) -> Seq<char> {
        match tier {
            Tier::Fast => self.fast_model,
            Tier::Main => self.heavy_model,
            Tier::Heavy => self.heavy_model,
        }
    }
}

/// What the first variable named `key` holds.
pub open spec fn lookup(vars: Seq<(Seq<char>, Seq<char>)>, key: Seq<char>) -> Option<Seq<char>>
    decreases vars.len(),
{
    if vars.len() == 0 {
        None
    } else if vars[0].0 == key {
        Some(vars[0].1)
    } else {
        lookup(vars.drop_first(), key)
    }
}

/// What the variable named `key` holds, or `default` where there is none.
pub open spec fn value_or(
    vars: Seq<(Seq<char>, Seq<char>)>,
    key: Seq<char>,
    default: Seq<char>,
) -> Seq<char> {
    match lookup(vars, key) {
        Some(value) => value,
        None => default,
    }
}

/// The relative path `rel`, seen from `base`.
pub open spec fn path_in(base: Seq<char>, rel: Seq<char>) -> Seq<char> {
    if base.len() == 0 || base.last() == '/' {
        base + rel
    } else {
        base.push('/') + rel
    }
}

/// The relative path `rel`, seen from `base`.
pub fn join_path(base: &str, rel: &str) -> (r: String)
    ensures
        r@ == path_in(base@, rel@),
{
    let v = chars_of(base);
    let mut r = String::from_str(base);
    if v.len() > 0 && v[v.len() - 1] != '/' {
        r.push('/');
    }
    r.append(rel);
    r
}

/// What the variable named `key` holds, or `default` where there is none.
pub fn env_or(vars: &Vec<(String, String)>, key: &str, default: &str) -> (r: String)
    ensures
        r@ == value_or(vars.deep_view(), key@, default@),
{
    let ghost all = vars.deep_view();
    assert(all.skip(0) =~= all);
    for i in 0..vars.len()
        invariant
            all == vars.deep_view(),
            lookup(all.skip(i as int), key@) == lookup(all, key@),
    {
        assert(all.skip(i as int).drop_first() =~= all.skip(i + 1));
        assert(all[i as int] == (vars@[i as int].0@, vars@[i as int].1@));
        if str_eq(vars[i].0.as_str(), key) {
            return vars[i].1.clone();
        }
    }
    String::from_str(default)
}

/// The session that the environment `vars` asks for, in the project `root`.
pub open spec fn config_from(
    vars: Seq<(Seq<char>, Seq<char>)>,
    root: Seq<char>,
    session: u64,
) -> ConfigModel {
    ConfigModel {
        root,
        home: value_or(vars, "AMADEUS_HOME"@, root),
        ollama_url: value_or(vars, "AMADEUS_OLLAMA_URL"@, "http://localhost:11434"@),
        fast_model: value_or(vars, "AMADEUS_FAST_MODEL"@, "qwen2.5-coder:1.5b"@),
        main_model: value_or(vars, "AMADEUS_MAIN_MODEL"@, "qwen2.5-coder:3b"@),
        heavy_model: value_or(vars, "AMADEUS_HEAVY_MODEL"@, "qwen3:8b"@),
        history_file: path_in(root, HISTORY_NAME@),
        session,
    }
}

impl Config {
    /// Reads the session's settings out of the environment variables `vars`. The
    /// session is named by the seconds since the epoch.
    pub fn from_env(vars: &Vec<(String, String)>, root: &str, session: u64) -> (r: Config)
        ensures
            r@ == config_from(vars.deep_view(), root@, session),
    {
        Config {
            root: String::from_str(root),
            home: env_or(vars, "AMADEUS_HOME", root),
            ollama_url: env_or(vars, "AMADEUS_OLLAMA_URL", "http://localhost:11434"),
            fast_model: env_or(vars, "AMADEUS_FAST_MODEL", "qwen2.5-coder:1.5b"),
            main_model: env_or(vars, "AMADEUS_MAIN_MODEL", "qwen2.5-coder:3b"),
            heavy_model: env_or(vars, "AMADEUS_HEAVY_MODEL", "qwen3:8b"),
            history_file: join_path(root, HISTORY_NAME),
            session,
        }
    }

    /// The model that answers in `tier`.
    pub fn model(&self, tier: Tier) -> (r: &str)
        ensures
            r@ == self@.model(tier),
    {
        match tier {
            Tier::Fast => self.fast_model.as_str(),
            Tier::Main => self.main_model.as_str(),
            Tier::Heavy => self.heavy_model.as_str(),
        }
    }

    /// The model that answers from retrieved context in `tier`. Grounded answers
    /// default to the heavy model, which stays inside its context; the fast tier
    /// opts down.
    pub fn rag_model(&self, tier: Tier) -> (r: &str)
        ensures
            r@ == self@.rag_model(tier),
    {
        match tier {
            Tier::Fast => self.fast_model.as_str(),
            Tier::Main => self.heavy_model.as_str(),
            Tier::Heavy => self.heavy_model.as_str(),
        }
    }
}

// ---------- what holds of every setting ----------

/// A variable is found by its name, and where a name stands twice the first one counts.
/// The result is its place.
pub proof fn variables_are_found_by_their_names(
    vars: Seq<(Seq<char>, Seq<char>)>,
    key: Seq<char>,
    default: Seq<char>,
) -> (i: int)
    ensures
        forall|j: int| 0 <= j < i ==> (#[trigger] vars[j]).0 != key,
        0 <= i <= vars.len(),
        i < vars.len() ==> vars[i].0 == key && lookup(vars, key) == Some(vars[i].1) && value_or(
            vars,
            key,
            default,
        ) == vars[i].1,
        i == vars.len() ==> lookup(vars, key) is None && value_or(vars, key, default) == default,
    decreases vars.len(),
{
    if vars.len() == 0 || vars[0].0 == key {
        0
    } else {
        let rest = vars.drop_first();
        let i = variables_are_found_by_their_names(rest, key, default);
        assert forall|j: int| 0 <= j < i + 1 implies (#[trigger] vars[j]).0 != key by {
            if j > 0 {
                assert(rest[j - 1] == vars[j]);
            }
        }
        i + 1
    }
}

/// A path is the directory, a slash where there is not one already, and the relative
/// path.
pub proof fn paths_are_joined_by_one_slash(base: Seq<char>, rel: Seq<char>)
    ensures
        base.is_prefix_of(path_in(base, rel)),
        path_in(base, rel).skip(path_in(base, rel).len() - rel.len()) == rel,
        path_in(base, rel).len() == base.len() + rel.len() + (if base.len() > 0 && base.last()
            != '/' {
            1int
        } else {
            0int
        }),
        base.len() > 0 ==> path_in(base, rel)[path_in(base, rel).len() - rel.len() - 1] == '/',
{
    let path = path_in(base, rel);
    assert(path.take(base.len() as int) =~= base);
    assert(path.skip(path.len() - rel.len()) =~= rel);
}

/// The project is where the session was started, whatever the environment says; and each
/// setting depends on its own variable alone.
pub proof fn settings_depend_on_their_variables(
    vars: Seq<(Seq<char>, Seq<char>)>,
    root: Seq<char>,
    session: u64,
)
    ensures
        ({
            let cfg = config_from(vars, root, session);
            &&& cfg.root == root
            &&& cfg.session == session
            &&& cfg.history_file == path_in(root, ".agent_history.txt"@)
            &&& cfg.home == value_or(vars, "AMADEUS_HOME"@, root)
            &&& cfg.ollama_url == value_or(vars, "AMADEUS_OLLAMA_URL"@, "http://localhost:11434"@)
            &&& cfg.model(Tier::Fast) == value_or(
                vars,
                "AMADEUS_FAST_MODEL"@,
                "qwen2.5-coder:1.5b"@,
            )
            &&& cfg.model(Tier::Main) == value_or(vars, "AMADEUS_MAIN_MODEL"@, "qwen2.5-coder:3b"@)
            &&& cfg.model(Tier::Heavy) == value_or(vars, "AMADEUS_HEAVY_MODEL"@, "qwen3:8b"@)
            &&& cfg.rag_model(Tier::Fast) == cfg.model(Tier::Fast)
            &&& cfg.rag_model(Tier::Main) == cfg.model(Tier::Heavy)
            &&& cfg.rag_model(Tier::Heavy) == cfg.model(Tier::Heavy)
        }),
{
}

} // verus!
