//! Service configuration, as loaded from the TOML file.

use vstd::prelude::*;
use vstd::string::StringExecFns;
use crate::engine::prompt::PromptOptions;
use crate::text::{decimal, lemma_decimal_reads_back, parse_usize, parsed_usize, push_decimal, str_equals};

verus! {

/// 42 service configuration, loaded from a TOML file.
#[derive(Debug, Clone)]
pub struct Config {
    pub server: ServerConfig,
    pub llm: LlmConfig,
    pub search: SearchConfig,
    pub database: DatabaseConfig,
    pub admin: Option<AdminSeed>,
}

#[derive(Debug, Clone)]
pub struct ServerConfig {
    /// Listen address, e.g. "0.0.0.0:4242".
    pub bind: String,
}

/// The listen address used when the configuration names none.
pub fn default_bind() -> (r: String)
    ensures
        r@ == "127.0.0.1:4242"@,
{
    String::from_str("127.0.0.1:4242")
}

#[derive(Debug, Clone)]
pub struct LlmConfig {
    /// OpenAI-compatible base URL, e.g. "http://192.168.68.128:9292/v1".
    pub base_url: String,
    pub model: String,
    /// Context window size in tokens; oldest history is truncated first.
    pub context_window: usize,
}

/// The context window used when the configuration names none.
pub fn default_context_window() -> (r: usize)
    ensures
        r == 32768,
{
    32_768
}

#[derive(Debug, Clone)]
pub struct SearchConfig {
    /// SearXNG base URL with JSON API enabled.
    pub base_url: String,
    /// Number of results injected into the prompt per turn.
    pub max_sources: usize,
    /// Snippet length in characters.
    pub snippet_chars: usize,
}

/// The number of sources used when the configuration names none.
pub fn default_max_sources() -> (r: usize)
    ensures
        r == 8,
{
    8
}

/// The snippet length used when the configuration names none.
pub fn default_snippet_chars() -> (r: usize)
    ensures
        r == 500,
{
    500
}

#[derive(Debug, Clone)]
pub struct DatabaseConfig {
    /// Path to the SQLite file.
    pub path: String,
    /// Sliding window: how many recent turns are sent to the LLM.
    pub history_turns: usize,
}

/// The database file used when the configuration names none.
pub fn default_database_path() -> (r: String)
    ensures
        r@ == "42.sqlite"@,
{
    String::from_str("42.sqlite")
}

/// The history window used when the configuration names none.
pub fn default_history_turns() -> (r: usize)
    ensures
        r == 10,
{
    10
}

/// First-admin bootstrap: seeded into SQLite on first start if absent.
#[derive(Debug, Clone)]
pub struct AdminSeed {
    pub username: String,
    /// argon2id hash, produced by `42 admin hash-password`.
    pub password_hash: String,
}

impl Config {
    /// The prompt bounds that the configuration sets: the LLM context window
    /// and the number of history turns.
    pub fn prompt_options(&self) -> (r: PromptOptions)
        ensures
            r.context_window == self.llm.context_window,
            r.history_turns == self.database.history_turns,
    {
        PromptOptions {
            context_window: self.llm.context_window,
            history_turns: self.database.history_turns,
        }
    }
}

/// The engine settings that admins tune at runtime: the LLM endpoint and
/// model, the search endpoint and its budgets, and the history window. The
/// configuration file gives their initial values; the stored key/value
/// pairs override them.
#[derive(Debug, Clone)]
pub struct EngineSettings {
    pub llm_base_url: String,
    pub llm_model: String,
    pub llm_context_window: usize,
    pub search_url: String,
    pub search_max_results: usize,
    pub search_snippet_chars: usize,
    pub history_window: usize,
}

/// The content of engine settings.
pub struct SettingsView {
    pub llm_base_url: Seq<char>,
    pub llm_model: Seq<char>,
    pub llm_context_window: nat,
    pub search_url: Seq<char>,
    pub search_max_results: nat,
    pub search_snippet_chars: nat,
    pub history_window: nat,
}

impl EngineSettings {
    pub open spec fn view(&self) -> SettingsView {
        SettingsView {
            llm_base_url: self.llm_base_url@,
            llm_model: self.llm_model@,
            llm_context_window: self.llm_context_window as nat,
            search_url: self.search_url@,
            search_max_results: self.search_max_results as nat,
            search_snippet_chars: self.search_snippet_chars as nat,
            history_window: self.history_window as nat,
        }
    }
}

/// Key/value pairs as character sequences.
pub open spec fn pairs_view(p: Seq<(String, String)>) -> Seq<(Seq<char>, Seq<char>)> {
    p.map_values(|x: (String, String)| (x.0@, x.1@))
}

/// The value of the first pair whose key is `key`.
pub open spec fn lookup(p: Seq<(Seq<char>, Seq<char>)>, key: Seq<char>) -> Option<Seq<char>>
    decreases p.len(),
{
    if p.len() == 0 {
        None
    } else if p[0].0 == key {
        Some(p[0].1)
    } else {
        lookup(p.drop_first(), key)
    }
}

/// A text setting: the stored value, else `fallback`.
pub open spec fn text_setting(p: Seq<(Seq<char>, Seq<char>)>, key: Seq<char>, fallback: Seq<char>) -> Seq<
    char,
> {
    match lookup(p, key) {
        Some(v) => v,
        None => fallback,
    }
}

/// A number setting: the stored value when it reads as a `usize`, else
/// `fallback`.
pub open spec fn number_setting(p: Seq<(Seq<char>, Seq<char>)>, key: Seq<char>, fallback: nat) -> nat {
    match lookup(p, key) {
        Some(v) => match parsed_usize(v) {
            Some(n) => n,
            None => fallback,
        },
        None => fallback,
    }
}

/// The engine settings that stored pairs `p` give over configuration `c`.
pub open spec fn settings_from(p: Seq<(Seq<char>, Seq<char>)>, c: Config) -> SettingsView {
    SettingsView {
        llm_base_url: text_setting(p, "llm_base_url"@, c.llm.base_url@),
        llm_model: text_setting(p, "llm_model"@, c.llm.model@),
        llm_context_window: number_setting(
            p,
            "llm_context_window"@,
            c.llm.context_window as nat,
        ),
        search_url: text_setting(p, "search_url"@, c.search.base_url@),
        search_max_results: number_setting(p, "search_max_results"@, c.search.max_sources as nat),
        search_snippet_chars: number_setting(
            p,
            "search_snippet_chars"@,
            c.search.snippet_chars as nat,
        ),
        history_window: number_setting(p, "history_window"@, c.database.history_turns as nat),
    }
}

/// The pairs under which settings are stored, numbers in decimal, in this
/// order.
pub open spec fn settings_pairs(s: SettingsView) -> Seq<(Seq<char>, Seq<char>)> {
    seq![
        ("llm_base_url"@, s.llm_base_url),
        ("llm_model"@, s.llm_model),
        ("llm_context_window"@, decimal(s.llm_context_window)),
        ("search_url"@, s.search_url),
        ("search_max_results"@, decimal(s.search_max_results)),
        ("search_snippet_chars"@, decimal(s.search_snippet_chars)),
        ("history_window"@, decimal(s.history_window)),
    ]
}

/// The value stored under `key`, if any.
fn find_setting(pairs: &[(String, String)], key: &str) -> (r: Option<String>)
    ensures
        match r {
            Some(v) => lookup(pairs_view(pairs@), key@) == Some(v@),
            None => lookup(pairs_view(pairs@), key@) is None,
        },
{
    let ghost pv = pairs_view(pairs@);
    assert(pv.skip(0) =~= pv);
    let mut i: usize = 0;
    while i < pairs.len()
        invariant
            i <= pairs@.len(),
            pv == pairs_view(pairs@),
            lookup(pv, key@) == lookup(pv.skip(i as int), key@),
        decreases pairs@.len() - i,
    {
        let ghost rest = pv.skip(i as int);
        assert(rest[0] == (pairs@[i as int].0@, pairs@[i as int].1@));
        if str_equals(pairs[i].0.as_str(), key) {
            return Some(pairs[i].1.clone());
        }
        assert(rest.drop_first() =~= pv.skip(i + 1));
        i += 1;
    }
    assert(pv.skip(i as int).len() == 0);
    None
}

fn text_from(pairs: &[(String, String)], key: &str, fallback: &String) -> (r: String)
    ensures
        r@ == text_setting(pairs_view(pairs@), key@, fallback@),
{
    match find_setting(pairs, key) {
        Some(v) => v,
        None => fallback.clone(),
    }
}

fn number_from(pairs: &[(String, String)], key: &str, fallback: usize) -> (r: usize)
    ensures
        r as nat == number_setting(pairs_view(pairs@), key@, fallback as nat),
{
    match find_setting(pairs, key) {
        Some(v) => match parse_usize(v.as_str()) {
            Some(n) => n,
            None => fallback,
        },
        None => fallback,
    }
}

fn push_pair(out: &mut Vec<(String, String)>, key: &str, value: String)
    ensures
        pairs_view(final(out)@) == pairs_view(old(out)@).push((key@, value@)),
{
    let ghost before = old(out)@;
    out.push((key.to_string(), value));
    assert(pairs_view(out@) =~= pairs_view(before).push((key@, value@)));
}

fn decimal_string(n: usize) -> (r: String)
    ensures
        r@ == decimal(n as nat),
{
    let mut s = String::new();
    push_decimal(&mut s, n);
    s
}

impl EngineSettings {
    /// The settings that stored pairs give over the configuration: each
    /// stored value overrides the configured one (a number only when it
    /// reads as one); with nothing stored, the configuration's values.
    pub fn from_map(pairs: &[(String, String)], config: &Config) -> (r: EngineSettings)
        ensures
            r@ == settings_from(pairs_view(pairs@), *config),
    {
        proof {
            reveal_strlit("llm_base_url");
            reveal_strlit("llm_model");
            reveal_strlit("llm_context_window");
            reveal_strlit("search_url");
            reveal_strlit("search_max_results");
            reveal_strlit("search_snippet_chars");
            reveal_strlit("history_window");
        }
        EngineSettings {
            llm_base_url: text_from(pairs, "llm_base_url", &config.llm.base_url),
            llm_model: text_from(pairs, "llm_model", &config.llm.model),
            llm_context_window: number_from(pairs, "llm_context_window", config.llm.context_window),
            search_url: text_from(pairs, "search_url", &config.search.base_url),
            search_max_results: number_from(pairs, "search_max_results", config.search.max_sources),
            search_snippet_chars: number_from(
                pairs,
                "search_snippet_chars",
                config.search.snippet_chars,
            ),
            history_window: number_from(pairs, "history_window", config.database.history_turns),
        }
    }

    /// The pairs under which these settings are stored.
    pub fn to_pairs(&self) -> (r: Vec<(String, String)>)
        ensures
            pairs_view(r@) == settings_pairs(self@),
    {
        proof {
            reveal_strlit("llm_base_url");
            reveal_strlit("llm_model");
            reveal_strlit("llm_context_window");
            reveal_strlit("search_url");
            reveal_strlit("search_max_results");
            reveal_strlit("search_snippet_chars");
            reveal_strlit("history_window");
        }
        let mut r: Vec<(String, String)> = Vec::new();
        assert(pairs_view(r@) =~= Seq::<(Seq<char>, Seq<char>)>::empty());
        push_pair(&mut r, "llm_base_url", self.llm_base_url.clone());
        push_pair(&mut r, "llm_model", self.llm_model.clone());
        push_pair(&mut r, "llm_context_window", decimal_string(self.llm_context_window));
        push_pair(&mut r, "search_url", self.search_url.clone());
        push_pair(&mut r, "search_max_results", decimal_string(self.search_max_results));
        push_pair(&mut r, "search_snippet_chars", decimal_string(self.search_snippet_chars));
        push_pair(&mut r, "history_window", decimal_string(self.history_window));
        assert(pairs_view(r@) =~= settings_pairs(self@));
        r
    }

    /// The prompt bounds that these settings set.
    pub fn prompt_options(&self) -> (r: PromptOptions)
        ensures
            r.context_window == self.llm_context_window,
            r.history_turns == self.history_window,
    {
        PromptOptions { context_window: self.llm_context_window, history_turns: self.history_window }
    }
}

/// Whether pairs `p` hold, under each settings key, first the value that
/// settings `s` are stored with.
pub open spec fn holds_settings(p: Seq<(Seq<char>, Seq<char>)>, s: SettingsView) -> bool {
    forall|k: int| 0 <= k < 7 ==> lookup(p, #[trigger] settings_pairs(s)[k].0) == Some(
        settings_pairs(s)[k].1,
    )
}

/// What is written is read back: settings stored as their pairs come back
/// unchanged from any pairs that hold those values under those keys,
/// whatever else they hold, and whatever the configuration says.
pub proof fn lemma_settings_read_back(p: Seq<(Seq<char>, Seq<char>)>, s: EngineSettings, c: Config)
    requires
        holds_settings(p, s@),
    ensures
        settings_from(p, c) == s@,
{
    let v = s@;
    let q = settings_pairs(v);
    assert(lookup(p, q[0].0) == Some(q[0].1));
    assert(lookup(p, q[1].0) == Some(q[1].1));
    assert(lookup(p, q[2].0) == Some(q[2].1));
    assert(lookup(p, q[3].0) == Some(q[3].1));
    assert(lookup(p, q[4].0) == Some(q[4].1));
    assert(lookup(p, q[5].0) == Some(q[5].1));
    assert(lookup(p, q[6].0) == Some(q[6].1));
    lemma_decimal_reads_back(v.llm_context_window);
    lemma_decimal_reads_back(v.search_max_results);
    lemma_decimal_reads_back(v.search_snippet_chars);
    lemma_decimal_reads_back(v.history_window);
}

/// The pairs that settings are stored with hold them: each key occurs once.
pub proof fn lemma_pairs_hold_settings(s: EngineSettings)
    ensures
        holds_settings(settings_pairs(s@), s@),
{
    reveal_strlit("llm_base_url");
    reveal_strlit("llm_model");
    reveal_strlit("llm_context_window");
    reveal_strlit("search_url");
    reveal_strlit("search_max_results");
    reveal_strlit("search_snippet_chars");
    reveal_strlit("history_window");
    let q = settings_pairs(s@);
    assert(q[0].0.len() == 12 && q[1].0.len() == 9 && q[2].0.len() == 18 && q[3].0.len() == 10);
    assert(q[4].0.len() == 18 && q[5].0.len() == 20 && q[6].0.len() == 14);
    assert(q[2].0[0] == 'l' && q[4].0[0] == 's');
    assert forall|i: int, j: int| 0 <= i < j < q.len() implies q[i].0 != q[j].0 by {
        if i == 2 && j == 4 {
            assert(q[i].0[0] != q[j].0[0]);
        } else {
            assert(q[i].0.len() != q[j].0.len());
        }
    }
    assert forall|k: int| 0 <= k < 7 implies lookup(q, #[trigger] q[k].0) == Some(q[k].1) by {
        lemma_lookup_distinct(q, k);
    }
}

proof fn lemma_lookup_distinct(q: Seq<(Seq<char>, Seq<char>)>, k: int)
    requires
        0 <= k < q.len(),
        forall|i: int, j: int| 0 <= i < j < q.len() ==> q[i].0 != q[j].0,
    ensures
        lookup(q, q[k].0) == Some(q[k].1),
    decreases k,
{
    if k > 0 {
        let r = q.drop_first();
        assert(r[k - 1] == q[k]);
        lemma_lookup_distinct(r, k - 1);
    }
}

/// Storing settings and reading them back gives the same settings.
pub proof fn lemma_settings_round_trip(s: EngineSettings, c: Config)
    ensures
        settings_from(settings_pairs(s@), c) == s@,
{
    lemma_pairs_hold_settings(s);
    lemma_settings_read_back(settings_pairs(s@), s, c);
}

} // verus!
