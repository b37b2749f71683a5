use fortytwo::config::{
    default_bind, default_database_path, AdminSeed, Config, DatabaseConfig, EngineSettings,
    LlmConfig, SearchConfig, ServerConfig,
};
use fortytwo::text::parse_usize;

fn config() -> Config {
    Config {
        server: ServerConfig { bind: default_bind() },
        llm: LlmConfig {
            base_url: "http://llm/v1".into(),
            model: "m".into(),
            context_window: 32768,
        },
        search: SearchConfig {
            base_url: "http://searx".into(),
            max_sources: 8,
            snippet_chars: 500,
        },
        database: DatabaseConfig {
            path: default_database_path(),
            history_turns: 10,
        },
        admin: Some(AdminSeed {
            username: "admin".into(),
            password_hash: "h".into(),
        }),
    }
}

fn pair(k: &str, v: &str) -> (String, String) {
    (k.to_string(), v.to_string())
}

#[test]
fn documented_config_defaults() {
    assert_eq!(default_bind(), "127.0.0.1:4242");
    assert_eq!(default_database_path(), "42.sqlite");
}

#[test]
fn nothing_stored_gives_the_configuration() {
    let s = EngineSettings::from_map(&[], &config());
    assert_eq!(s.llm_base_url, "http://llm/v1");
    assert_eq!(s.llm_model, "m");
    assert_eq!(s.llm_context_window, 32768);
    assert_eq!(s.search_url, "http://searx");
    assert_eq!(s.search_max_results, 8);
    assert_eq!(s.search_snippet_chars, 500);
    assert_eq!(s.history_window, 10);
}

#[test]
fn stored_values_override_the_configuration() {
    let pairs = vec![
        pair("llm_model", "big"),
        pair("history_window", "3"),
        pair("search_max_results", "+5"),
        pair("unrelated", "x"),
    ];
    let s = EngineSettings::from_map(&pairs, &config());
    assert_eq!(s.llm_model, "big");
    assert_eq!(s.history_window, 3);
    assert_eq!(s.search_max_results, 5);
    assert_eq!(s.llm_base_url, "http://llm/v1");
    assert_eq!(s.llm_context_window, 32768);
}

#[test]
fn unreadable_numbers_fall_back_to_the_configuration() {
    let pairs = vec![
        pair("llm_context_window", "lots"),
        pair("search_snippet_chars", ""),
        pair("history_window", "-1"),
        pair("search_max_results", "99999999999999999999999"),
    ];
    let s = EngineSettings::from_map(&pairs, &config());
    assert_eq!(s.llm_context_window, 32768);
    assert_eq!(s.search_snippet_chars, 500);
    assert_eq!(s.history_window, 10);
    assert_eq!(s.search_max_results, 8);
}

#[test]
fn first_stored_pair_wins() {
    let pairs = vec![pair("llm_model", "a"), pair("llm_model", "b")];
    assert_eq!(EngineSettings::from_map(&pairs, &config()).llm_model, "a");
}

#[test]
fn settings_are_stored_as_decimal_pairs() {
    let s = EngineSettings {
        llm_base_url: "u".into(),
        llm_model: "m".into(),
        llm_context_window: 4096,
        search_url: "s".into(),
        search_max_results: 0,
        search_snippet_chars: 120,
        history_window: 7,
    };
    assert_eq!(
        s.to_pairs(),
        vec![
            pair("llm_base_url", "u"),
            pair("llm_model", "m"),
            pair("llm_context_window", "4096"),
            pair("search_url", "s"),
            pair("search_max_results", "0"),
            pair("search_snippet_chars", "120"),
            pair("history_window", "7"),
        ]
    );
}

#[test]
fn stored_settings_read_back() {
    let s = EngineSettings {
        llm_base_url: "http://other/v1".into(),
        llm_model: "".into(),
        llm_context_window: usize::MAX,
        search_url: "http://s2".into(),
        search_max_results: 3,
        search_snippet_chars: 0,
        history_window: 12,
    };
    let mut pairs = vec![pair("extra", "1")];
    pairs.extend(s.to_pairs());
    let r = EngineSettings::from_map(&pairs, &config());
    assert_eq!(r.llm_base_url, s.llm_base_url);
    assert_eq!(r.llm_model, s.llm_model);
    assert_eq!(r.llm_context_window, s.llm_context_window);
    assert_eq!(r.search_url, s.search_url);
    assert_eq!(r.search_max_results, s.search_max_results);
    assert_eq!(r.search_snippet_chars, s.search_snippet_chars);
    assert_eq!(r.history_window, s.history_window);
    let o = r.prompt_options();
    assert_eq!(o.context_window, usize::MAX);
    assert_eq!(o.history_turns, 12);
}

#[test]
fn numbers_read_as_usize_parse_does() {
    for t in ["0", "7", "+7", "0042", "18446744073709551615", "", "+", "-1", " 1", "1 ", "1a", "18446744073709551616"] {
        assert_eq!(parse_usize(t), t.parse::<usize>().ok(), "{t:?}");
    }
}
