use perf_analyzer::config::{
    BaseConfig, ConfigError, Experiment, ParamEntry, ParamValue, RootConfig,
};
use perf_analyzer::config::array_of_opt_to_opt_array;
use perf_analyzer::trial::expand;

fn s(text: &str) -> String {
    text.to_string()
}

fn pair(k: &str, v: &str) -> (String, String) {
    (s(k), s(v))
}

fn bare_experiment(url: Option<&str>) -> Experiment {
    Experiment {
        url: url.map(|u| s(u)),
        headers: None,
        query: None,
        params: None,
        samples: None,
        warmup: None,
    }
}

#[test]
fn test_expand_demo_config() {
    // One experiment with query {a: [1,2], b: [3,4]} expands to four trials.
    let mut exp = bare_experiment(Some("http://x"));
    exp.query = Some(vec![
        (
            s("a"),
            ParamValue::List(vec![ParamEntry::Integer(1), ParamEntry::Integer(2)]),
        ),
        (
            s("b"),
            ParamValue::List(vec![ParamEntry::Integer(3), ParamEntry::Integer(4)]),
        ),
    ]);
    let config = RootConfig {
        experiments: vec![(s("demo"), exp)],
        config: None,
    };
    let trials = expand(config).unwrap();
    assert_eq!(trials.len(), 4);
    let bindings: Vec<_> = trials.iter().map(|t| t.query.clone()).collect();
    assert_eq!(
        bindings,
        vec![
            vec![pair("a", "1"), pair("b", "3")],
            vec![pair("a", "1"), pair("b", "4")],
            vec![pair("a", "2"), pair("b", "3")],
            vec![pair("a", "2"), pair("b", "4")],
        ]
    );
    for t in &trials {
        assert_eq!(t.name, "demo");
        assert_eq!(t.url, "http://x");
        assert_eq!(t.headers, vec![]);
        assert_eq!(t.params, Vec::<(String, String)>::new());
        assert_eq!(t.samples, 25);
        assert_eq!(t.warmup, 10);
    }
}

#[test]
fn test_expand_without_parameters_runs_once() {
    let config = RootConfig {
        experiments: vec![(s("solo"), bare_experiment(Some("http://x")))],
        config: None,
    };
    let trials = expand(config).unwrap();
    assert_eq!(trials.len(), 1);
    assert_eq!(trials[0].query, Vec::<(String, String)>::new());
    assert_eq!(trials[0].params, Vec::<(String, String)>::new());
}

#[test]
fn test_expand_empty_value_list_gives_no_trials() {
    let mut exp = bare_experiment(Some("http://x"));
    exp.query = Some(vec![(s("a"), ParamValue::List(vec![]))]);
    let config = RootConfig {
        experiments: vec![(s("none"), exp)],
        config: None,
    };
    assert_eq!(expand(config).unwrap().len(), 0);
}

#[test]
fn test_expand_query_and_params_compose() {
    let mut exp = bare_experiment(Some("http://x"));
    exp.query = Some(vec![(
        s("q"),
        ParamValue::List(vec![ParamEntry::Integer(1), ParamEntry::Integer(2)]),
    )]);
    exp.params = Some(vec![(
        s("p"),
        ParamValue::List(vec![ParamEntry::Integer(7), ParamEntry::Integer(8)]),
    )]);
    let config = RootConfig {
        experiments: vec![(s("both"), exp)],
        config: None,
    };
    let trials = expand(config).unwrap();
    assert_eq!(trials.len(), 4);
    assert_eq!(trials[0].query, vec![pair("q", "1")]);
    assert_eq!(trials[0].params, vec![pair("p", "7")]);
    assert_eq!(trials[1].query, vec![pair("q", "1")]);
    assert_eq!(trials[1].params, vec![pair("p", "8")]);
    assert_eq!(trials[2].query, vec![pair("q", "2")]);
    assert_eq!(trials[2].params, vec![pair("p", "7")]);
    assert_eq!(trials[3].query, vec![pair("q", "2")]);
    assert_eq!(trials[3].params, vec![pair("p", "8")]);
}

#[test]
fn test_expand_missing_url_fails() {
    let config = RootConfig {
        experiments: vec![(s("nourl"), bare_experiment(None))],
        config: None,
    };
    assert_eq!(expand(config), Err(ConfigError::MissingUrl(s("nourl"))));
}

#[test]
fn test_expand_invalid_url_fails() {
    let config = RootConfig {
        experiments: vec![(s("bad"), bare_experiment(Some("no scheme at all")))],
        config: None,
    };
    assert_eq!(
        expand(config),
        Err(ConfigError::InvalidUrl(s("no scheme at all")))
    );
}

#[test]
fn test_expand_base_config_fallbacks() {
    let mut exp = bare_experiment(None);
    exp.headers = Some(vec![pair("X-Own", "1")]);
    let config = RootConfig {
        experiments: vec![(s("inherits"), exp)],
        config: Some(BaseConfig {
            url: Some(s("http://base")),
            headers: Some(vec![pair("Auth", "Bearer foo")]),
            warmup: Some(3),
        }),
    };
    let trials = expand(config).unwrap();
    assert_eq!(trials.len(), 1);
    assert_eq!(trials[0].url, "http://base");
    // Experiment headers first, shared headers after them.
    assert_eq!(
        trials[0].headers,
        vec![pair("X-Own", "1"), pair("Auth", "Bearer foo")]
    );
    assert_eq!(trials[0].samples, 25);
    assert_eq!(trials[0].warmup, 3);
}

#[test]
fn test_expand_own_settings_win() {
    let mut exp = bare_experiment(Some("http://own"));
    exp.samples = Some(55);
    exp.warmup = Some(7);
    let config = RootConfig {
        experiments: vec![(s("own"), exp)],
        config: Some(BaseConfig {
            url: Some(s("http://base")),
            headers: None,
            warmup: Some(3),
        }),
    };
    let trials = expand(config).unwrap();
    assert_eq!(trials[0].url, "http://own");
    assert_eq!(trials[0].samples, 55);
    assert_eq!(trials[0].warmup, 7);
}

#[test]
fn test_expand_reports_first_failing_experiment() {
    let config = RootConfig {
        experiments: vec![
            (s("ok"), bare_experiment(Some("http://x"))),
            (s("broken"), bare_experiment(None)),
            (s("also-broken"), bare_experiment(None)),
        ],
        config: None,
    };
    assert_eq!(expand(config), Err(ConfigError::MissingUrl(s("broken"))));
}

#[test]
fn test_collapse_optional_lists() {
    assert_eq!(
        array_of_opt_to_opt_array(vec![Some(1), Some(2), Some(3)]),
        Some(vec![1, 2, 3])
    );
    assert_eq!(array_of_opt_to_opt_array(vec![Some(1), None, Some(3)]), None);
    assert_eq!(array_of_opt_to_opt_array(Vec::<Option<u8>>::new()), Some(vec![]));
}
