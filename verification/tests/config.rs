use platypus::captures::Captures;
use platypus::config::{
    duration, ConfigError, MergeRuleArgsConfig, MergeRuleConfig, PoolConfig, RouteConfig,
    RouteGroupConfig, ServerConfig, SourceConfig,
};
use platypus::source::merge::RuleArgs;
use platypus::source::Source;
use platypus::time::Duration;

fn text(s: &str) -> Option<String> {
    Some(s.to_string())
}

#[test]
fn spans_of_time_are_read() {
    assert_eq!(duration("5s").unwrap(), Duration::from_secs(5));
    assert_eq!(duration("250ms").unwrap(), Duration::from_millis(250));
    assert_eq!(duration("1h 30m").unwrap(), Duration::from_secs(5400));
    assert_eq!(duration("1hour 30min 15sec").unwrap(), Duration::from_secs(5415));
    assert_eq!(duration("1.5s").unwrap(), Duration::from_millis(1500));
    assert_eq!(duration("2s 5ns").unwrap(), Duration::new(2, 5));
    assert_eq!(duration("0s").unwrap(), Duration::from_secs(0));
    assert_eq!(duration("99999999999s").unwrap(), Duration::from_secs(99_999_999_999));
}

#[test]
fn what_is_no_span_of_time_is_refused() {
    for bad in ["", "abc", "5", "5 parsecs", "-5s", "s5"] {
        match duration(bad) {
            Err(ConfigError::InvalidDuration(t, reason)) => {
                assert_eq!(t, bad);
                assert!(!reason.is_empty());
            }
            other => panic!("expected a refusal of {:?}, got {:?}", bad, other),
        }
    }
    match duration("5 parsecs") {
        Err(e) => assert!(e.to_string().starts_with("unknown time unit \"parsecs\"")),
        Ok(d) => panic!("expected a refusal, got {:?}", d),
    }
    match duration("100000000000s") {
        Err(e) => assert_eq!(e.to_string(), "number is too large"),
        Ok(d) => panic!("expected a refusal, got {:?}", d),
    }
    assert!(duration("18446744073709551615s 1000000000ns").is_err());
}

#[test]
fn echo_and_file_sources_are_made() {
    let pools = vec![];
    match (SourceConfig::Echo { template: "hi {k}".to_string() }).to_source(&pools).unwrap() {
        Source::Echo(e) => {
            assert_eq!(e.template(), "hi {k}");
            assert_eq!(e.ttl(), Duration::from_secs(5));
            assert_eq!(e.expiry(), Duration::from_secs(30));
        }
        other => panic!("expected an echo, got {:?}", other),
    }
    let file = SourceConfig::File { path: "/data/{k}".to_string(), ttl: text("2s"), expiry: None };
    match file.to_source(&pools).unwrap() {
        Source::File(f) => {
            assert_eq!(f.path_template, "/data/{k}");
            assert_eq!(f.ttl(), Duration::from_secs(2));
            assert_eq!(f.expiry(), Duration::from_secs(30));
        }
        other => panic!("expected a file, got {:?}", other),
    }
    let bad = SourceConfig::File { path: "p".to_string(), ttl: text("soon"), expiry: text("later") };
    match bad.to_source(&pools) {
        Err(ConfigError::InvalidDuration(t, _)) => assert_eq!(t, "soon"),
        other => panic!("expected a refusal, got {:?}", other),
    }
}

#[test]
fn http_sources_are_made() {
    let pools = vec![];
    let mut headers = Captures::new();
    headers.insert("Accept".to_string(), "text/plain".to_string());
    let config = SourceConfig::Http {
        url: "http://host/{k}".to_string(),
        method: text("POST"),
        query: None,
        headers: Some(headers),
        ttl: text("1m"),
        expiry: text("1h"),
    };
    match config.to_source(&pools).unwrap() {
        Source::Http(h) => {
            assert_eq!(h.url_template, "http://host/{k}");
            assert_eq!(h.method, "POST");
            assert_eq!(h.headers.get("Accept"), Some(&"text/plain".to_string()));
            assert_eq!(h.timeout, Duration::from_secs(30));
            assert_eq!(h.ttl(), Duration::from_secs(60));
            assert_eq!(h.expiry(), Duration::from_secs(3600));
        }
        other => panic!("expected an http source, got {:?}", other),
    }
    let plain = SourceConfig::Http {
        url: "http://host/".to_string(),
        method: None,
        query: None,
        headers: None,
        ttl: None,
        expiry: None,
    };
    match plain.to_source(&pools).unwrap() {
        Source::Http(h) => {
            assert_eq!(h.method, "GET");
            assert!(h.headers.is_empty());
        }
        other => panic!("expected an http source, got {:?}", other),
    }
    for method in ["", "GE T", "GET\r\n", "m\u{e9}thode", "a/b", "(x)"] {
        let bad = SourceConfig::Http {
            url: "http://host/".to_string(),
            method: text(method),
            query: None,
            headers: None,
            ttl: text("never"),
            expiry: None,
        };
        match bad.to_source(&pools) {
            Err(e) => assert_eq!(e.to_string(), format!("Invalid HTTP method: {}", method)),
            Ok(s) => panic!("expected a refusal of {:?}, got {:?}", method, s),
        }
    }
    for method in ["get", "PURGE", "M-SEARCH", "a!#$%&'*+-.^_`|~9", "AVERYLONGMETHODNAMEOFMANYLETTERS"] {
        let good = SourceConfig::Http {
            url: "http://host/".to_string(),
            method: text(method),
            query: None,
            headers: None,
            ttl: None,
            expiry: None,
        };
        match good.to_source(&pools).unwrap() {
            Source::Http(h) => assert_eq!(h.method, method),
            other => panic!("expected an http source, got {:?}", other),
        }
    }
}

#[test]
fn secret_sources_need_their_pool() {
    let pools = vec!["main".to_string(), "other".to_string()];
    let config = |pool: Option<String>, ttl: Option<String>| SourceConfig::AwsSecretsManager {
        secret_id: "prod/{k}".to_string(),
        pool,
        ttl,
        expiry: text("10m"),
    };
    match config(text("other"), None).to_source(&pools).unwrap() {
        Source::AwsSecretsManager(a) => {
            assert_eq!(a.secret_id_template, "prod/{k}");
            assert_eq!(a.pool, text("other"));
            assert_eq!(a.ttl(), Duration::from_secs(5));
            assert_eq!(a.expiry(), Duration::from_secs(600));
        }
        other => panic!("expected a secret source, got {:?}", other),
    }
    match config(None, text("1s")).to_source(&vec![]).unwrap() {
        Source::AwsSecretsManager(a) => {
            assert_eq!(a.pool, None);
            assert_eq!(a.ttl(), Duration::from_secs(1));
        }
        other => panic!("expected a secret source, got {:?}", other),
    }
    match config(text("missing"), text("bad")).to_source(&pools) {
        Err(e) => {
            assert!(matches!(e, ConfigError::PoolNotFound(ref n) if n == "missing"));
            assert_eq!(e.to_string(), "Pool 'missing' not found");
        }
        Ok(s) => panic!("expected a refusal, got {:?}", s),
    }
    assert!(matches!(
        config(text("main"), text("bad")).to_source(&pools),
        Err(ConfigError::InvalidDuration(_, _))
    ));
}

#[test]
fn merge_sources_keep_their_rules() {
    let mut args = Captures::new();
    args.insert("id".to_string(), "{k}".to_string());
    let config = SourceConfig::Merge {
        format: "json".to_string(),
        template: vec![
            MergeRuleConfig {
                key: vec!["a".to_string(), "b".to_string()],
                source: "one".to_string(),
                args: MergeRuleArgsConfig::Inherit,
            },
            MergeRuleConfig {
                key: vec!["c".to_string()],
                source: "two".to_string(),
                args: MergeRuleArgsConfig::Replace { args },
            },
        ],
        ttl: None,
        expiry: text("45s"),
    };
    match config.to_source(&vec![]).unwrap() {
        Source::Merge(m) => {
            assert_eq!(m.format, "json");
            assert_eq!(m.rules.len(), 2);
            assert_eq!(m.rules[0].key, vec!["a".to_string(), "b".to_string()]);
            assert_eq!(m.rules[0].source, "one");
            assert!(matches!(m.rules[0].args, RuleArgs::Inherit));
            assert_eq!(m.rules[1].key, vec!["c".to_string()]);
            assert_eq!(m.rules[1].source, "two");
            match &m.rules[1].args {
                RuleArgs::Replace { args } => {
                    assert_eq!(args.len(), 1);
                    assert_eq!(args.get("id"), Some(&"{k}".to_string()));
                }
                other => panic!("expected replaced arguments, got {:?}", other),
            }
            assert_eq!(m.ttl(), Duration::from_secs(5));
            assert_eq!(m.expiry(), Duration::from_secs(45));
        }
        other => panic!("expected a merge, got {:?}", other),
    }
    assert!(matches!(MergeRuleArgsConfig::Inherit.to_rule_args(), RuleArgs::Inherit));
}

#[test]
fn pools_are_built_as_configured() {
    let all = PoolConfig::AwsSecretsManager {
        min_idle: Some(1),
        max_size: Some(8),
        profile: text("dev"),
        region: text("eu-west-1"),
    };
    let b = all.builder();
    assert_eq!(b.max_size, 8);
    assert_eq!(b.min_idle, Some(1));
    assert_eq!(b.profile, text("dev"));
    assert_eq!(b.region, text("eu-west-1"));
    let none =
        PoolConfig::AwsSecretsManager { min_idle: None, max_size: None, profile: None, region: None };
    let b = none.builder();
    assert_eq!(b.max_size, 2);
    assert_eq!(b.min_idle, Some(0));
    assert_eq!(b.profile, None);
    assert_eq!(b.region, None);
    let config = ServerConfig {
        routes: vec![],
        source_configs: vec![],
        pool_configs: vec![("p".to_string(), all), ("q".to_string(), none)],
    };
    let builders = config.pool_builders();
    assert_eq!(builders.len(), 2);
    assert_eq!(builders[0].0, "p");
    assert_eq!(builders[0].1.max_size, 8);
    assert_eq!(builders[1].0, "q");
    assert_eq!(builders[1].1.max_size, 2);
}

fn route(pattern: &str, source: &str) -> RouteConfig {
    RouteConfig { pattern: pattern.to_string(), source: source.to_string() }
}

#[test]
fn routers_keep_the_order_of_the_routes() {
    let config = ServerConfig {
        routes: vec![
            ("first".to_string(), RouteGroupConfig { routes: vec![route("^a/(?<k>.+)$", "one")] }),
            ("empty".to_string(), RouteGroupConfig { routes: vec![] }),
            (
                "second".to_string(),
                RouteGroupConfig { routes: vec![route("^a/b$", "two"), route("^(?<k>.*)$", "three")] },
            ),
        ],
        source_configs: vec![],
        pool_configs: vec![],
    };
    let router = config.to_router().unwrap();
    assert_eq!(router.len(), 3);
    let (request, rule) = router.rule("a/b").unwrap();
    assert_eq!(rule.source(), "one");
    assert_eq!(request.get("k"), Some("b"));
    assert_eq!(router.rule("zzz").unwrap().1.source(), "three");
    assert_eq!(ServerConfig::default().to_router().unwrap().len(), 0);
}

#[test]
fn routers_refuse_the_first_bad_pattern() {
    let config = ServerConfig {
        routes: vec![
            ("first".to_string(), RouteGroupConfig { routes: vec![route("^a$", "one")] }),
            (
                "second".to_string(),
                RouteGroupConfig { routes: vec![route("(", "two"), route("[", "three")] },
            ),
        ],
        source_configs: vec![],
        pool_configs: vec![],
    };
    match config.to_router() {
        Err(ConfigError::InvalidPattern(pattern, reason)) => {
            assert_eq!(pattern, "(");
            assert!(!reason.is_empty());
        }
        other => panic!("expected a refusal, got {:?}", other),
    }
}

#[test]
fn sources_are_named() {
    let config = ServerConfig {
        routes: vec![],
        source_configs: vec![
            ("e".to_string(), SourceConfig::Echo { template: "first".to_string() }),
            ("f".to_string(), SourceConfig::File { path: "/p".to_string(), ttl: None, expiry: None }),
            ("e".to_string(), SourceConfig::Echo { template: "second".to_string() }),
        ],
        pool_configs: vec![],
    };
    let sources = config.to_sources(&vec![]).unwrap();
    match sources.get("e") {
        Some(Source::Echo(e)) => assert_eq!(e.template(), "second"),
        other => panic!("expected an echo, got {:?}", other),
    }
    assert!(matches!(sources.get("f"), Some(Source::File(_))));
    assert!(sources.get("g").is_none());
    let bad = ServerConfig {
        routes: vec![],
        source_configs: vec![
            ("e".to_string(), SourceConfig::Echo { template: "first".to_string() }),
            (
                "s".to_string(),
                SourceConfig::AwsSecretsManager {
                    secret_id: "id".to_string(),
                    pool: text("nowhere"),
                    ttl: None,
                    expiry: None,
                },
            ),
            (
                "f".to_string(),
                SourceConfig::File { path: "/p".to_string(), ttl: text("x"), expiry: None },
            ),
        ],
        pool_configs: vec![],
    };
    match bad.to_sources(&vec!["somewhere".to_string()]) {
        Err(e) => assert_eq!(e.to_string(), "Pool 'nowhere' not found"),
        Ok(s) => panic!("expected a refusal, got {:?}", s),
    }
}
