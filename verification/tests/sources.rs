use platypus::captures::Captures;
use platypus::request::Request;
use platypus::router::{Router, Rule};
use platypus::source::aws_secrets_manager::Secret;
use platypus::source::merge::{Answer, RuleArgs};
use platypus::source::{
    source, AwsSecretsManager, Echo, Fetch, Fetched, File, FnGetter, Http, Merge, Source, Sources,
};
use platypus::time::{Duration, Instant};
use std::sync::Arc;

fn captures(pairs: &[(&str, &str)]) -> Captures {
    let mut c = Captures::new();
    for (k, v) in pairs {
        c.insert(k.to_string(), v.to_string());
    }
    c
}

fn now() -> Instant {
    Instant::from_nanos(1_000)
}

fn answers(merge: &Merge, values: &[Option<&str>]) -> Vec<Answer> {
    merge
        .rules
        .iter()
        .zip(values.iter())
        .map(|(rule, value)| Answer { key: rule.key.clone(), value: value.map(|v| v.to_string()) })
        .collect()
}

fn json(text: &str) -> serde_json::Value {
    serde_json::from_str(text).unwrap()
}

#[test]
fn test_match_regex_no_match() {
    let request = Request::match_regex(r"^(?<instance>[^/]+)/both$", "abc/i_dont_match");
    assert!(request.is_none());
}

#[test]
fn test_match_regex_match() {
    let request = Request::match_regex(r"^(?<instance>[^/]+)/both$", "abc/both");
    assert!(request.is_some());
    let request = request.unwrap();
    assert_eq!(request.key(), "abc/both");
    assert_eq!(request.get("instance"), Some("abc"));
}

#[test]
fn match_regex_captures_named_groups_and_the_key() {
    let request =
        Request::match_regex(r"^(?<a>[a-z]+)-(\d+)-(?<b>x)?(?<c>.*)$", "abc-12-rest").unwrap();
    assert_eq!(request.get("a"), Some("abc"));
    assert_eq!(request.get("b"), None);
    assert_eq!(request.get("c"), Some("rest"));
    assert_eq!(request.get("$key"), Some("abc-12-rest"));
    assert_eq!(request.captures().len(), 3);
    assert!(request.sources().is_none());
    assert!(Request::match_regex(r"(unclosed", "x").is_none());
}

#[test]
fn requests_always_capture_their_key() {
    let request = Request::new("k");
    assert_eq!(request.key(), "k");
    assert_eq!(request.get("$key"), Some("k"));
    let replaced = request.with_captures(captures(&[("a", "1"), ("$key", "other")]));
    assert_eq!(replaced.get("a"), Some("1"));
    assert_eq!(replaced.get("$key"), Some("k"));
    let copy = replaced.clone();
    assert_eq!(copy.get("a"), Some("1"));
    assert_eq!(copy.key(), "k");
}

#[test]
fn rules_take_only_patterns_that_compile() {
    assert!(Rule::new(r"^a/(?<k>.+)$", "a").is_ok());
    assert!(Rule::new(r"(unclosed", "a").is_err());
    let rule = Rule::new(r"^a/(?<k>.+)$", "src").unwrap();
    assert_eq!(rule.source(), "src");
    assert_eq!(rule.match_key("a/b").unwrap().get("k"), Some("b"));
    assert!(rule.match_key("b/a").is_none());
    assert!(Router::new().try_route(r"(unclosed", "a").is_err());
}

#[test]
fn router_returns_the_first_rule_that_matches() {
    let router = Router::new()
        .route(r"^never$", "zero")
        .route(r"^a/(?<k>.+)$", "one")
        .route(r"^a/b$", "two")
        .route(r"^(?<all>.*)$", "three");
    assert_eq!(router.len(), 4);
    let (request, rule) = router.rule("a/b").unwrap();
    assert_eq!(rule.source(), "one");
    assert_eq!(request.get("k"), Some("b"));
    let (request, rule) = router.rule("c").unwrap();
    assert_eq!(rule.source(), "three");
    assert_eq!(request.get("all"), Some("c"));
    assert_eq!(router.rule("never").unwrap().1.source(), "zero");
    let narrow = Router::new().route(r"^x$", "x");
    assert!(narrow.rule("y").is_none());
    assert!(Router::new().rule("y").is_none());
}

#[test]
fn echo_fills_its_template() {
    let echo = Echo::new()
        .with_template("echo1 = {k}")
        .with_ttl(Duration::from_secs(5))
        .with_expiry(Duration::from_secs(30));
    assert_eq!(echo.template(), "echo1 = {k}");
    let request = Request::match_regex(r"^echo1/(?<k>.+)$", "echo1/abc").unwrap();
    let response = echo.call(&request, now());
    assert_eq!(response.value(), Some("echo1 = abc".to_string()));
    assert_eq!(response.ttl(), Duration::from_secs(5));
    assert_eq!(response.expiry(), Duration::from_secs(30));
    assert_eq!(response.updated_at(), now());
    assert_eq!(Echo::new().ttl(), Duration::from_secs(5));
    assert_eq!(Echo::new().expiry(), Duration::from_secs(30));
}

#[test]
fn test_file_new() {
    let file = File::new("/data/{key}.txt");
    assert_eq!(file.path_template, "/data/{key}.txt");
}

#[test]
fn test_file_with_ttl_and_expiry() {
    let ttl = Duration::from_secs(60);
    let expiry = Duration::from_secs(300);

    let file = File::new("/data/{key}.txt").with_ttl(ttl).with_expiry(expiry);

    assert_eq!(file.ttl(), ttl);
    assert_eq!(file.expiry(), expiry);
}

#[test]
fn test_build_path_simple() {
    let file = File::new("/data/{$key}.txt");
    let request = Request::new("test_file");

    let path = file.build_path(&request);
    assert_eq!(path, "/data/test_file.txt");
}

#[test]
fn test_build_path_with_captures() {
    let file = File::new("/data/{environment}/{service}/{key}.json");
    let request = Request::match_regex(
        r"^(?<environment>[^/]+)/(?<service>[^/]+)/(?<key>.+)$",
        "prod/api/config",
    )
    .unwrap();

    let path = file.build_path(&request);
    assert_eq!(path, "/data/prod/api/config.json");
}

#[test]
fn test_build_path_missing_capture() {
    let file = File::new("/data/{environment}/{$key}.txt");
    let request = Request::new("simple_key");

    let path = file.build_path(&request);
    assert_eq!(path, "/data//simple_key.txt");
}

#[test]
fn file_test_deref_behavior() {
    let file = File::new("/data/{key}.txt")
        .with_ttl(Duration::from_secs(120))
        .with_expiry(Duration::from_secs(600));

    assert_eq!(file.ttl(), Duration::from_secs(120));
    assert_eq!(file.expiry(), Duration::from_secs(600));
}

#[test]
fn file_answers_with_what_was_read() {
    let file = File::new("/x").with_ttl(Duration::from_secs(60)).with_expiry(Duration::from_secs(300));
    let read = file.respond(Some("test content".to_string()), now());
    assert_eq!(read.value(), Some("test content".to_string()));
    assert_eq!(read.ttl(), Duration::from_secs(60));
    assert_eq!(read.expiry(), Duration::from_secs(300));
    let missing = file.respond(None, now());
    assert_eq!(missing.value(), None);
    assert_eq!(missing.ttl(), Duration::from_secs(60));
    assert_eq!(missing.expiry(), Duration::from_secs(300));
}

#[test]
fn test_http_new() {
    let http = Http::new("https://api.example.com/data/{key}");
    assert_eq!(http.url_template, "https://api.example.com/data/{key}");
    assert_eq!(http.method, "GET");
    assert!(http.headers.is_empty());
    assert_eq!(http.timeout, Duration::from_secs(30));
}

#[test]
fn test_http_with_timeout() {
    let timeout = Duration::from_secs(10);
    let http = Http::new("https://api.example.com/data/{key}").with_timeout(timeout);
    assert_eq!(http.timeout, timeout);
}

#[test]
fn test_http_with_headers() {
    let headers = captures(&[
        ("Authorization", "Bearer token123"),
        ("Content-Type", "application/json"),
    ]);

    let http = Http::new("https://api.example.com/data/{key}").with_headers(headers.clone());
    assert_eq!(http.headers.len(), 2);
    assert_eq!(http.headers.get("Authorization"), Some(&"Bearer token123".to_string()));
    assert_eq!(http.headers.get("Content-Type"), Some(&"application/json".to_string()));
}

#[test]
fn test_http_with_method() {
    let http = Http::new("https://api.example.com/data/{key}").with_method("POST");
    assert_eq!(http.method, "POST");
}

#[test]
fn test_http_with_ttl_and_expiry() {
    let ttl = Duration::from_secs(60);
    let expiry = Duration::from_secs(300);

    let http = Http::new("https://api.example.com/data/{key}").with_ttl(ttl).with_expiry(expiry);

    assert_eq!(http.ttl(), ttl);
    assert_eq!(http.expiry(), expiry);
}

#[test]
fn test_build_url_with_captures() {
    let http = Http::new("https://api.example.com/{instance}/metrics/{metric}");
    let request =
        Request::match_regex(r"^(?<instance>[^/]+)/(?<metric>.+)$", "server1/cpu_usage").unwrap();

    let url = http.build_url(&request).unwrap();
    assert_eq!(url.as_str(), "https://api.example.com/server1/metrics/cpu_usage");
}

#[test]
fn test_build_url_missing_capture() {
    let http = Http::new("https://api.example.com/{instance}/data/{key}");
    let request = Request::new("simple_key");

    let url = http.build_url(&request).unwrap();
    assert_eq!(url.as_str(), "https://api.example.com//data/");
}

#[test]
fn test_build_url_invalid_template() {
    let http = Http::new("not_a_valid_url/{key}");
    let request = Request::new("test");

    let result = http.build_url(&request);
    assert!(result.is_none());
}

#[test]
fn http_test_deref_behavior() {
    let http = Http::new("https://api.example.com/{key}")
        .with_ttl(Duration::from_secs(120))
        .with_expiry(Duration::from_secs(600));

    assert_eq!(http.ttl(), Duration::from_secs(120));
    assert_eq!(http.expiry(), Duration::from_secs(600));
}

#[test]
fn http_plans_its_request_or_answers_empty() {
    let http = Http::new("HTTP://Example.com/{$key}")
        .with_method("PUT")
        .with_headers(captures(&[("a", "b")]))
        .with_timeout(Duration::from_secs(3));
    let call = http.call_for(&Request::new("k")).unwrap();
    assert_eq!(call.url, "http://example.com/k");
    assert_eq!(call.method, "PUT");
    assert_eq!(call.headers.get("a"), Some(&"b".to_string()));
    assert_eq!(call.timeout, Duration::from_secs(3));
    match Source::Http(Http::new("nothing/{$key}")).plan(&Request::new("k"), now()) {
        Fetch::Ready(response) => assert_eq!(response.value(), None),
        other => panic!("expected an answer, got {:?}", other),
    }
    assert_eq!(http.respond(Some("body".to_string()), now()).value(), Some("body".to_string()));
    assert_eq!(http.respond(None, now()).value(), None);
}

#[test]
fn secrets_are_text_or_base64() {
    let source = AwsSecretsManager::new()
        .with_secret_id("myapp/{environment}/{$key}")
        .with_pool("main")
        .with_ttl(Duration::from_secs(120))
        .with_expiry(Duration::from_secs(600));
    assert_eq!(source.secret_id_template, "myapp/{environment}/{$key}");
    assert_eq!(source.pool, Some("main".to_string()));
    assert_eq!(source.ttl(), Duration::from_secs(120));
    assert_eq!(source.expiry(), Duration::from_secs(600));
    assert_eq!(source.build_secret_id(&Request::new("simple_key")), "myapp//simple_key");
    let request = Request::match_regex(
        r"^(?<environment>[^/]+)/(?<service>[^/]+)/(?<key>.+)$",
        "prod/api/database_password",
    )
    .unwrap();
    let by_captures = AwsSecretsManager::new().with_secret_id("myapp/{environment}/{service}/{key}");
    assert_eq!(by_captures.build_secret_id(&request), "myapp/prod/api/database_password");
    assert_eq!(
        source.respond(Secret::Text("s3cret".to_string()), now()).value(),
        Some("s3cret".to_string())
    );
    assert_eq!(
        source.respond(Secret::Binary(b"hello world~".to_vec()), now()).value(),
        Some("aGVsbG8gd29ybGR+".to_string())
    );
    assert_eq!(
        source.respond(Secret::Binary(vec![0xfb, 0xff]), now()).value(),
        Some("+/8=".to_string())
    );
    assert_eq!(source.respond(Secret::Empty, now()).value(), None);
    assert_eq!(source.respond(Secret::Failed, now()).value(), None);
    match Source::AwsSecretsManager(source).plan(&Request::new("k"), now()) {
        Fetch::Secret { secret_id, pool } => {
            assert_eq!(secret_id, "myapp//k");
            assert_eq!(pool, Some("main".to_string()));
        }
        other => panic!("expected a secret to fetch, got {:?}", other),
    }
}

#[test]
fn test_merge_new() {
    let merge = Merge::new();
    assert_eq!(merge.format, "json");
    assert!(merge.rules.is_empty());
    assert_eq!(merge.ttl(), Duration::from_secs(5));
    assert_eq!(merge.expiry(), Duration::from_secs(30));
}

#[test]
fn test_merge_with_format() {
    let merge = Merge::new().with_format("xml");
    assert_eq!(merge.format, "xml");
}

#[test]
fn test_merge_with_rule() {
    let merge =
        Merge::new().with_rule(vec!["test".to_string()], "source1".to_string(), RuleArgs::Inherit);

    assert_eq!(merge.rules.len(), 1);
    assert_eq!(merge.rules[0].key, vec!["test".to_string()]);
    assert_eq!(merge.rules[0].source, "source1");
    assert!(matches!(merge.rules[0].args, RuleArgs::Inherit));
}

#[test]
fn test_merge_with_ttl_and_expiry() {
    let ttl = Duration::from_secs(60);
    let expiry = Duration::from_secs(300);

    let merge = Merge::new().with_ttl(ttl).with_expiry(expiry);

    assert_eq!(merge.ttl(), ttl);
    assert_eq!(merge.expiry(), expiry);
}

#[test]
fn merge_test_deref_behavior() {
    let merge = Merge::new()
        .with_ttl(Duration::from_secs(120))
        .with_expiry(Duration::from_secs(600));

    assert_eq!(merge.ttl(), Duration::from_secs(120));
    assert_eq!(merge.expiry(), Duration::from_secs(600));
}

fn merged(paths: &[&[&str]], values: &[Option<&str>]) -> Option<String> {
    let mut merge = Merge::new();
    for path in paths {
        merge = merge.with_rule(
            path.iter().map(|s| s.to_string()).collect(),
            "any".to_string(),
            RuleArgs::Inherit,
        );
    }
    let given = answers(&merge, values);
    merge.respond(true, &given, now()).value()
}

#[test]
fn test_set_nested_value_single_key() {
    let out = merged(&[&["test"]], &[Some("value")]).unwrap();
    assert_eq!(json(&out), json(r#"{"test":"value"}"#));
}

#[test]
fn test_set_nested_value_nested_keys() {
    let out = merged(&[&["level1", "level2", "level3"]], &[Some("deep_value")]).unwrap();
    assert_eq!(json(&out), json(r#"{"level1":{"level2":{"level3":"deep_value"}}}"#));
}

#[test]
fn test_set_nested_value_empty_path() {
    let out = merged(&[&[]], &[Some("value")]).unwrap();
    assert_eq!(out, "{}");
}

#[test]
fn test_set_nested_value_overwrite_existing() {
    let out = merged(&[&["existing"], &["existing"]], &[Some("old"), Some("new")]).unwrap();
    assert_eq!(json(&out), json(r#"{"existing":"new"}"#));
}

#[test]
fn merge_reads_json_and_keeps_text_as_strings() {
    let out = merged(
        &[&["valid_json"], &["plain"], &["broken_json"], &["number"], &["none"]],
        &[
            Some(r#"{"key": "value", "count": 42}"#),
            Some("plain text"),
            Some(r#"{"incomplete": json"#),
            Some("12345"),
            None,
        ],
    )
    .unwrap();
    assert_eq!(
        json(&out),
        json(
            r#"{"valid_json":{"key":"value","count":42},"plain":"plain text","broken_json":"{\"incomplete\": json","number":12345}"#
        )
    );
}

#[test]
fn merge_goes_into_objects_and_not_into_other_values() {
    let into_answer = merged(
        &[&["data"], &["data", "echo2"], &["data", "deep", "x"]],
        &[Some(r#"{"echo1":"a"}"#), Some("b"), Some("1")],
    )
    .unwrap();
    assert_eq!(json(&into_answer), json(r#"{"data":{"echo1":"a","echo2":"b","deep":{"x":1}}}"#));
    let not_into_text = merged(&[&["data"], &["data", "x"]], &[Some("text"), Some("b")]).unwrap();
    assert_eq!(json(&not_into_text), json(r#"{"data":"text"}"#));
    let siblings = merged(&[&["data", "echo1"], &["data", "echo2"]], &[Some("x"), Some("y")]).unwrap();
    assert_eq!(json(&siblings), json(r#"{"data":{"echo1":"x","echo2":"y"}}"#));
}

#[test]
fn merge_without_registry_has_no_value() {
    let merge = Merge::new().with_rule(vec!["result".to_string()], "echo1".to_string(), RuleArgs::Inherit);
    assert!(merge.children(&Request::new("test_key")).is_empty());
    let given = answers(&merge, &[Some("x")]);
    assert_eq!(merge.respond(false, &given, now()).value(), None);
    assert_eq!(
        Source::Merge(merge).complete(&Request::new("k"), Fetched::Merge(given), now()).value(),
        None
    );
}

fn registry() -> Arc<Sources> {
    let mut sources = Sources::new();
    sources.insert("echo1".to_string(), Source::Echo(Echo::new().with_template("echo1 = {k}")));
    sources.insert("echo2".to_string(), Source::Echo(Echo::new().with_template("echo2 = {k}")));
    sources.insert(
        "template_source".to_string(),
        Source::Echo(Echo::new().with_template("path={path}, id={id}")),
    );
    Arc::new(sources)
}

fn ask(merge: &Merge, request: &Request) -> Option<String> {
    let sources = request.sources().unwrap().clone();
    let children = merge.children(request);
    let mut given = Vec::new();
    for child in children {
        let value = match sources.get(&child.source).unwrap().plan(&child.request, now()) {
            Fetch::Ready(response) => response.value(),
            other => panic!("expected an answer, got {:?}", other),
        };
        given.push(Answer { key: merge.rules[child.rule].key.clone(), value });
    }
    Source::Merge(merge.clone()).complete(request, Fetched::Merge(given), now()).value()
}

#[test]
fn merge_fan_out() {
    let merge = Merge::new()
        .with_rule(vec!["echo1".to_string()], "echo1".to_string(), RuleArgs::Inherit)
        .with_rule(vec!["missing".to_string()], "nonexistent".to_string(), RuleArgs::Inherit)
        .with_rule(vec!["echo2".to_string()], "echo2".to_string(), RuleArgs::Inherit);
    let request = Request::match_regex(r"^both/(?<k>.+)$", "both/test_data")
        .unwrap()
        .with_sources(registry());
    let children = merge.children(&request);
    assert_eq!(children.len(), 2);
    assert_eq!(children[0].rule, 0);
    assert_eq!(children[1].rule, 2);
    assert_eq!(children[1].source, "echo2");
    let out = ask(&merge, &request).unwrap();
    assert_eq!(json(&out), json(r#"{"echo1":"echo1 = test_data","echo2":"echo2 = test_data"}"#));
}

#[test]
fn merge_missing_source_gives_an_empty_object() {
    let merge = Merge::new().with_rule(
        vec!["result".to_string()],
        "nonexistent".to_string(),
        RuleArgs::Inherit,
    );
    let request = Request::new("test_key").with_sources(registry());
    assert_eq!(ask(&merge, &request), Some("{}".to_string()));
}

#[test]
fn merge_replaced_arguments_are_filled_from_the_request() {
    let merge = Merge::new()
        .with_rule(vec!["inherit".to_string()], "template_source".to_string(), RuleArgs::Inherit)
        .with_rule(
            vec!["replace".to_string()],
            "template_source".to_string(),
            RuleArgs::Replace { args: captures(&[("path", "{type}/{id}/details"), ("id", "fixed_id")]) },
        );
    let request = Request::new("test_key")
        .with_captures(captures(&[("type", "user"), ("id", "789"), ("path", "original_path")]))
        .with_sources(registry());
    let child = merge.child_request(1, &request);
    assert_eq!(child.key(), "test_key");
    assert_eq!(child.get("path"), Some("user/789/details"));
    assert_eq!(child.get("id"), Some("fixed_id"));
    assert_eq!(child.get("type"), None);
    assert_eq!(child.get("$key"), Some("test_key"));
    assert!(child.sources().is_some());
    let out = ask(&merge, &request).unwrap();
    assert_eq!(
        json(&out),
        json(r#"{"inherit":"path=original_path, id=789","replace":"path=user/789/details, id=fixed_id"}"#)
    );
}

#[test]
fn sources_registry_names_sources() {
    let mut sources = Sources::new();
    assert!(sources.get("a").is_none());
    sources.insert("a".to_string(), Source::File(File::new("/one")));
    sources.insert("b".to_string(), Source::File(File::new("/two")));
    sources.insert("a".to_string(), Source::File(File::new("/three")));
    match sources.get("a") {
        Some(Source::File(file)) => assert_eq!(file.path_template, "/three"),
        other => panic!("expected a file source, got {:?}", other),
    }
    match sources.get("b") {
        Some(Source::File(file)) => assert_eq!(file.path_template, "/two"),
        other => panic!("expected a file source, got {:?}", other),
    }
    match sources.get("a").unwrap().plan(&Request::new("k"), now()) {
        Fetch::ReadFile(path) => assert_eq!(path, "/three"),
        other => panic!("expected a file to read, got {:?}", other),
    }
    let source = sources.get("a").unwrap();
    assert_eq!(
        source.complete(&Request::new("k"), Fetched::File(Some("x".to_string())), now()).value(),
        Some("x".to_string())
    );
    assert_eq!(
        source.complete(&Request::new("k"), Fetched::Http(Some("x".to_string())), now()).value(),
        None
    );
    assert_eq!(source.monitor_config().ttl(), Duration::from_secs(5));
}

#[test]
fn test_use_source() {
    let source = source(|key: String| Some(format!("value for {}", key)));
    let request = Request::new("test_key");
    let response = source.call(&request, now());
    assert_eq!(response.value(), Some("value for test_key".to_string()));
    assert_eq!(response.ttl(), Duration::from_secs(5));
    assert_eq!(response.expiry(), Duration::from_secs(30));
    let silent = FnGetter::new(|_key: String| None)
        .with_ttl(Duration::from_secs(1))
        .with_expiry(Duration::from_secs(2))
        .with_box();
    let response = silent.call(&request, now());
    assert_eq!(response.value(), None);
    assert_eq!(response.ttl(), Duration::from_secs(1));
    assert_eq!(response.expiry(), Duration::from_secs(2));
}
