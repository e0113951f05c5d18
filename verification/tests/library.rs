use platypus::captures::Captures;
use platypus::pool::{AwsSecretsManagerError, AwsSecretsManagerPoolBuilder};
use platypus::replace_placeholders;
use platypus::writer::{after_write, next_step, ClientAction, WriteJob, WriteOp, WriteOutcome, WriterStep};
use platypus::time::Duration;
use platypus::{AsyncGetter, Error, VERSION};

fn captures(pairs: &[(&str, &str)]) -> Captures {
    let mut c = Captures::new();
    for (k, v) in pairs {
        c.insert(k.to_string(), v.to_string());
    }
    c
}

#[test]
fn test_error_display() {
    let not_found = Error::NotFound;
    assert_eq!(not_found.to_string(), "not found");

    let not_ready = Error::NotReady;
    assert_eq!(not_ready.to_string(), "not ready");

    let other = Error::Other("custom error".to_string());
    assert_eq!(other.to_string(), "other: custom error");
}

#[test]
fn test_error_from_anyhow() {
    let error: Error = Error::Other("test error".to_string());
    match error {
        Error::Other(_) => {}
        _ => panic!("Expected Error::Other"),
    }
}

#[test]
fn test_version_constant() {
    assert!(!VERSION.is_empty());
    assert!(VERSION.contains('.'));
}

#[allow(dead_code)]
fn test_trait_bound<T: AsyncGetter>(_: T) {}

#[test]
fn test_async_getter_trait_exists() {
    test_trait_bound(|request: &platypus::Request| {
        platypus::Response::new(platypus::time::Instant::from_nanos(0))
            .with_value(request.key().to_string(), platypus::time::Instant::from_nanos(0))
    });
}

#[test]
fn test_replace_placeholders() {
    let placeholders = captures(&[("name", "Alice"), ("age", "30")]);
    let template = "Hello {name}, you are {age} years old";
    let result = replace_placeholders(template, &placeholders);
    assert_eq!(result, "Hello Alice, you are 30 years old");
}

#[test]
fn test_replace_placeholders_no_matches() {
    let placeholders = Captures::new();
    let template = "Hello {name}";
    let result = replace_placeholders(template, &placeholders);
    assert_eq!(result, "Hello ");
}

#[test]
fn test_replace_placeholders_multiple_occurrences() {
    let placeholders = captures(&[("word", "test")]);
    let template = "{word} {word} {word}";
    let result = replace_placeholders(template, &placeholders);
    assert_eq!(result, "test test test");
}

#[test]
fn test_replace_placeholders_nested_occurrences() {
    let placeholders = captures(&[("word", "test"), ("test", "other")]);
    let template = "{{word}} {{word}} {{word}}";
    let result = replace_placeholders(template, &placeholders);
    assert_eq!(result, "other other other");
}

#[test]
fn placeholders_leave_plain_text_unchanged() {
    let placeholders = captures(&[("a", "b")]);
    assert_eq!(replace_placeholders("no braces here", &placeholders), "no braces here");
    assert_eq!(replace_placeholders("", &placeholders), "");
}

#[test]
fn placeholders_drop_stray_and_unclosed_braces() {
    let placeholders = captures(&[("a", "1")]);
    assert_eq!(replace_placeholders("x}y", &placeholders), "xy");
    assert_eq!(replace_placeholders("x{a", &placeholders), "x");
    assert_eq!(replace_placeholders("x{a}y{a", &placeholders), "x1y");
}

#[test]
fn placeholder_between_balanced_text_is_replaced_alone() {
    let placeholders = captures(&[("a", "1"), ("b", "2")]);
    let before = replace_placeholders("p{a}q", &placeholders);
    let after = replace_placeholders("r{missing}s", &placeholders);
    let whole = replace_placeholders("p{a}q{b}r{missing}s", &placeholders);
    assert_eq!(whole, format!("{}{}{}", before, "2", after));
    assert!(!whole.contains('{') && !whole.contains('}'));
}

#[test]
fn captures_insert_get_replace() {
    let mut c = Captures::new();
    assert!(c.is_empty());
    assert_eq!(c.len(), 0);
    assert_eq!(c.total_len(), 0);
    assert_eq!(c.insert("k".to_string(), "v".to_string()), None);
    assert_eq!(c.insert("k".to_string(), "w".to_string()), Some("v".to_string()));
    assert_eq!(c.len(), 1);
    assert_eq!(c.get("k"), Some(&"w".to_string()));
    assert_eq!(c.get("missing"), None);
    assert!(c.contains_key("k"));
    assert_eq!(c.total_len(), 2);
    let d = c.clone();
    assert_eq!(d.get("k"), Some(&"w".to_string()));
}

#[test]
fn test_pool_builder_defaults() {
    let builder = AwsSecretsManagerPoolBuilder::new();
    assert_eq!(builder.max_size, 2);
    assert_eq!(builder.min_idle, Some(0));
    assert!(builder.profile.is_none());
    assert!(builder.region.is_none());
}

#[test]
fn test_pool_builder_with_methods() {
    let builder = AwsSecretsManagerPoolBuilder::new()
        .with_max_size(10)
        .with_min_idle(1)
        .with_profile("test-profile")
        .with_region("us-east-1");

    assert_eq!(builder.max_size, 10);
    assert_eq!(builder.min_idle, Some(1));
    assert_eq!(builder.profile, Some("test-profile".to_string()));
    assert_eq!(builder.region, Some("us-east-1".to_string()));
}

#[test]
fn pool_error_in_words() {
    let e = AwsSecretsManagerError::ClientCreation("no runtime".to_string());
    assert_eq!(e.to_string(), "Failed to create AWS client: no runtime");
    assert_eq!(AwsSecretsManagerPoolBuilder::default(), AwsSecretsManagerPoolBuilder::new());
}

#[test]
fn test_write_job_creation() {
    let job = WriteJob {
        key: "test_key".to_string(),
        value: Some("test_value".to_string()),
        ttl_secs: 300,
    };

    assert_eq!(job.key, "test_key");
    assert_eq!(job.value, Some("test_value".to_string()));
    assert_eq!(job.ttl_secs, 300);
}

#[test]
fn test_write_job_clone() {
    let job = WriteJob {
        key: "test_key".to_string(),
        value: Some("test_value".to_string()),
        ttl_secs: 300,
    };

    let cloned_job = job.clone();
    assert_eq!(job.key, cloned_job.key);
    assert_eq!(job.value, cloned_job.value);
    assert_eq!(job.ttl_secs, cloned_job.ttl_secs);
}

#[test]
fn test_ttl_conversion() {
    let job = WriteJob::new("test_key", Some("test_value".to_string()), Duration::from_millis(5500));
    assert_eq!(job.ttl_secs, 5);
}

#[test]
fn test_writer_send_with_zero_ttl() {
    let job = WriteJob::new("test_key", Some("test_value".to_string()), Duration::from_secs(0));
    assert_eq!(job.ttl_secs, 0);
}

#[test]
fn test_writer_send_with_large_ttl() {
    let large_ttl = Duration::from_secs(u32::MAX as u64);
    let job = WriteJob::new("test_key", Some("test_value".to_string()), large_ttl);
    assert_eq!(job.ttl_secs, u32::MAX);
    let wrapped = WriteJob::new("k", None, Duration::from_secs(u32::MAX as u64 + 6));
    assert_eq!(wrapped.ttl_secs, 5);
}

#[test]
fn write_job_becomes_set_or_delete() {
    let set = WriteJob::new("k", Some("v".to_string()), Duration::from_secs(7));
    assert_eq!(
        set.op(),
        WriteOp::Store { key: "k".to_string(), value: "v".to_string(), ttl_secs: 7 }
    );
    let delete = WriteJob::new("k", None, Duration::from_secs(7));
    assert_eq!(delete.op(), WriteOp::Delete { key: "k".to_string() });
}

#[test]
fn writer_reconnects_only_without_a_working_connection() {
    assert_eq!(after_write(WriteOutcome::NotConnected), ClientAction::Reconnect);
    assert_eq!(after_write(WriteOutcome::IoError), ClientAction::Reconnect);
    assert_eq!(after_write(WriteOutcome::Done), ClientAction::Keep);
    assert_eq!(after_write(WriteOutcome::OtherError), ClientAction::Keep);
    assert_eq!(next_step(false), WriterStep::Receive);
    assert_eq!(next_step(true), WriterStep::DrainAndExit);
}

#[test]
fn durations_count_nanoseconds() {
    assert_eq!(Duration::from_secs(5).as_nanos(), 5_000_000_000);
    assert_eq!(Duration::from_millis(5500).as_secs(), 5);
    assert_eq!(Duration::from_millis(5500).as_nanos(), 5_500_000_000);
    assert_eq!(Duration::from_secs(5).half().as_nanos(), 2_500_000_000);
    assert_eq!(Duration::from_nanos(3).half().as_nanos(), 1);
    assert!(Duration::from_secs(0).is_zero());
    assert!(!Duration::from_nanos(1).is_zero());
    assert_eq!(Duration::from_secs(60), Duration::from_millis(60_000));
}
