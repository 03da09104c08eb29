use intake::agent::command_policy::CommandPolicy;
use intake::application_log::{
    application_log_path, configured_level, redact_bearer, redact_log_text, redact_named_value,
    safe_io_error, source_application_log_path, tracing_outcome, FileProblem, LogLevel,
};
use intake::config::{
    CommandsConfig, IntakeConfig, SkillsConfig, StateConfig, TriageConfig, Variable,
};
use intake::database::records::{RunMetadata, RunOutcome};
use intake::errors::{classify_message, public_cli_error, public_error, ErrorCategory};
use intake::logging::{
    assistant_details, bounded_record, bounded_string, compaction_details, end_details,
    filename_part, metadata_details, monitor_record, normalize, prompt_details, reasoning_details,
    retry_details, retry_end_details, run_log_name, safe_termination_reason, start_details,
    tool_details, tool_end_details, turn_details, turn_end_details, LogField, LogValue,
    LogWarnings, LogWriteOutcome, LoggedRun, MAX_LOG_ARRAY_ITEMS, MAX_LOG_DEPTH,
    MAX_LOG_OBJECT_KEYS, MAX_LOG_RECORD_BYTES,
};

fn policy() -> CommandPolicy {
    let config = IntakeConfig {
        version: 1,
        project_roots: vec!["/work".to_string()],
        state: StateConfig::default(),
        skills: SkillsConfig { directories: Vec::new(), approved_roots: Vec::new() },
        sources: Vec::new(),
        triage: TriageConfig::default(),
        commands: CommandsConfig {
            path: Vec::new(),
            timeout_seconds: 60,
            max_output_bytes: 65_536,
            sensitive_patterns: Vec::new(),
            rules: Vec::new(),
        },
    };
    CommandPolicy::new(&config, Vec::new(), "/").unwrap()
}

fn text(value: &str) -> LogValue {
    LogValue::Text(value.to_string())
}

fn field(key: &str, value: LogValue) -> LogField {
    LogField { key: key.to_string(), value }
}

fn shown(value: &LogValue) -> String {
    match value {
        LogValue::Null => "null".to_string(),
        LogValue::Bool(b) => b.to_string(),
        LogValue::Number(number) => number.clone(),
        LogValue::Text(content) => format!("{:?}", content),
        LogValue::List(items) => {
            format!("[{}]", items.iter().map(shown).collect::<Vec<_>>().join(","))
        }
        LogValue::Object(fields) => format!(
            "{{{}}}",
            fields
                .iter()
                .map(|field| format!("{}:{}", field.key, shown(&field.value)))
                .collect::<Vec<_>>()
                .join(",")
        ),
    }
}

#[test]
fn log_paths_are_found() {
    assert_eq!(application_log_path("/logs"), "/logs/application.log");
    let told = vec![Variable { name: "INTAKE_LOG_PATH".to_string(), value: "/x.log".to_string() }];
    assert_eq!(source_application_log_path(&told, "/"), Some("/x.log".to_string()));
    let home = vec![Variable { name: "HOME".to_string(), value: "/home/me".to_string() }];
    assert_eq!(
        source_application_log_path(&home, "/"),
        Some("/home/me/.local/state/intake/logs/application.log".to_string())
    );
    assert_eq!(source_application_log_path(&Vec::new(), "/"), None);
}

#[test]
fn log_levels_are_read() {
    assert_eq!(configured_level(None).0, LogLevel::Info);
    assert_eq!(configured_level(Some("DEBUG")).0, LogLevel::Debug);
    let (level, warning) = configured_level(Some("loud"));
    assert_eq!(level, LogLevel::Info);
    assert!(warning.is_some());
}

#[test]
fn log_problems_are_worded() {
    let init = tracing_outcome(Some("/x.log"), None, None);
    assert_eq!(init.path, Some("/x.log".to_string()));
    assert!(tracing_outcome(Some("/x.log"), Some(FileProblem::PermissionDenied), None).warning.is_some());
    assert!(!safe_io_error(FileProblem::PermissionDenied).is_empty());
}

#[test]
fn bearers_are_marked() {
    assert_eq!(redact_bearer("Authorization: Bearer abc.def next"), "Authorization: Bearer [REDACTED] next");
    assert_eq!(redact_bearer("BEARER x, bearer y"), "BEARER [REDACTED], bearer [REDACTED]");
}

#[test]
fn named_values_are_marked() {
    assert_eq!(redact_named_value("token=abc rest", "token"), "token=[REDACTED] rest");
    assert_eq!(redact_named_value("my_token: \"a b\" x", "token"), "my_token: \"[REDACTED]\" x");
    assert_eq!(redact_named_value("a token alone", "token"), "a token alone");
    assert_eq!(redact_named_value("token-token=abc", "token"), "token-token=[REDACTED]");
    assert_eq!(redact_named_value("token=, TOKEN='a b'", "token"), "token=, TOKEN='[REDACTED]'");
    assert_eq!(
        redact_log_text("password=hunter2 and secret: 'x y' done"),
        "password=[REDACTED] and secret: '[REDACTED]' done"
    );
    assert_eq!(redact_log_text("nothing"), "nothing");
    for key in ["Authorization", "command_output", "COOKIE", "oauth", "Token"] {
        let shown = format!("{key}=[REDACTED]");
        assert_eq!(redact_log_text(&format!("{key}=abc123")), shown);
        assert_eq!(redact_log_text(&format!("{key}=token")), shown);
    }
}

#[test]
fn messages_are_classified() {
    assert_eq!(classify_message("401 Unauthorized"), ErrorCategory::Authentication);
    assert_eq!(classify_message("429"), ErrorCategory::RateLimit);
    assert_eq!(classify_message("request timed out"), ErrorCategory::Timeout);
    assert_eq!(classify_message("socket closed"), ErrorCategory::Connection);
    assert_eq!(classify_message("404"), ErrorCategory::NotFound);
    assert_eq!(classify_message("model is unavailable"), ErrorCategory::ModelUnavailable);
    assert_eq!(classify_message("context limit reached"), ErrorCategory::ContextLimit);
    assert_eq!(classify_message("interrupted"), ErrorCategory::Interrupted);
    assert_eq!(classify_message("odd"), ErrorCategory::Unknown);
}

#[test]
fn public_errors_are_fixed_texts() {
    assert_eq!(public_error(Some("bad Token xyz")), Some("Authentication failed".to_string()));
    assert_eq!(public_error(Some("???")), Some("Operation failed".to_string()));
    assert_eq!(public_error(None), None);
    assert_eq!(public_cli_error("disk is full"), "disk is full");
    assert_eq!(public_cli_error("password=hunter2"), "Operation failed");
    assert_eq!(public_cli_error("oauth failed"), "Authentication failed");
}

#[test]
fn texts_are_cut_with_a_note() {
    assert_eq!(bounded_string("abcdef", 6, &policy()), "abcdef");
    assert_eq!(bounded_string("abcdef", 4, &policy()), "abcd\n[TRUNCATED: 6 bytes total]");
    assert_eq!(bounded_string("aé", 2, &policy()), "a\n[TRUNCATED: 3 bytes total]");
    assert_eq!(bounded_string("token=abc", 100, &policy()), "[REDACTED]");
}

fn nested(depth: usize) -> LogValue {
    let mut value = text("deep");
    for _ in 0..depth {
        value = LogValue::List(vec![value]);
    }
    value
}

#[test]
fn nesting_is_bounded() {
    let kept = shown(&normalize(&nested(MAX_LOG_DEPTH), &policy(), 0));
    assert!(kept.contains("deep"));
    let cut = shown(&normalize(&nested(MAX_LOG_DEPTH + 1), &policy(), 0));
    assert!(!cut.contains("deep"));
    assert!(cut.contains("[TRUNCATED: maximum depth reached]"));
}

#[test]
fn lists_and_objects_are_bounded() {
    let list = LogValue::List((0..MAX_LOG_ARRAY_ITEMS + 2).map(|_| LogValue::Null).collect());
    match normalize(&list, &policy(), 0) {
        LogValue::List(items) => {
            assert_eq!(items.len(), MAX_LOG_ARRAY_ITEMS + 1);
            assert_eq!(shown(&items[MAX_LOG_ARRAY_ITEMS]), "\"[TRUNCATED: 2 array items]\"");
        }
        _ => panic!("not a list"),
    }
    let object = LogValue::Object(
        (0..MAX_LOG_OBJECT_KEYS + 3).map(|i| field(&format!("k{}", i), LogValue::Bool(true))).collect(),
    );
    match normalize(&object, &policy(), 0) {
        LogValue::Object(fields) => {
            assert_eq!(fields.len(), MAX_LOG_OBJECT_KEYS + 1);
            assert_eq!(fields[MAX_LOG_OBJECT_KEYS].key, "valueTruncated");
            assert_eq!(shown(&fields[MAX_LOG_OBJECT_KEYS].value), "\"3 object keys\"");
        }
        _ => panic!("not an object"),
    }
}

#[test]
fn long_records_are_replaced() {
    let record = LogValue::Object(vec![
        field("timestamp", text("t")),
        field("type", text("x")),
        field("extra", text("y")),
    ]);
    let line = vec![b'a'; MAX_LOG_RECORD_BYTES + 1];
    let short = shown(&bounded_record(record, &line, &policy()).unwrap());
    assert!(short.starts_with("{timestamp:\"t\",type:\"x\",value:\"aaa"));
    assert!(short.ends_with("[TRUNCATED: 2097153 bytes total]\",recordTruncated:true}"));
    assert!(bounded_record(LogValue::Null, &[b'a'; 3], &policy()).is_none());
}

#[test]
fn records_carry_their_run() {
    let run = LoggedRun { event_id: 7, attempt: 2 };
    assert_eq!(
        shown(&run.record(turn_details(3), "turn_start", "now")),
        "{ordinal:3,timestamp:\"now\",type:\"turn_start\",eventId:7,attempt:2}"
    );
    // A field of the same name is replaced where it stands.
    let details = retry_details(1, 3, 500, Some(ErrorCategory::Timeout));
    assert_eq!(
        shown(&run.record(details, "auto_retry_start", "now")),
        "{attempt:2,maxAttempts:3,delayMs:500,errorCategory:\"timeout\",timestamp:\"now\",type:\"auto_retry_start\",eventId:7}"
    );
    assert_eq!(
        shown(&monitor_record(text("odd"), "note", "now")),
        "{details:\"odd\",timestamp:\"now\",type:\"note\"}"
    );
}

#[test]
fn details_are_complete() {
    assert_eq!(
        shown(&start_details("mail", "email", "a", "b")),
        "{event:{source:\"mail\",kind:\"email\",occurredAt:\"a\",observedAt:\"b\"}}"
    );
    let metadata = RunMetadata {
        model_id: Some("m".to_string()),
        model_provider: None,
        thinking_level: Some("high".to_string()),
        context_window: Some(-1),
        max_tokens: None,
    };
    assert_eq!(
        shown(&metadata_details(&metadata, &vec!["bash".to_string(), "no good".to_string()])),
        "{model:{id:\"m\",provider:null,contextWindow:-1,maxTokens:null},thinkingLevel:\"high\",tools:[\"bash\",\"tool\"],telemetryVersion:2}"
    );
    assert_eq!(shown(&prompt_details("aé")), "{byteLength:3}");
    assert_eq!(shown(&turn_end_details(1, LogValue::Null)), "{ordinal:1,details:null}");
    assert_eq!(shown(&tool_details("read", Some("x"))), "{toolName:\"read\",summary:\"x\"}");
    assert_eq!(
        shown(&tool_end_details("read", true, None, &policy())),
        "{toolName:\"read\",isError:true,diagnostic:\"tool failed without a diagnostic\"}"
    );
    assert_eq!(
        shown(&tool_end_details("read", false, Some("x"), &policy())),
        "{toolName:\"read\",isError:false,diagnostic:null}"
    );
    assert_eq!(shown(&retry_end_details(true)), "{outcome:\"succeeded\"}");
    assert_eq!(shown(&compaction_details("proactive")), "{reason:\"proactive\"}");
    assert_eq!(shown(&assistant_details("hi")), "{text:\"hi\"}");
    assert_eq!(shown(&reasoning_details(None)), "{summary:null}");
    assert_eq!(
        shown(&end_details(RunOutcome::Failed, 12, None, "odd", true)),
        "{outcome:\"failed\",durationMs:12,failureCategory:null,terminationReason:null,recordingFailed:true}"
    );
    assert!(safe_termination_reason("legacy_interruption"));
    assert!(!safe_termination_reason("odd"));
}

#[test]
fn log_files_are_named() {
    assert_eq!(filename_part("  My Source!! (2)"), "my-source-2");
    assert_eq!(filename_part("---"), "");
    let run = LoggedRun { event_id: 5, attempt: 1 };
    assert_eq!(
        run_log_name(&run, "Mail", "20260101T000000Z", 255),
        "triage-event-5-attempt-1-mail-20260101T000000Z-000000ff.jsonl"
    );
}

#[test]
fn warnings_come_once_for_each_file() {
    let mut warnings = LogWarnings::new();
    assert_eq!(
        warnings.warn("/a", "token=abc", &policy()),
        Some("warning: intake logging failed for /a: [REDACTED]\n".to_string())
    );
    assert_eq!(warnings.warn("/a", "again", &policy()), None);
    assert!(warnings.warn("/b", "x", &policy()).is_some());
    assert!(LogWriteOutcome::Written.is_written());
    assert!(!LogWriteOutcome::Failed.is_written());
}
