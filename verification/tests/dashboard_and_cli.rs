use intake::cli::{
    check_error_lines, chosen_log_path, command_help, command_spec, command_specs, ignore_reply,
    init_reply, injected_file, injection_checkpoint, injection_reply, parse_dashboard_options,
    parse_event_id, parse_global_options, parse_watch_options, plan, requested_command_help,
    require_valid, retry_reply, run_outcome, status_report, tracing_log_path, unknown_command,
    unknown_event, usage, validate_configuration, validate_other_command_options,
    validation_reply, write_error, Arguments, Command, LogPlan, Plan, QueueCount, Runtime,
};
use intake::config::{
    CommandRule, CommandsConfig, IntakeConfig, SkillsConfig, SourceConfig, StateConfig,
    TriageConfig, Variable,
};
use intake::dashboard::{
    dashboard_bind, dashboard_limits, dashboard_page, event_projection, overview_of,
    positive_safe_integer, public_error, query_integer, run_query, run_state, security_headers,
    DashboardCounts, RunOverview, SnapshotRecords, StatusCount, NON_LOOPBACK_WARNING,
};
use intake::database::records::{
    ConclusionSource, DispatchTrigger, EventRecord, EventStatus, SourceStatus, TriageConclusion,
    TriageDecision, TriageRunRecord, TriageRunSummary, TriageStepRecord,
};
use intake::presentation::{displayed_conclusion, present_event, present_run};
use intake::run_detail::safe_event_url;

fn words(list: &[&str]) -> Vec<String> {
    list.iter().map(|item| item.to_string()).collect()
}

fn event(id: i64) -> EventRecord {
    EventRecord {
        id,
        source: "mail".to_string(),
        entity_id: "e".to_string(),
        revision_id: "r".to_string(),
        kind: "email".to_string(),
        title: "hello".to_string(),
        payload: None,
        operational_metadata: "{\"url\":\"https://example.com/a?secret=1#part\"}".to_string(),
        occurred_at: "2026-01-01T00:00:00.000Z".to_string(),
        observed_at: "2026-01-01T00:00:01.000Z".to_string(),
        status: EventStatus::Processing,
        attempt_count: 1,
        next_attempt_at: None,
        last_error: Some("token expired".to_string()),
        aven_ref: None,
        investigation_handle: Some("look".to_string()),
    }
}

fn run(id: i64, event_id: i64) -> TriageRunRecord {
    TriageRunRecord {
        id,
        event_id,
        attempt: 2,
        started_at: "2026-01-01T00:00:02.000Z".to_string(),
        ended_at: None,
        last_activity_at: "2026-01-01T00:00:03.000Z".to_string(),
        outcome: None,
        termination_reason: None,
        failure_category: None,
        model_id: None,
        model_provider: None,
        thinking_level: None,
        context_window: None,
        max_tokens: None,
        telemetry_version: None,
        telemetry_completeness: "complete".to_string(),
        dispatch_sequence: None,
        dispatch_trigger: None,
        dispatch_prior_run_id: None,
        dispatch_scheduled_for: None,
        conclusion: None,
        turn_count: 1,
        retry_count: 0,
        compaction_count: 0,
    }
}

fn step(id: i64) -> TriageStepRecord {
    TriageStepRecord {
        id,
        turn_id: None,
        turn_ordinal: Some(1),
        kind: "tool".to_string(),
        label: "read".to_string(),
        summary: None,
        started_at: "2026-01-01T00:00:02.000Z".to_string(),
        ended_at: None,
        outcome: None,
    }
}

fn config() -> IntakeConfig {
    IntakeConfig {
        version: 1,
        project_roots: words(&["/work"]),
        state: StateConfig { database: "/db".to_string(), logs: "/logs".to_string() },
        skills: SkillsConfig { directories: Vec::new(), approved_roots: Vec::new() },
        sources: Vec::new(),
        triage: TriageConfig::default(),
        commands: CommandsConfig {
            path: words(&["/usr/bin", "/bin"]),
            timeout_seconds: 60,
            max_output_bytes: 65_536,
            sensitive_patterns: Vec::new(),
            rules: Vec::new(),
        },
    }
}

fn source(name: &str) -> SourceConfig {
    SourceConfig {
        name: name.to_string(),
        command: "mail".to_string(),
        args: Vec::new(),
        interval_seconds: 60,
        timeout_seconds: 30,
        item_limit: 2,
        environment: Vec::new(),
        options: Vec::new(),
    }
}

fn rule(executable: &str) -> CommandRule {
    CommandRule { executable: executable.to_string() }
}

#[test]
fn errors_are_worded_for_the_public() {
    let shown = |error: &str| public_error(Some(error)).unwrap();
    assert_eq!(public_error(None), None);
    assert_eq!(shown("Bad TOKEN"), "Authentication failed");
    assert_eq!(shown("Forbidden"), "Authentication failed");
    assert_eq!(shown("Too Many Requests"), "Rate limited");
    assert_eq!(shown("timed out"), "Request timed out");
    assert_eq!(shown("connection reset"), "Connection reset");
    assert_eq!(shown("404"), "Resource not found (404)");
    assert_eq!(shown("unavailable MODEL"), "Model unavailable");
    assert_eq!(shown("interrupted"), "Triage interrupted");
    assert_eq!(shown("\u{0130}"), "Operation failed");
}

#[test]
fn addresses_are_stripped_or_kept_back() {
    assert_eq!(safe_event_url(&event(1)), Some("https://example.com/a".to_string()));
    let mut hidden = event(1);
    hidden.operational_metadata = "{\"url\":\"https://me:pw@example.com/\"}".to_string();
    assert_eq!(safe_event_url(&hidden), None);
    hidden.operational_metadata = "{\"url\":\"ftp://example.com/\"}".to_string();
    assert_eq!(safe_event_url(&hidden), None);
    hidden.operational_metadata = "{\"url\":7}".to_string();
    assert_eq!(safe_event_url(&hidden), None);
    hidden.operational_metadata = "{".to_string();
    assert_eq!(safe_event_url(&hidden), None);
    assert_eq!(present_event(&event(4)).url, Some("https://example.com/a".to_string()));
    assert_eq!(present_event(&event(4)).id, 4);
}

#[test]
fn snapshots_sum_up_the_queue() {
    let count = |status: EventStatus, count: usize| StatusCount { status, count };
    let counts = vec![
        count(EventStatus::Pending, 1),
        count(EventStatus::Processing, 2),
        count(EventStatus::Retryable, 3),
        count(EventStatus::Succeeded, 4),
        count(EventStatus::Failed, 5),
        count(EventStatus::Ignored, 6),
    ];
    assert_eq!(DashboardCounts::read(&counts).total(), 21);
    let origin = |name: &str| SourceStatus {
        source: name.to_string(),
        last_success_at: None,
        last_error: Some("404".to_string()),
        updated_at: "2026-01-01T00:00:00.000Z".to_string(),
    };
    let records = SnapshotRecords {
        counts,
        events: vec![event(1)],
        sources: vec![origin("manual-injection"), origin("mail")],
        runs: vec![
            RunOverview {
                summary: TriageRunSummary { run: run(7, 1), step_count: 3 },
                event: Some(event(1)),
                steps: vec![step(1), step(2)],
            },
            RunOverview {
                summary: TriageRunSummary { run: run(8, 2), step_count: 0 },
                event: None,
                steps: Vec::new(),
            },
        ],
        oldest_open_at: Some("then".to_string()),
    };
    let shown = overview_of(&records, 0);
    assert_eq!(shown.generated_at, Some("1970-01-01T00:00:00.000Z".to_string()));
    assert_eq!((shown.total, shown.open, shown.attention, shown.handled), (21, 6, 8, 10));
    assert_eq!(shown.oldest_open_at, Some("then".to_string()));
    assert_eq!(shown.sources.len(), 1);
    assert_eq!(shown.sources[0].source, "mail");
    assert_eq!(shown.sources[0].last_error, Some("Resource not found (404)".to_string()));
    assert_eq!(shown.events[0].last_error, Some("Authentication failed".to_string()));
    assert_eq!(shown.runs.len(), 1);
    assert_eq!(shown.runs[0].state, "active");
    assert_eq!(shown.runs[0].ended_at, None);
    assert_eq!(shown.runs[0].steps.len(), 2);
    assert_eq!(shown.runs[0].steps[0].state, "active");
    assert!(shown.runs[0].timeline_truncated);
    assert_eq!(shown.runs[0].investigation_handle, Some("look".to_string()));
}

#[test]
fn states_of_runs_are_told() {
    assert_eq!(run_state(&Some("failed".to_string()), EventStatus::Processing), "failed");
    assert_eq!(run_state(&None, EventStatus::Processing), "active");
    assert_eq!(run_state(&None, EventStatus::Failed), "interrupted");
    assert_eq!(event_projection(&event(3)).url, Some("https://example.com/a".to_string()));
}

#[test]
fn queries_are_read() {
    assert_eq!(query_integer("0012"), Some(12));
    assert_eq!(query_integer(""), None);
    assert_eq!(query_integer("+1"), None);
    assert_eq!(query_integer("9007199254740991"), Some(9_007_199_254_740_991));
    assert_eq!(query_integer("9007199254740992"), None);
    assert_eq!(query_integer("99999999999999999999999"), None);
    assert_eq!(positive_safe_integer("12"), Some(12));
    assert_eq!(positive_safe_integer("012"), None);
    assert_eq!(positive_safe_integer("0"), None);
    assert_eq!(positive_safe_integer("-1"), None);
    assert_eq!(run_query(None), (0, 200));
    assert_eq!(run_query(Some("offset=10&limit=5")), (10, 5));
    assert_eq!(run_query(Some("limit=0")), (0, 1));
    assert_eq!(run_query(Some("limit=9999&offset=x")), (0, 500));
    assert_eq!(run_query(Some("offset=5&offset=x")), (0, 200));
    assert_eq!(run_query(Some("%6Fffset=7")), (7, 200));
}

#[test]
fn binding_needs_care() {
    let bind = dashboard_bind(None, None, false, true).unwrap();
    assert_eq!((bind.host(), bind.port(), bind.warning()), ("127.0.0.1", 4545, None));
    let bind = dashboard_bind(Some("LocalHost"), Some(80), false, false).unwrap();
    assert_eq!((bind.host(), bind.port(), bind.warning()), ("LocalHost", 80, None));
    assert_eq!(
        dashboard_bind(Some("0.0.0.0"), None, false, false).unwrap_err().message(),
        "dashboard host 0.0.0.0 is not loopback; pass --allow-non-loopback to acknowledge that the title and entity API has no authentication"
    );
    let bind = dashboard_bind(Some("0.0.0.0"), None, true, false).unwrap();
    assert_eq!(bind.warning(), Some(NON_LOOPBACK_WARNING));
    for port in [0, 65_536] {
        assert_eq!(
            dashboard_bind(None, Some(port), false, true).unwrap_err().message(),
            "dashboard port must be between 1 and 65535"
        );
    }
}

#[test]
fn pages_hold_their_parts() {
    let page = dashboard_page("STYLE", "SCRIPT");
    assert!(page.starts_with("<!doctype html>\n<html lang=\"en\">\n"));
    assert!(page.contains("<style>STYLE</style>"));
    assert!(page.contains("<script type=\"module\">SCRIPT</script>"));
    assert!(page.contains("    try {\n"));
    assert!(page.ends_with("</body>\n</html>"));
    let headers = security_headers();
    assert_eq!(headers[0].name, "cache-control");
    assert_eq!(headers[6].value, "DENY");
    let limits = dashboard_limits(&config());
    assert_eq!(limits.max_turns, Some(50));
    assert_eq!(limits.wall_timeout_ms, Some(1_800_000));
}

#[test]
fn runs_are_presented() {
    let mut settled = event(1);
    settled.status = EventStatus::Failed;
    let shown = present_run(run(1, 1), &settled);
    assert_eq!(shown.run.outcome, Some("interrupted".to_string()));
    assert_eq!(shown.run.ended_at, Some("2026-01-01T00:00:03.000Z".to_string()));
    assert_eq!(shown.dispatch_trigger, DispatchTrigger::BackoffRetry);
    assert!(!shown.dispatch_recorded);
    assert_eq!(shown.dispatch_sequence, 2);
    assert_eq!(shown.conclusion.decision, TriageDecision::Canceled);

    let shown = present_run(run(1, 1), &event(1));
    assert_eq!(shown.run.outcome, None);
    assert_eq!(
        shown.conclusion.summary,
        "Triage is in progress; the final decision is pending."
    );
    assert_eq!(shown.conclusion.source, ConclusionSource::Derived);

    let mut first = run(1, 1);
    first.attempt = 0;
    let shown = present_run(first.clone(), &event(1));
    assert_eq!(shown.dispatch_trigger, DispatchTrigger::Initial);
    assert_eq!(shown.dispatch_sequence, 1);
    let mut injected = event(1);
    injected.source = "manual-injection".to_string();
    assert_eq!(
        present_run(first.clone(), &injected).dispatch_trigger,
        DispatchTrigger::ManualInjection
    );
    first.dispatch_trigger = Some(DispatchTrigger::Revision);
    first.dispatch_sequence = Some(9);
    let shown = present_run(first, &injected);
    assert_eq!(shown.dispatch_trigger, DispatchTrigger::Revision);
    assert!(shown.dispatch_recorded);
    assert_eq!(shown.dispatch_sequence, 9);
}

#[test]
fn conclusions_stand_in_for_missing_ones() {
    let mut ended = run(1, 1);
    ended.outcome = Some("failed".to_string());
    let shown = displayed_conclusion(&ended);
    assert_eq!(shown.decision, TriageDecision::Failed);
    assert_eq!(shown.outcome, "The recorded attempt failed.");
    ended.outcome = Some("succeeded".to_string());
    let shown = displayed_conclusion(&ended);
    assert_eq!(shown.decision, TriageDecision::NeedsFollowUp);
    assert_eq!(shown.source, ConclusionSource::Unavailable);
    ended.conclusion = Some(TriageConclusion {
        decision: TriageDecision::NoAction,
        summary: "s".to_string(),
        evidence: words(&["e"]),
        actions: Vec::new(),
        outcome: "o".to_string(),
        follow_up: None,
        source: ConclusionSource::Model,
    });
    let shown = displayed_conclusion(&ended);
    assert_eq!(shown.decision, TriageDecision::NoAction);
    assert_eq!(shown.evidence, words(&["e"]));
}

#[test]
fn commands_are_listed() {
    let specs = command_specs();
    assert_eq!(specs.len(), 11);
    for spec in specs {
        assert_eq!(command_spec(spec.name()), Some(spec));
    }
    assert_eq!(command_spec("nothing"), None);
    let spec = command_spec("check").unwrap();
    assert_eq!(spec.arguments(), Arguments::Nothing);
    assert_eq!(spec.runtime(), Runtime::Database { queue_owner: true, validate_config: true });
    assert_eq!(spec.description(), "Poll every source once and drain ready triage events.");
}

#[test]
fn usage_is_printed() {
    let text = usage();
    assert!(text.starts_with("Usage: intake [--config PATH] COMMAND\n\nCommands:\n  watch [--dashboard] [--host HOST] [--port PORT]\n                        monitor sources and triage continuously\n"));
    assert!(text.contains("  check                 poll every source once and drain ready triage events\n"));
    assert!(text.contains("  validate-config       validate YAML, command boundaries, and skill links\n"));
    assert!(text.contains("  --port PORT           bind port (default: 4545)\n"));
    assert!(text.ends_with(
        "  Set INTAKE_LOG to off, error, warn, info, debug, or trace.\n"
    ));
}

#[test]
fn help_is_given_per_command() {
    assert_eq!(
        command_help("login").unwrap(),
        "Usage: intake login\n\nAuthenticate the ChatGPT subscription provider.\n"
    );
    assert_eq!(
        command_help("show").unwrap(),
        "Usage: intake [--config PATH] show ID\n\nShow one intake event.\n"
    );
    assert_eq!(
        command_help("dashboard").unwrap(),
        "Usage: intake [--config PATH] dashboard [--host HOST] [--port PORT] [--allow-non-loopback]\n\nServe the local monitoring dashboard.\n\nOptions:\n  --host HOST           bind host (default: 127.0.0.1)\n  --port PORT           bind port (default: 4545)\n  --allow-non-loopback  acknowledge unauthenticated non-loopback access\n"
    );
    assert!(command_help("watch").unwrap().contains(
        "\nOptions:\n  --dashboard           serve the dashboard with watch\n  --host HOST"
    ));
    assert_eq!(command_help("none"), None);
    assert!(requested_command_help(&words(&["show", "-h"])).is_some());
    assert!(requested_command_help(&words(&["show", "--help", "x"])).is_none());
    assert!(requested_command_help(&words(&["show"])).is_none());
}

#[test]
fn options_are_parsed() {
    let options = parse_global_options(words(&["check", "--config", "/c", "x"])).unwrap();
    assert_eq!(options.config_path, Some("/c".to_string()));
    assert_eq!(options.args, words(&["check", "x"]));
    for args in [words(&["--config"]), words(&["--config", ""])] {
        assert_eq!(parse_global_options(args).unwrap_err(), "--config requires a path");
    }
    let options = parse_dashboard_options(&words(&[
        "--host", "::1", "--port", "+80", "--allow-non-loopback",
    ]))
    .unwrap();
    assert_eq!(options.host, Some("::1".to_string()));
    assert_eq!(options.port, Some(80));
    assert!(options.allow_non_loopback);
    assert_eq!(
        parse_dashboard_options(&words(&["--port", "0"])).unwrap_err(),
        "dashboard port must be between 1 and 65535"
    );
    assert_eq!(
        parse_dashboard_options(&words(&["--host"])).unwrap_err(),
        "Unknown dashboard option: --host"
    );
    assert!(parse_watch_options(&Vec::new()).unwrap().dashboard.is_none());
    assert_eq!(
        parse_watch_options(&words(&["--port", "1"])).unwrap_err(),
        "Unknown watch option: --port"
    );
    assert_eq!(
        parse_watch_options(&words(&["--dashboard", "--dashboard"])).unwrap_err(),
        "--dashboard may only be specified once"
    );
    let options = parse_watch_options(&words(&["--port", "9", "--dashboard"])).unwrap();
    assert_eq!(options.dashboard.unwrap().port, Some(9));
}

#[test]
fn other_arguments_are_checked() {
    let check = |name: &str, args: &[&str]| {
        validate_other_command_options(command_spec(name), name, &words(args))
    };
    assert!(check("status", &[]).is_ok());
    assert!(check("show", &["3"]).is_ok());
    assert_eq!(check("show", &["-3"]).unwrap_err(), "Unknown show option: -3");
    assert_eq!(check("show", &["3", "4"]).unwrap_err(), "Unexpected show argument: 4");
    assert_eq!(check("status", &["x"]).unwrap_err(), "Unexpected status argument: x");
    assert!(check("nothing", &["-x"]).is_ok());
    assert_eq!(parse_event_id(Some("+7")), Ok(7));
    for value in [None, Some("0"), Some("-1"), Some("x"), Some("9223372036854775808")] {
        assert_eq!(parse_event_id(value).unwrap_err(), "A positive event ID is required");
    }
}

#[test]
fn invocations_are_planned() {
    assert!(matches!(plan(Vec::new()), Ok(Plan::Print(text)) if text == usage()));
    assert!(matches!(plan(words(&["help", "x"])), Ok(Plan::Print(_))));
    assert!(matches!(plan(words(&["show", "-h"])), Ok(Plan::Print(_))));
    match plan(words(&["--config", "/c", "show", "3"])).unwrap() {
        Plan::Run(invocation) => {
            assert_eq!(invocation.command, Some(Command::Show));
            assert_eq!(invocation.config_path, Some("/c".to_string()));
            assert_eq!(invocation.first_argument(), Some("3"));
            assert_eq!(
                invocation.runtime(),
                Some(Runtime::Database { queue_owner: false, validate_config: false })
            );
        }
        Plan::Print(_) => panic!("nothing was planned"),
    }
    match plan(words(&["nothing", "-x"])).unwrap() {
        Plan::Run(invocation) => {
            assert_eq!(invocation.command, None);
            assert_eq!(invocation.runtime(), None);
            assert_eq!(unknown_command(&invocation.name), "Unknown command: nothing");
        }
        Plan::Print(_) => panic!("nothing was planned"),
    }
    assert!(plan(words(&["status", "-x"])).is_err());
    assert!(plan(words(&["watch", "-x"])).is_err());
}

#[test]
fn log_paths_are_planned() {
    assert!(matches!(tracing_log_path(words(&["show", "-h"])), LogPlan::Nowhere));
    assert!(matches!(tracing_log_path(words(&["--config"])), LogPlan::State));
    assert!(matches!(tracing_log_path(Vec::new()), LogPlan::State));
    assert!(matches!(tracing_log_path(words(&["init"])), LogPlan::State));
    assert!(matches!(
        tracing_log_path(words(&["status", "--config", "/c"])),
        LogPlan::Configured(Some(path)) if path == "/c"
    ));
    assert!(matches!(tracing_log_path(words(&["nothing"])), LogPlan::Configured(None)));
    let home = vec![Variable { name: "HOME".to_string(), value: "/home/me".to_string() }];
    assert_eq!(
        chosen_log_path(Some("~/logs"), &home, "/"),
        Some("/home/me/logs/application.log".to_string())
    );
    assert_eq!(
        chosen_log_path(None, &home, "/"),
        Some("/home/me/.local/state/intake/logs/application.log".to_string())
    );
    assert_eq!(chosen_log_path(None, &Vec::new(), "/"), None);
}

#[test]
fn configurations_are_diagnosed() {
    let mut wrong = config();
    wrong.sources = vec![source("a"), source("b"), source("a")];
    wrong.commands.rules = vec![rule("ls"), rule("ls")];
    let found = validate_configuration(&wrong, &vec![true, false], words(&["bad skill"]));
    assert_eq!(
        found,
        words(&[
            "duplicate source name: a",
            "duplicate command rule: ls",
            "command PATH directory is unavailable: /bin",
            "bad skill",
        ])
    );
    assert_eq!(
        validation_reply(&found, "/c").unwrap_err(),
        "duplicate source name: a\nduplicate command rule: ls\ncommand PATH directory is unavailable: /bin\nbad skill"
    );
    assert_eq!(validation_reply(&Vec::new(), "/c").unwrap(), "Configuration is valid: /c");
    assert!(require_valid(&Vec::new()).is_ok());
    assert_eq!(
        require_valid(&words(&["a", "b"])).unwrap_err(),
        "Configuration validation failed:\na\nb"
    );
}

#[test]
fn replies_are_worded() {
    assert_eq!(init_reply(false, "/c"), "Private configuration exists at /c");
    assert_eq!(init_reply(true, "/c"), "Created private configuration at /c");
    assert_eq!(injected_file(Some("f")), Ok("f".to_string()));
    assert_eq!(injected_file(None).unwrap_err(), "inject requires an IntakeItem JSON file");
    assert_eq!(injection_checkpoint("then").unwrap(), "{\"injected_at\":\"then\"}");
    assert_eq!(injection_reply(1, "f").unwrap(), "Queued fixture from f.");
    assert_eq!(
        injection_reply(0, "f").unwrap_err(),
        "fixture entity and revision are already queued"
    );
    assert_eq!(unknown_event(3), "Unknown event 3");
    assert_eq!(retry_reply(3, true).unwrap(), "Event 3 is queued for retry.");
    assert_eq!(retry_reply(3, false).unwrap_err(), "Event 3 has no retained content to retry");
    assert_eq!(ignore_reply(3, true).unwrap(), "Event 3 is ignored.");
    assert_eq!(ignore_reply(3, false).unwrap_err(), "Unknown event 3");
    assert_eq!(check_error_lines(&words(&["404"])), words(&["Resource not found (404)"]));
    assert_eq!(write_error("plain"), "intake: plain");
    assert_eq!(write_error("bad token"), "intake: Authentication failed");
    assert_eq!(
        write_error("Fastmail email response is invalid: payload"),
        "intake: Operation failed"
    );
    assert_eq!(run_outcome(Ok(0), Ok(())), Ok(0));
    assert_eq!(run_outcome(Ok(0), Err("down".to_string())), Err("down".to_string()));
    assert_eq!(run_outcome(Err("a".to_string()), Err("b".to_string())), Err("a".to_string()));
}

#[test]
fn status_is_reported() {
    assert_eq!(
        status_report(&Vec::new(), &Vec::new(), &Vec::new()),
        words(&["Queue:", "  empty", "Sources:", "  unchecked"])
    );
    let count = |status: &str, count: usize| QueueCount { status: status.to_string(), count };
    assert_eq!(
        status_report(
            &vec![count("pending", 2), count("failed", 1)],
            &words(&["{}"]),
            &vec![event(5)],
        ),
        words(&[
            "Queue:",
            "  failed: 1",
            "  pending: 2",
            "Sources:",
            "  {}",
            "Recent events:",
            "  5 processing mail: hello",
        ])
    );
}
