use intake::agent::errors::TriageError;
use intake::agent::process::ProcessOutput;
use intake::config::{
    CommandsConfig, IntakeConfig, SkillsConfig, SourceConfig, SourceOption, StateConfig,
    TriageConfig, Variable,
};
use intake::database::operations::WriteOperation;
use intake::database::records::DatabaseError;
use intake::monitor::{
    failed_notice, handled_notice, poll_failure_notice, poll_notice, safe_error_category,
    safe_message_category, schedule_step, settlement, source_failure_category, watch_notice,
    worker_step, Check, CheckAction, CheckEvent, CheckResult, RecoveryClock, ScheduleAction,
    ScheduleEvent, WorkerAction, WorkerEvent,
};
use intake::project_registry::{
    accept_paths, accept_project, check_project_place, check_registry_file, check_replacement,
    check_repository_place, ensure_project_registry, git_output, github_repositories,
    github_repository, inspect_project, is_project_of, likely_candidates, parse_project_paths,
    read_registry, read_remotes, repository_of_url, repository_pair, repository_root,
    temporary_name, validate_project_registry_write, ProjectInventory, ProjectInventoryEntry,
    RegistryProbe, MAX_PROJECTS,
};
use intake::protocol::{
    check_input, parse_poll_request, parse_poll_response, IntakeItem, IntakeItemKind, PollRequest,
    PollResponse, ProtocolError,
};
use intake::source_runner::{
    accept_output, accept_response, accept_stream, check_request, diagnostic_text, exit_status,
    poll_failure, poll_request, redact_source_error, request_options, secret_values,
    source_environment, SourceEvent, SourceExit, SourceOutput, SourceRunnerError, SourceStep,
    SourceSupervision,
};
use intake::urls::UrlParts;

fn texts(list: &[&str]) -> Vec<String> {
    list.iter().map(|item| item.to_string()).collect()
}

fn environment(list: &[(&str, &str)]) -> Vec<Variable> {
    list.iter()
        .map(|(name, value)| Variable { name: name.to_string(), value: value.to_string() })
        .collect()
}

fn value_of(list: &[Variable], name: &str) -> Option<String> {
    list.iter().rev().find(|variable| variable.name == name).map(|variable| variable.value.clone())
}

fn source() -> SourceConfig {
    SourceConfig {
        name: "mail".to_string(),
        command: "mail".to_string(),
        args: Vec::new(),
        interval_seconds: 60,
        timeout_seconds: 30,
        item_limit: 2,
        environment: texts(&["MAIL_TOKEN", "PATH", "UNSET"]),
        options: vec![SourceOption { key: "folder".to_string(), value: "\"inbox\"".to_string() }],
    }
}

fn config() -> IntakeConfig {
    IntakeConfig {
        version: 1,
        project_roots: texts(&["/work"]),
        state: StateConfig { database: "/db".to_string(), logs: "~/logs".to_string() },
        skills: SkillsConfig { directories: Vec::new(), approved_roots: Vec::new() },
        sources: vec![source()],
        triage: TriageConfig::default(),
        commands: CommandsConfig {
            path: texts(&["/usr/bin", "/bin"]),
            timeout_seconds: 60,
            max_output_bytes: 65_536,
            sensitive_patterns: Vec::new(),
            rules: Vec::new(),
        },
    }
}

fn item() -> IntakeItem {
    IntakeItem {
        entity_id: "e".to_string(),
        revision_id: "r".to_string(),
        kind: IntakeItemKind::Email,
        title: "t".to_string(),
        body: "b".to_string(),
        url: Some("https://example.com/x".to_string()),
        occurred_at: "2026-01-02T03:04:05Z".to_string(),
        metadata: "{}".to_string(),
    }
}

#[test]
fn items_are_checked() {
    assert_eq!(item().validate(), Ok(()));
    let mut wrong = item();
    wrong.url = Some("not a url".to_string());
    assert!(wrong.validate().unwrap_err().contains("url"));
    let mut wrong = item();
    wrong.occurred_at = "2026-01-02 03:04:05".to_string();
    assert_eq!(wrong.validate().unwrap_err(), "occurredAt: must be a UTC date-time ending in Z");
    wrong.occurred_at = "2026-01-02T03:04:0xZ".to_string();
    assert!(wrong.validate().is_err());
    wrong.occurred_at = "2026-01-02T3:04Z".to_string();
    assert_eq!(wrong.validate().unwrap_err(), "occurredAt: invalid UTC date-time");
    let mut wrong = item();
    wrong.entity_id = String::new();
    assert_eq!(
        wrong.validate().unwrap_err(),
        "entityId: must contain between 1 and 1024 UTF-16 code units"
    );
}

#[test]
fn requests_are_checked() {
    let request = PollRequest {
        protocol_version: 1,
        source: "mail".to_string(),
        checkpoint: "null".to_string(),
        now: "2026-01-02T03:04:05Z".to_string(),
        item_limit: 1,
        options: "{}".to_string(),
    };
    assert!(request.validate().is_ok());
    let mut wrong = request.clone();
    wrong.protocol_version = 2;
    let error = wrong.validate().unwrap_err();
    assert_eq!(error.message(), "invalid poll request: protocolVersion must equal 1");
    let mut wrong = request.clone();
    wrong.item_limit = 1001;
    assert!(wrong.validate().is_err());
    let mut wrong = request;
    wrong.source = String::new();
    assert_eq!(
        wrong.validate().unwrap_err().message(),
        "invalid poll request: source must not be empty"
    );
    assert!(matches!(
        parse_poll_request(Err("eof".to_string())),
        Err(ProtocolError::InvalidJson(message)) if message == "eof"
    ));
    assert!(check_input(8_388_608).is_ok());
    assert!(matches!(check_input(8_388_609), Err(ProtocolError::InputTooLarge)));
}

#[test]
fn responses_are_checked() {
    let response =
        PollResponse { protocol_version: 1, checkpoint: "1".to_string(), items: vec![item(), item()] };
    let taken = accept_response(Ok(response.clone()), 2).unwrap();
    assert_eq!((taken.checkpoint.as_str(), taken.items.len()), ("1", 2));
    let error = accept_response(Ok(response.clone()), 1).unwrap_err();
    assert_eq!(error.message(), "source returned 2 items for a limit of 1");
    let mut wrong = response.clone();
    wrong.items[1].entity_id = String::new();
    assert!(matches!(
        parse_poll_response(Ok(wrong.clone())),
        Err(ProtocolError::InvalidResponse(message)) if message.starts_with("items.1.")
    ));
    let mut old = response.clone();
    old.protocol_version = 2;
    assert!(matches!(
        parse_poll_response(Ok(old)),
        Err(ProtocolError::InvalidResponse(message)) if message == "protocolVersion must equal 1"
    ));
    let error = accept_response(Err("no object".to_string()), 2).unwrap_err();
    assert_eq!(
        error.message(),
        "source response failed validation: invalid poll response: no object"
    );
    let error = accept_response(Ok(wrong), 2).unwrap_err();
    assert!(matches!(error, SourceRunnerError::Schema(_)));
    assert!(error.message().contains("items.1."));
    assert_eq!(source_failure_category(&error), "protocol");
}

#[test]
fn requests_are_built() {
    let options = request_options(&source(), &config()).unwrap();
    assert!(options.contains("\"project_roots\":[\"/work\"]"));
    assert!(options.contains("\"folder\":\"inbox\""));
    let request = poll_request(&source(), "null", "2026-01-02T03:04:05Z", &options).unwrap();
    assert_eq!(request.item_limit, 2);
    assert_eq!(request.options, options);
    let error = poll_request(&source(), "null", "then", "{}").unwrap_err();
    assert_eq!(
        error.message(),
        "source response failed validation: invalid poll request: now: must be a UTC date-time ending in Z"
    );
    assert!(check_request(8_388_608).is_ok());
    assert_eq!(
        check_request(8_388_609).unwrap_err().message(),
        "source request exceeded 8388608 bytes"
    );
}

#[test]
fn own_options_override_the_common_ones() {
    let mut own = source();
    own.options = vec![SourceOption { key: "project_roots".to_string(), value: "7".to_string() }];
    assert_eq!(request_options(&own, &config()).unwrap(), "{\"project_roots\":7}");
    own.options = vec![SourceOption { key: "x".to_string(), value: "{".to_string() }];
    assert!(request_options(&own, &config()).is_err());
}

#[test]
fn environments_are_built() {
    let outer = environment(&[("MAIL_TOKEN", "s3cret"), ("PATH", "/evil"), ("HOME", "/home/me"), ("OTHER", "x")]);
    let built = source_environment(&source(), &config(), &outer, "/");
    assert_eq!(value_of(&built, "MAIL_TOKEN"), Some("s3cret".to_string()));
    assert_eq!(value_of(&built, "PATH"), Some("/usr/bin:/bin".to_string()));
    assert_eq!(value_of(&built, "HOME"), Some("/home/me".to_string()));
    assert_eq!(value_of(&built, "LANG"), Some("C.UTF-8".to_string()));
    assert_eq!(value_of(&built, "LC_ALL"), Some("C.UTF-8".to_string()));
    assert_eq!(value_of(&built, "NO_COLOR"), Some("1".to_string()));
    assert_eq!(value_of(&built, "INTAKE_LOG_PATH"), Some("/home/me/logs/application.log".to_string()));
    assert_eq!(value_of(&built, "OTHER"), None);
    assert_eq!(secret_values(&source(), &built), texts(&["s3cret", "/usr/bin:/bin"]));
    let bare = source_environment(&source(), &config(), &Vec::new(), "/");
    assert_eq!(value_of(&bare, "HOME"), Some(String::new()));
    assert_eq!(value_of(&bare, "INTAKE_LOG_PATH"), None);
}

#[test]
fn secrets_are_hidden() {
    let secrets = texts(&["abc", "abcdef", "", "abc"]);
    assert_eq!(
        redact_source_error("bad abcdef and abc", &secrets),
        "bad [REDACTED] and [REDACTED]"
    );
    // A value that is part of the mark is replaced once, and shows in the mark.
    assert_eq!(redact_source_error("x RED", &texts(&["RED", "RED"])), "x [REDACTED]");
    assert_eq!(redact_source_error("token=zzz", &Vec::new()), "token=[REDACTED]");
}

#[test]
fn failures_are_reported() {
    let secrets = texts(&["abc"]);
    let error = poll_failure("shown".to_string(), Ok(()), &secrets);
    assert_eq!(error.message(), "shown");
    let cause = DatabaseError::InvalidValue("abc is wrong".to_string());
    let error = poll_failure("shown".to_string(), Err(cause), &secrets);
    assert!(error.message().starts_with(
        "source poll failed and its failure could not be recorded: shown; "
    ));
    assert!(error.message().contains("[REDACTED] is wrong"));
    assert_eq!(source_failure_category(&error), "database");
}

fn exit(code: Option<i32>) -> SourceExit {
    SourceExit { code, description: "signal: 9".to_string() }
}

fn advance(state: SourceSupervision, event: SourceEvent) -> SourceSupervision {
    let (next, step) = state.supervise(event);
    assert!(matches!(step, SourceStep::Wait));
    next.unwrap()
}

#[test]
fn processes_are_supervised_to_the_end() {
    let state = advance(SourceSupervision::start(), SourceEvent::Exited(Ok(exit(Some(0)))));
    let state = advance(state, SourceEvent::InputWritten(Ok(())));
    let state = advance(state, SourceEvent::Output(Ok(b"{}".to_vec())));
    match state.supervise(SourceEvent::Diagnostics(Ok(Vec::new()))) {
        (None, SourceStep::Done(output)) => {
            assert_eq!(output.stdout, b"{}".to_vec());
            assert_eq!(accept_output(&output).unwrap(), "{}");
        }
        _ => panic!("not done"),
    }
}

#[test]
fn lost_input_counts_only_after_success() {
    let failed = |code: Option<i32>| {
        let state = advance(
            SourceSupervision::start(),
            SourceEvent::InputWritten(Err("broken pipe".to_string())),
        );
        let state = advance(state, SourceEvent::Output(Ok(Vec::new())));
        let state = advance(state, SourceEvent::Diagnostics(Ok(b" why ".to_vec())));
        state.supervise(SourceEvent::Exited(Ok(exit(code)))).1
    };
    match failed(Some(0)) {
        SourceStep::Stop(error) => {
            assert_eq!(error.message(), "source standard stream error: broken pipe")
        }
        _ => panic!("not stopped"),
    }
    match failed(Some(3)) {
        SourceStep::Done(output) => {
            assert_eq!(accept_output(&output).unwrap_err().message(), "source exited 3: why")
        }
        _ => panic!("not done"),
    }
}

#[test]
fn supervision_stops_on_errors() {
    let stopped = |event: SourceEvent| match SourceSupervision::start().supervise(event) {
        (None, SourceStep::Stop(error)) => error.message(),
        _ => panic!("not stopped"),
    };
    assert_eq!(stopped(SourceEvent::TimedOut), "source poll timed out");
    assert_eq!(
        stopped(SourceEvent::Exited(Err("no child".to_string()))),
        "source standard stream error: no child"
    );
    assert_eq!(
        stopped(SourceEvent::InputLost("panic".to_string())),
        "source standard stream error: panic"
    );
    let large = accept_stream(vec![0; 5], 4, "output").unwrap_err();
    assert_eq!(stopped(SourceEvent::Output(Err(large))), "source standard output exceeded 4 bytes");
    assert_eq!(accept_stream(vec![0; 4], 4, "output").unwrap().len(), 4);
}

#[test]
fn outputs_are_judged() {
    let output = |code: Option<i32>, stdout: &[u8], stderr: &[u8]| SourceOutput {
        exit: exit(code),
        stdout: stdout.to_vec(),
        stderr: stderr.to_vec(),
    };
    assert_eq!(accept_output(&output(Some(0), b" [1] \n", b"")).unwrap(), "[1]");
    let error = accept_output(&output(Some(0), &[0xff], b"")).unwrap_err();
    assert!(matches!(error, SourceRunnerError::Utf8(_)));
    assert!(error.message().contains("invalid utf-8 sequence"));
    assert_eq!(source_failure_category(&error), "stream");
    let error = accept_output(&output(Some(0), b"{", b"")).unwrap_err();
    assert!(matches!(error, SourceRunnerError::Json(_)));
    let error = accept_output(&output(None, b"", b"")).unwrap_err();
    assert_eq!(error.message(), "source exited signal: 9: no diagnostics");
    assert_eq!(source_failure_category(&error), "exit");
    assert_eq!(diagnostic_text(&[b'a', 0xff]), "a\u{fffd}");
    assert_eq!(exit_status(&exit(Some(-1))), "-1");
}

#[test]
fn failure_categories_are_named() {
    assert_eq!(source_failure_category(&SourceRunnerError::RequestTooLarge), "limit");
    assert_eq!(source_failure_category(&SourceRunnerError::Spawn("x".to_string())), "spawn");
    assert_eq!(source_failure_category(&SourceRunnerError::Timeout), "timeout");
    assert_eq!(
        source_failure_category(&SourceRunnerError::Poll("rate limit".to_string())),
        "rate_limit"
    );
    assert_eq!(safe_message_category("404"), "unknown");
    assert_eq!(safe_error_category(&TriageError::WallTimeout), "timeout");
    assert_eq!(safe_error_category(&TriageError::Io("connection lost".to_string())), "connection");
    assert_eq!(safe_error_category(&TriageError::Io("odd".to_string())), "unknown");
}

#[test]
fn checks_are_summed_up() {
    let mut result = CheckResult::default();
    result.polled(Ok(3));
    result.polled(Err("down".to_string()));
    result.triaged(4, None);
    result.triaged(5, Some("bad".to_string()));
    assert_eq!(result.observed, 3);
    assert_eq!(result.errors, texts(&["down", "event 5: bad"]));
    assert_eq!(result.summary(), "Observed 3; handled 1; errors 2.");
    assert_eq!(result.exit_code(), 1);
    assert_eq!(CheckResult::default().exit_code(), 0);
}

#[test]
fn checks_poll_every_source_before_they_claim() {
    let mut check = Check::new(2);
    assert_eq!(check.step(CheckEvent::Started), CheckAction::Poll);
    assert_eq!(check.step(CheckEvent::Claimed(Some(1))), CheckAction::Ignore);
    assert_eq!(check.step(CheckEvent::Polled(Ok(2))), CheckAction::Wait);
    assert_eq!(check.step(CheckEvent::Free { stopping: false }), CheckAction::Ignore);
    assert_eq!(check.step(CheckEvent::Polled(Err("down".to_string()))), CheckAction::Look);
    assert_eq!(check.step(CheckEvent::Free { stopping: false }), CheckAction::Claim);
    assert_eq!(check.step(CheckEvent::Claimed(Some(7))), CheckAction::Triage(7));
    assert_eq!(check.step(CheckEvent::Triaged(None)), CheckAction::Look);
    assert_eq!(check.step(CheckEvent::Free { stopping: false }), CheckAction::Claim);
    assert_eq!(check.step(CheckEvent::Claimed(Some(8))), CheckAction::Triage(8));
    assert_eq!(check.step(CheckEvent::Triaged(Some("bad".to_string()))), CheckAction::Look);
    assert_eq!(check.step(CheckEvent::Free { stopping: false }), CheckAction::Claim);
    assert_eq!(check.step(CheckEvent::Claimed(None)), CheckAction::Finish);
    assert_eq!(check.step(CheckEvent::Started), CheckAction::Ignore);
    let result = check.into_result();
    assert_eq!((result.observed, result.handled), (2, 1));
    assert_eq!(result.errors, texts(&["down", "event 8: bad"]));
}

#[test]
fn checks_without_sources_go_straight_on() {
    let mut check = Check::new(0);
    assert!(check.can_take(&CheckEvent::Polled(Ok(usize::MAX))));
    assert_eq!(check.step(CheckEvent::Started), CheckAction::Look);
    assert_eq!(check.step(CheckEvent::Free { stopping: true }), CheckAction::Finish);
    let mut full = Check::new(2);
    full.step(CheckEvent::Started);
    full.step(CheckEvent::Polled(Ok(usize::MAX)));
    assert!(!full.can_take(&CheckEvent::Polled(Ok(1))));
}

#[test]
fn workers_and_schedules_stop_when_told() {
    assert_eq!(
        worker_step(WorkerEvent::Free { stopping: false }),
        WorkerAction::Claim
    );
    assert_eq!(worker_step(WorkerEvent::Claimed(None)), WorkerAction::Pause);
    assert_eq!(worker_step(WorkerEvent::Claimed(Some(3))), WorkerAction::Triage(3));
    assert_eq!(worker_step(WorkerEvent::Free { stopping: true }), WorkerAction::Stop);
    assert_eq!(worker_step(WorkerEvent::Waited { cancelled: true }), WorkerAction::Stop);
    assert_eq!(worker_step(WorkerEvent::Waited { cancelled: false }), WorkerAction::Look);
    assert_eq!(
        schedule_step(ScheduleEvent::Due { first: true, stopping: false }),
        ScheduleAction::Poll
    );
    assert_eq!(
        schedule_step(ScheduleEvent::Due { first: false, stopping: false }),
        ScheduleAction::Wait
    );
    assert_eq!(
        schedule_step(ScheduleEvent::Waited { cancelled: true, stopping: false }),
        ScheduleAction::Stop
    );
}

#[test]
fn recovery_is_spaced() {
    let mut clock = RecoveryClock::new();
    assert_eq!(clock.due(1_000_000, 2), Some(1_000_000 - 120_000 - 60_000));
    assert_eq!(clock.due(1_059_999, 2), None);
    assert_eq!(clock.due(1_060_000, 2), Some(1_060_000 - 180_000));
}

#[test]
fn events_are_settled() {
    let triage = TriageConfig::default();
    assert!(matches!(
        settlement(3, None, &triage, 9),
        WriteOperation::Succeed { event_id: 3, now: 9 }
    ));
    match settlement(3, Some("bad"), &triage, 9) {
        WriteOperation::Fail { event_id, error, max_attempts, retry_base_seconds, now } => {
            assert_eq!((event_id, max_attempts, retry_base_seconds, now), (3, 3, 60, 9));
            assert_eq!(error, "bad");
        }
        _ => panic!("not a failure"),
    }
}

#[test]
fn notices_are_worded() {
    let mut often = source();
    often.name = "chat".to_string();
    often.interval_seconds = 1;
    assert_eq!(
        watch_notice(&vec![source(), often]),
        "Watching mail every 60 seconds, chat every 1 second. Press Ctrl-C to stop."
    );
    assert_eq!(
        watch_notice(&Vec::new()),
        "Watching no configured sources. Press Ctrl-C to stop."
    );
    assert_eq!(poll_notice("mail", 0), None);
    assert_eq!(poll_notice("mail", 1), Some("mail: queued 1 event".to_string()));
    assert_eq!(poll_notice("mail", 2), Some("mail: queued 2 events".to_string()));
    assert_eq!(poll_failure_notice("mail", "404"), "mail: Resource not found (404)");
    assert_eq!(handled_notice(3, "x"), "event 3: handled x");
    assert_eq!(failed_notice(3), "event 3: triage failed");
}

#[test]
fn registries_are_read() {
    assert_eq!(ensure_project_registry(RegistryProbe::RegularFile), Ok(false));
    assert_eq!(ensure_project_registry(RegistryProbe::Missing), Ok(true));
    assert!(ensure_project_registry(RegistryProbe::Other).is_err());
    assert!(check_registry_file(true, 65_536).is_ok());
    assert_eq!(
        check_registry_file(true, 65_537).unwrap_err(),
        "project registry exceeds its size limit"
    );
    assert_eq!(check_registry_file(false, 1).unwrap_err(), "project registry is not a regular file");
    assert_eq!(read_registry(&b"- a".to_vec()).unwrap(), "- a");
    assert_eq!(read_registry(&vec![0xff]).unwrap_err(), "project registry is not valid UTF-8");
    assert!(read_registry(&vec![b' '; 65_537]).is_err());
}

#[test]
fn registry_paths_are_listed() {
    assert_eq!(parse_project_paths("- ~/code/a\n- /b\n").unwrap(), texts(&["~/code/a", "/b"]));
    assert_eq!(parse_project_paths("[]").unwrap(), Vec::<String>::new());
    assert_eq!(
        parse_project_paths("a: 1").unwrap_err(),
        "project registry must be a YAML list of paths"
    );
    assert_eq!(
        parse_project_paths("- a\n- 3\n").unwrap_err(),
        "project registry entry 2 must be a path"
    );
    assert!(parse_project_paths("[").unwrap_err().starts_with("invalid project registry YAML: "));
    assert_eq!(
        accept_paths(&Some(vec![Some("a".to_string()), Some("  ".to_string())])).unwrap_err(),
        "project registry entry 2 must be a path"
    );
    let many = Some(vec![Some("a".to_string()); MAX_PROJECTS + 1]);
    assert_eq!(
        accept_paths(&many).unwrap_err(),
        "project registry exceeds its 1000 path limit"
    );
}

fn git(code: Option<i32>, stdout: &[u8]) -> ProcessOutput {
    ProcessOutput {
        exit_code: code,
        stdout: stdout.to_vec(),
        stderr: Vec::new(),
        stdout_truncated: false,
        stderr_truncated: false,
        failure: None,
    }
}

#[test]
fn git_is_understood() {
    assert_eq!(git_output(&git(Some(0), b" /x \n")).unwrap(), Some("/x".to_string()));
    assert_eq!(git_output(&git(Some(1), b"x")).unwrap(), None);
    assert_eq!(git_output(&git(None, b"x")).unwrap(), None);
    assert_eq!(
        git_output(&git(Some(0), &[0xff])).unwrap_err(),
        "Git metadata is not valid UTF-8"
    );
    let mut large = git(Some(0), b"");
    large.stderr_truncated = true;
    assert_eq!(git_output(&large).unwrap_err(), "Git metadata exceeds its size limit");
    assert_eq!(repository_root(None).unwrap_err(), "path is not a Git repository");
}

#[test]
fn places_are_checked() {
    let roots = texts(&["/work"]);
    assert!(check_project_place(Some("/work/a"), &roots, "/").is_ok());
    assert_eq!(check_project_place(None, &roots, "/").unwrap_err(), "path is unavailable");
    assert_eq!(
        check_project_place(Some("/x"), &roots, "/").unwrap_err(),
        "path is outside configured project roots"
    );
    assert_eq!(
        check_repository_place("/x", &roots, "/").unwrap_err(),
        "Git repository is outside configured project roots"
    );
}

#[test]
fn repositories_are_named() {
    assert_eq!(github_repository("git@github.com:me/tool.git"), Some("me/tool".to_string()));
    assert_eq!(github_repository("GIT@GitHub.com:Me/Tool"), Some("Me/Tool".to_string()));
    assert_eq!(github_repository("https://github.com/me/tool.git"), Some("me/tool".to_string()));
    assert_eq!(github_repository("ssh://git@GitHub.com/me/tool"), Some("me/tool".to_string()));
    assert_eq!(github_repository("https://example.com/me/tool"), None);
    assert_eq!(github_repository("https://github.com/me"), None);
    assert_eq!(github_repository("nonsense"), None);
    assert_eq!(repository_pair("a/b/c"), None);
    assert_eq!(repository_pair("/b"), None);
    let parts = UrlParts {
        scheme: "https".to_string(),
        username: String::new(),
        has_password: false,
        host: Some("GITHUB.com".to_string()),
        path: "//a/b".to_string(),
        bare: String::new(),
    };
    assert_eq!(repository_of_url(Some(parts)), Some("a/b".to_string()));
}

#[test]
fn remotes_are_read_once() {
    let output = "remote.origin.url git@github.com:me/tool.git\nremote.other.url /x\r\nremote.again.url git@github.com:me/tool.git\nodd";
    let remotes = read_remotes(output);
    assert_eq!(remotes, texts(&["git@github.com:me/tool.git", "/x"]));
    assert_eq!(github_repositories(&remotes), texts(&["me/tool"]));
    let entry = inspect_project("/work/tool", Some(output.to_string()), Some("origin/main".to_string()));
    assert_eq!(entry.default_branch, Some("main".to_string()));
    assert_eq!(entry.github_repositories, texts(&["me/tool"]));
    let bare = inspect_project("/work/tool", None, None);
    assert!(bare.remotes.is_empty() && bare.default_branch.is_none());
}

fn project(path: &str) -> ProjectInventoryEntry {
    inspect_project(path, Some("r git@github.com:me/tool.git".to_string()), None)
}

#[test]
fn inventories_list_a_place_once() {
    let mut inventory = ProjectInventory::empty();
    inventory.record("a", Ok(project("/work/a")));
    inventory.record("b", Ok(project("/work/a")));
    inventory.record("c", Err("path is unavailable".to_string()));
    assert_eq!(inventory.projects.len(), 1);
    assert_eq!(
        inventory.diagnostics,
        texts(&["duplicate project path: b", "c: path is unavailable"])
    );
    assert_eq!(ProjectInventory::unreadable("x".to_string()).diagnostics, texts(&["x"]));
    let mut projects = Vec::new();
    assert!(accept_project(&mut projects, "a", Ok(project("/work/a"))).is_ok());
    assert_eq!(
        accept_project(&mut projects, "b", Ok(project("/work/a"))).unwrap_err(),
        "duplicate project path: b"
    );
    assert_eq!(accept_project(&mut projects, "c", Err("x".to_string())).unwrap_err(), "x");
    assert_eq!(projects.len(), 1);
}

#[test]
fn likely_projects_are_found() {
    let roots = texts(&["/work", "/other"]);
    assert_eq!(likely_candidates("me/tool", &roots), texts(&["/work/tool", "/other/tool"]));
    assert!(likely_candidates("me/tool/x", &roots).is_empty());
    assert!(likely_candidates("/tool", &roots).is_empty());
    assert!(likely_candidates("me/", &roots).is_empty());
    assert!(is_project_of(&project("/work/tool"), "ME/Tool"));
    assert!(!is_project_of(&project("/work/tool"), "me/other"));
}

#[test]
fn registry_writes_are_confined() {
    let home = environment(&[("HOME", "/home/me")]);
    let check = |path: &str, canonical: Option<&str>| {
        validate_project_registry_write(path, "~/projects.yaml", canonical, &home, "/")
    };
    assert!(check("~/x/../projects.yaml", Some("/real/projects.yaml")).is_ok());
    assert!(check("/real/projects.yaml", Some("/real/projects.yaml")).is_ok());
    assert_eq!(
        check("/etc/passwd", Some("/real/projects.yaml")).unwrap_err(),
        "write access is limited to the project registry"
    );
    assert_eq!(
        check("~/projects.yaml", None).unwrap_err(),
        "project registry is unavailable: /home/me/projects.yaml"
    );
    assert_eq!(
        validate_project_registry_write("~/a", "~/a", None, &Vec::new(), "/").unwrap_err(),
        "HOME is not set"
    );
    assert!(check_replacement(false).is_ok());
    assert!(check_replacement(true).is_err());
    assert_eq!(temporary_name(12, 3), ".projects.yaml.12.3.tmp");
}
