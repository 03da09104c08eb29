use intake::cli::read_status;
use intake::dashboard::dashboard_snapshot;
use intake::database::operations::{WriteOperation, WriteReply};
use intake::database::queue::backoff_seconds;
use intake::database::records::{
    moment, reported_usage, saturating_i64, timestamp, CompactionFinish, CompactionId,
    DatabaseError, DispatchTrigger, EventStatus, RetryId, RetryStart, RunFinish, RunId,
    RunMetadata, RunOutcome, SpanOutcome, ToolId, TriageDecision, TurnFinish, TurnId, Usage,
    LAST_MOMENT,
};
use intake::database::rules::{
    bounded_detail, find_aven_reference, find_workmux_handle, safe_stop_reason,
    safe_termination_reason, safe_tool_name, valid_handle,
};
use intake::database::runs::fallback_conclusion;
use intake::database::schema::{
    database_identity, owner_lock_path, pending_migrations, Identity, OpenTarget,
};
use intake::database::sources::{Effect, ReportedItem};
use intake::database::tables::Store;
use intake::errors::ErrorCategory;
use intake::protocol::{IntakeItem, IntakeItemKind};
use intake::run_detail::{run_detail, run_records, safe_event_url, RunDetailOptions};

fn empty() -> Store {
    Store {
        entities: Vec::new(),
        events: Vec::new(),
        runs: Vec::new(),
        turns: Vec::new(),
        steps: Vec::new(),
        retries: Vec::new(),
        compactions: Vec::new(),
        prompts: Vec::new(),
        effects: Vec::new(),
        commands: Vec::new(),
        sources: Vec::new(),
    }
}

fn reported(entity: &str, revision: &str) -> ReportedItem {
    ReportedItem {
        item: IntakeItem {
            entity_id: entity.to_string(),
            revision_id: revision.to_string(),
            kind: IntakeItemKind::Email,
            title: "hello".to_string(),
            body: "body".to_string(),
            url: Some("https://example.com/".to_string()),
            occurred_at: "2026-01-01T00:00:00Z".to_string(),
            metadata: "{}".to_string(),
        },
        payload: "{\"entityId\":\"e\"}".to_string(),
    }
}

fn filled() -> Store {
    let mut store = empty();
    let items = vec![reported("a", "1"), reported("b", "1")];
    assert_eq!(store.source_succeeded("mail", "1", &items, 1000).unwrap(), 2);
    store
}

fn usage() -> Usage {
    Usage {
        input_tokens: 1,
        output_tokens: 2,
        total_tokens: u64::MAX,
        cached_input_tokens: 3,
        cache_creation_input_tokens: 4,
        tool_use_prompt_tokens: 0,
        reasoning_tokens: 5,
    }
}

#[test]
fn reports_are_taken_once() {
    let mut store = filled();
    assert_eq!(
        store.source_succeeded("mail", "2", &vec![reported("a", "1")], 2000).unwrap(),
        0
    );
    assert_eq!(
        store.source_succeeded("mail", "3", &vec![reported("a", "2")], 3000).unwrap(),
        1
    );
    assert_eq!(store.events.len(), 3);
    assert_eq!(store.entities.len(), 2);
    assert_eq!(store.events[0].next_dispatch_trigger, DispatchTrigger::Initial);
    assert_eq!(store.events[2].next_dispatch_trigger, DispatchTrigger::Revision);
    assert_eq!(store.source_checkpoint("mail").unwrap(), "3");
    assert_eq!(store.source_checkpoint("other").unwrap(), "null");
    let sources = store.source_statuses().unwrap();
    assert_eq!(sources.len(), 1);
    assert_eq!(sources[0].source, "mail");
    assert_eq!(sources[0].last_success_at, Some("1970-01-01T00:00:03.000Z".to_string()));
    assert_eq!(sources[0].updated_at, "1970-01-01T00:00:03.000Z");
    let metadata = &store.entities[0].operational_metadata;
    assert!(metadata.contains("\"url\":\"https://example.com/\""));
    assert!(metadata.contains("\"kind\":\"email\""));
    let event = store.event(1).unwrap().unwrap();
    assert_eq!(safe_event_url(&event), Some("https://example.com/".to_string()));
}

#[test]
fn injected_items_say_so() {
    let mut store = empty();
    store.source_succeeded("manual-injection", "1", &vec![reported("a", "1")], 1).unwrap();
    assert_eq!(store.events[0].next_dispatch_trigger, DispatchTrigger::ManualInjection);
}

#[test]
fn failed_polls_keep_the_checkpoint() {
    let mut store = filled();
    store.source_failed("mail", "down", 5000);
    store.source_failed("chat", "x", 6000);
    assert_eq!(store.source_checkpoint("mail").unwrap(), "1");
    assert_eq!(store.sources[0].last_error, Some("down".to_string()));
    assert_eq!(store.sources[0].last_success_at, Some(1000));
    assert_eq!(store.sources[1].checkpoint, None);
    store.source_failed("mail", &"e".repeat(5000), 7000);
    assert_eq!(store.sources[0].last_error.as_ref().unwrap().len(), 4096);
}

#[test]
fn events_are_claimed_in_order() {
    let mut store = filled();
    store.source_succeeded("mail", "2", &vec![reported("a", "2")], 500).unwrap();
    // The later revision was seen at an earlier moment, and so comes first.
    assert_eq!(store.claim_next(9000).unwrap(), Some(3));
    // The first revision waits for it.
    assert_eq!(store.claim_next(9000).unwrap(), Some(2));
    assert_eq!(store.claim_next(9000).unwrap(), None);
    store.succeed(3, 9500);
    assert_eq!(store.claim_next(9600).unwrap(), Some(1));
    let record = store.event(1).unwrap().unwrap();
    assert_eq!(record.status, EventStatus::Processing);
    assert_eq!(record.attempt_count, 1);
    assert_eq!(record.source, "mail");
    assert!(store.event(99).unwrap().is_none());
}

#[test]
fn failures_back_off_and_settle() {
    assert_eq!(backoff_seconds(1, 60), 60);
    assert_eq!(backoff_seconds(3, 60), 240);
    assert_eq!(backoff_seconds(30, 60), 32_212_254_720);
    assert_eq!(backoff_seconds(u32::MAX, 60), u64::MAX);
    let mut store = filled();
    assert_eq!(store.claim_next(2000).unwrap(), Some(1));
    store.fail(1, "bad", 2, 60, 3000).unwrap();
    assert_eq!(store.events[0].status, EventStatus::Retryable);
    assert_eq!(store.events[0].next_attempt_at, Some(63_000));
    assert_eq!(store.events[0].next_dispatch_trigger, DispatchTrigger::BackoffRetry);
    assert_eq!(store.claim_next(62_999).unwrap(), Some(2));
    assert_eq!(store.claim_next(63_000).unwrap(), Some(1));
    store.fail(1, "bad", 2, 60, 64_000).unwrap();
    assert_eq!(store.events[0].status, EventStatus::Failed);
    assert_eq!(store.events[0].next_attempt_at, None);
    assert!(matches!(store.fail(77, "x", 1, 1, 1), Err(DatabaseError::UnknownEvent(77))));
}

#[test]
fn settled_events_drop_their_payload() {
    let mut store = filled();
    assert_eq!(store.claim_next(2000).unwrap(), Some(1));
    store.succeed(1, 3000);
    assert_eq!(store.events[0].status, EventStatus::Succeeded);
    assert_eq!(store.events[0].payload, None);
    assert_eq!(store.entities[0].handling_status, Some("succeeded".to_string()));
    assert!(!store.retry(1, 4000));
    assert!(store.ignore(2, 4000));
    assert_eq!(store.events[1].payload, None);
    assert!(!store.ignore(99, 4000));
}

#[test]
fn retained_events_are_retried() {
    let mut store = filled();
    assert_eq!(store.claim_next(2000).unwrap(), Some(1));
    store.fail(1, "bad", 1, 60, 3000).unwrap();
    assert!(store.retry(1, 4000));
    assert_eq!(store.events[0].status, EventStatus::Retryable);
    assert_eq!(store.events[0].next_dispatch_trigger, DispatchTrigger::OperatorRetry);
}

#[test]
fn stale_work_is_recovered() {
    let mut store = filled();
    assert_eq!(store.claim_next(2000).unwrap(), Some(1));
    let run = store.start_run(1, 1, 2000).unwrap();
    assert_eq!(store.recover_interrupted(1999, 9000), 0);
    assert_eq!(store.recover_interrupted(2000, 9000), 1);
    assert_eq!(store.events[0].status, EventStatus::Retryable);
    assert_eq!(store.events[0].next_attempt_at, Some(9000));
    assert_eq!(store.events[0].next_dispatch_prior_run_id, Some(run.0));
    assert_eq!(store.runs[0].outcome, Some(RunOutcome::Interrupted));
    assert_eq!(store.runs[0].termination_reason, Some("process_exit".to_string()));
    assert_eq!(store.runs[0].ended_at, Some(9000));
}

#[test]
fn runs_are_recorded() {
    let mut store = filled();
    assert_eq!(store.claim_next(2000).unwrap(), Some(1));
    let run = store.start_run(1, 1, 2000).unwrap();
    assert_eq!(store.runs[0].dispatch_sequence, Some(1));
    assert_eq!(store.runs[0].dispatch_trigger, Some(DispatchTrigger::Initial));
    assert_eq!(store.events[0].next_dispatch_trigger, DispatchTrigger::Unknown);
    store.set_run_metadata(
        run,
        &RunMetadata {
            model_id: Some("m".to_string()),
            model_provider: None,
            thinking_level: None,
            context_window: Some(10),
            max_tokens: None,
        },
        2100,
    );
    assert_eq!(store.runs[0].model_id, Some("m".to_string()));
    assert_eq!(store.runs[0].last_activity_at, 2100);
    store.record_prompt(run, "system", "one", 2200).unwrap();
    store.record_prompt(run, "system", "two", 2300).unwrap();
    assert_eq!(store.prompts.len(), 1);
    assert_eq!(store.prompts[0].content, "two");
    assert_eq!(
        store.record_prompt(run, "tool", "x", 2300).unwrap_err().message(),
        "invalid database value: unknown prompt role tool"
    );
    let turn = store.start_turn(run, 2400).unwrap();
    assert_eq!(store.runs[0].turn_count, 1);
    let tool = store.start_tool(run, Some(turn), "read", &Some("a file".to_string()), 2500).unwrap();
    store.finish_tool(run, tool, SpanOutcome::Succeeded, 2600).unwrap();
    assert!(matches!(
        store.finish_tool(run, tool, SpanOutcome::Succeeded, 2700),
        Err(DatabaseError::UnknownSpan)
    ));
    let finish = TurnFinish {
        stop_reason: Some("stop".to_string()),
        usage: reported_usage(Some(&usage()), true),
        context_tokens: Some(7),
        context_window: Some(10),
    };
    store.finish_turn(run, turn, &finish, 2800).unwrap();
    assert_eq!(store.turns[0].usage.total_tokens, Some(i64::MAX));
    assert_eq!(store.turns[0].ended_at, Some(2800));
    assert!(store.finish_turn(run, TurnId(9), &finish, 2800).is_err());
    store.record_assistant_text(run, Some(turn), "words", 2900).unwrap();
    store.record_reasoning(run, None, &Some("thoughts".to_string()), 2900).unwrap();
    assert_eq!(store.steps.len(), 3);
    let steps = store.triage_run_steps(run).unwrap();
    assert_eq!(steps.len(), 3);
    assert_eq!((steps[0].id, steps[0].turn_ordinal), (1, Some(1)));
    assert_eq!(steps[0].label, "read");
    assert_eq!(steps[0].started_at, "1970-01-01T00:00:02.500Z");
    assert_eq!(steps[0].ended_at, Some("1970-01-01T00:00:02.600Z".to_string()));
    assert_eq!(steps[2].turn_ordinal, None);
    let recent = store.recent_triage_run_steps(run, 2).unwrap();
    assert_eq!(recent.iter().map(|step| step.id).collect::<Vec<_>>(), vec![2, 3]);
    let turns = store.triage_run_turns(run).unwrap();
    assert_eq!(turns.len(), 1);
    assert_eq!((turns[0].id, turns[0].ordinal), (turn.0, 1));
    assert_eq!(turns[0].total_tokens, Some(i64::MAX));
    assert_eq!(turns[0].context_tokens, Some(7));
    let prompts = store.triage_run_prompts(run).unwrap();
    assert_eq!(prompts.len(), 1);
    assert_eq!((prompts[0].role.as_str(), prompts[0].content.as_str()), ("system", "two"));
    let record = store.triage_run(run).unwrap().unwrap();
    assert_eq!(record.model_id, Some("m".to_string()));
    assert_eq!(record.dispatch_sequence, Some(1));
    assert_eq!(record.turn_count, 1);
    assert_eq!(record.outcome, None);
    assert!(store.triage_run(RunId(9)).unwrap().is_none());
    store.runs[0].turn_count = 4_294_967_296;
    assert_eq!(
        store.triage_run(run).unwrap_err().message(),
        "SQLite error: Integer 4294967296 out of range at index 21"
    );
    store.runs[0].started_at = i64::MAX;
    assert_eq!(
        store.triage_run(run).unwrap_err().message(),
        "invalid database value: timestamp is out of range"
    );
}

#[test]
fn retries_and_compactions_are_recorded() {
    let mut store = filled();
    store.claim_next(2000).unwrap();
    let run = store.start_run(1, 1, 2000).unwrap();
    let start = RetryStart {
        attempt: 1,
        max_attempts: 3,
        delay_ms: 500,
        error_category: Some(ErrorCategory::RateLimit),
    };
    let retry = store.start_retry(run, None, start, 3000).unwrap();
    assert_eq!(store.retries[0].wait_ended_at, 3500);
    assert_eq!(store.retries[0].error_category, Some("rate_limit".to_string()));
    store.finish_retry(run, retry, SpanOutcome::Failed, None, 4000).unwrap();
    assert!(store.finish_retry(run, RetryId(5), SpanOutcome::Failed, None, 4000).is_err());
    let compaction = store.start_compaction(run, None, "proactive", 4100).unwrap();
    let finish = CompactionFinish {
        outcome: SpanOutcome::Succeeded,
        aborted: false,
        will_retry: false,
        tokens_before: Some(100),
        estimated_tokens_after: Some(10),
        usage: None,
    };
    store.finish_compaction(run, compaction, &finish, 4200).unwrap();
    assert!(store.finish_compaction(run, CompactionId(8), &finish, 4200).is_err());
    assert_eq!(store.compactions[0].tokens_before, Some(100));
    assert_eq!(store.runs[0].retry_count, 1);
    assert_eq!(store.runs[0].compaction_count, 1);
    let retries = store.triage_run_retries(run).unwrap();
    assert_eq!(retries.len(), 1);
    assert_eq!((retries[0].id, retries[0].attempt, retries[0].delay_ms), (retry.0, 1, 500));
    assert_eq!(retries[0].wait_ended_at, "1970-01-01T00:00:03.500Z");
    assert_eq!(retries[0].outcome, Some("failed".to_string()));
    let compactions = store.triage_run_compactions(run).unwrap();
    assert_eq!(compactions.len(), 1);
    assert_eq!(compactions[0].id, compaction.0);
    assert_eq!(compactions[0].reason, Some("proactive".to_string()));
    assert_eq!(compactions[0].estimated_tokens_after, Some(10));
}

#[test]
fn ended_runs_leave_nothing_open() {
    let mut store = filled();
    store.claim_next(2000).unwrap();
    let run = store.start_run(1, 1, 2000).unwrap();
    let turn = store.start_turn(run, 2100).unwrap();
    store.start_tool(run, Some(turn), "read", &None, 2200).unwrap();
    let finish = RunFinish {
        outcome: RunOutcome::Failed,
        termination_reason: "failed".to_string(),
        failure_category: Some(ErrorCategory::Timeout),
        recording_complete: false,
    };
    store.finish_run(run, &finish, None, 5000);
    assert_eq!(store.turns[0].ended_at, Some(5000));
    assert_eq!(store.steps[0].ended_at, Some(5000));
    assert_eq!(store.runs[0].ended_at, Some(5000));
    assert_eq!(store.runs[0].failure_category, Some("timeout".to_string()));
    assert_eq!(store.runs[0].telemetry_completeness, "partial");
    let conclusion = store.runs[0].conclusion.clone().unwrap();
    assert_eq!(conclusion.decision, fallback_conclusion(&finish).decision);
    assert_eq!(conclusion.decision, TriageDecision::TimedOut);
}

#[test]
fn commands_leave_effects() {
    let mut store = filled();
    store.claim_next(2000).unwrap();
    let run = store.start_run(1, 1, 2000).unwrap();
    store.record_command(1, "aven", 0, "Created ABC-123", 3000);
    assert_eq!(store.commands.len(), 1);
    assert_eq!(store.commands[0].command, "tool=aven");
    assert_eq!(store.commands[0].output_summary, "bytes=15");
    assert_eq!(find_aven_reference("Created ABC-123"), Some("ABC-123".to_string()));
    assert_eq!(store.entities[0].aven_ref, Some("ABC-123".to_string()));
    assert_eq!(store.effects.len(), 1);
    assert_eq!(store.effects[0].value, "ABC-123");
    let effects = store.triage_run_effects(run).unwrap();
    assert_eq!(effects.len(), 1);
    assert_eq!(effects[0].effect_type, "aven_reference");
    assert_eq!(effects[0].value, "ABC-123");
    assert_eq!(effects[0].recorded_at, "1970-01-01T00:00:03.000Z");
    store.record_command(1, "workmux", 0, "Handle: fix-it now", 3000);
    assert_eq!(store.entities[0].investigation_handle, Some("fix-it".to_string()));
    store.record_command(1, "aven", 1, "Created XYZ-9", 3000);
    assert_eq!(store.entities[0].aven_ref, Some("ABC-123".to_string()));
    assert_eq!(Effect::AvenReference.as_str(), "aven_reference");
    assert_eq!(Effect::InvestigationHandle.as_str(), "investigation_handle");
}

#[test]
fn readers_are_ordered() {
    let mut store = filled();
    store.source_succeeded("mail", "2", &vec![reported("c", "1")], 500).unwrap();
    let numbers = |limit: usize| {
        store.list_events(limit).unwrap().iter().map(|event| event.id).collect::<Vec<_>>()
    };
    assert_eq!(numbers(10), vec![2, 1, 3]);
    assert_eq!(numbers(1), vec![2]);
    assert_eq!(store.list_events(1).unwrap()[0].title, "hello");
    assert_eq!(store.count_events(EventStatus::Pending), 3);
    assert_eq!(store.status(), vec![(EventStatus::Pending, 3)]);
    assert_eq!(
        store.oldest_open_event_at().unwrap(),
        Some("1970-01-01T00:00:00.500Z".to_string())
    );
    assert_eq!(empty().oldest_open_event_at().unwrap(), None);
    store.claim_next(2000).unwrap();
    let run = store.start_run(3, 1, 2000).unwrap();
    store.start_tool(run, None, "read", &None, 2000).unwrap();
    let summaries = store.list_triage_run_summaries(5).unwrap();
    assert_eq!(summaries.len(), 1);
    assert_eq!((summaries[0].run.id, summaries[0].step_count), (run.0, 1));
    let runs = store.triage_runs_for_event(3).unwrap();
    assert_eq!(runs.len(), 1);
    assert_eq!((runs[0].id, runs[0].event_id), (run.0, 3));
    assert!(store.triage_runs_for_event(1).unwrap().is_empty());
    assert_eq!(
        store.status(),
        vec![(EventStatus::Pending, 2), (EventStatus::Processing, 1)]
    );
    store.source_failed("alpha", "down", 9000);
    let sources = store.source_statuses().unwrap();
    let names = sources.iter().map(|source| source.source.as_str()).collect::<Vec<_>>();
    assert_eq!(names, vec!["alpha", "mail"]);
    assert_eq!(sources[0].last_success_at, None);
    store.events[0].observed_at = i64::MAX;
    assert!(store.list_events(10).is_err());
}

#[test]
fn overviews_are_bounded() {
    let mut store = empty();
    let items = (0..120).map(|n| reported(&format!("e{n}"), "1")).collect::<Vec<_>>();
    store.source_succeeded("mail", "1", &items, 1000).unwrap();
    store.source_succeeded("manual-injection", "1", &vec![reported("m", "1")], 900).unwrap();
    for _ in 0..60 {
        let id = store.claim_next(2000).unwrap().unwrap();
        let run = store.start_run(id, 1, 2000).unwrap();
        for _ in 0..20 {
            store.start_tool(run, None, "read", &None, 2100).unwrap();
        }
    }
    let first = store.runs[59].event_id;
    store.succeed(first, 3000);
    let shown = dashboard_snapshot(&store, 5000).unwrap();
    assert_eq!(shown.total, 121);
    assert_eq!(shown.open + shown.counts.failed + shown.handled, 121);
    assert_eq!(shown.events.len(), 100);
    assert_eq!(shown.runs.len(), 50);
    assert_eq!(shown.sources.len(), 1);
    assert!(shown.runs.iter().all(|run| run.steps.len() <= 12));
    assert_eq!(shown.runs.iter().filter(|run| run.state == "active").count(), 49);
    assert!(shown.runs.iter().all(|run| (run.state == "active") == (run.steps.len() == 12)));
    let status = read_status(&store).unwrap();
    let named = status.counts.iter().map(|count| (count.status.as_str(), count.count));
    assert_eq!(
        named.collect::<Vec<_>>(),
        vec![("pending", 61), ("processing", 59), ("succeeded", 1)]
    );
    assert_eq!((status.sources.len(), status.events.len()), (2, 10));
    store.events[0].observed_at = i64::MAX;
    assert!(dashboard_snapshot(&store, 5000).is_err());
    assert!(read_status(&store).is_err());
}

#[test]
fn details_of_runs_are_read() {
    let mut store = filled();
    store.claim_next(2000).unwrap();
    let run = store.start_run(1, 1, 2000).unwrap();
    let turn = store.start_turn(run, 2100).unwrap();
    store.start_tool(run, Some(turn), "read", &None, 2200).unwrap();
    store.record_prompt(run, "system", "be good", 2300).unwrap();
    let records = run_records(&store, run).unwrap().unwrap();
    assert_eq!((records.run.id, records.event.id), (run.0, 1));
    assert_eq!((records.steps.len(), records.turns.len(), records.siblings.len()), (1, 1, 1));
    let options = RunDetailOptions::at(5000);
    let detail = run_detail(&store, run, options).unwrap().unwrap();
    assert_eq!(detail.run.state, "active");
    assert_eq!(detail.prompts[0].content, "be good");
    assert_eq!(detail.sibling_attempts.len(), 1);
    assert!(run_detail(&store, RunId(99), options).unwrap().is_none());
    store.runs[0].event_id = 77;
    assert!(run_records(&store, run).unwrap().is_none());
    store.runs[0].event_id = 1;
    store.turns[0].started_at = i64::MAX;
    assert!(run_detail(&store, run, options).is_err());
}

#[test]
fn operations_are_dispatched() {
    let mut store = filled();
    let claim = WriteOperation::ClaimNext { now: 2000 };
    assert!(store.can_serve(&claim));
    assert!(matches!(store.dispatch_write(claim), Ok(WriteReply::Claimed(Some(1)))));
    let start = WriteOperation::StartRun { event_id: 1, attempt: 1, now: 2000 };
    assert!(matches!(store.dispatch_write(start), Ok(WriteReply::Started(1))));
    let start = WriteOperation::StartRun { event_id: 50, attempt: 1, now: 2000 };
    assert!(matches!(store.dispatch_write(start), Err(DatabaseError::UnknownEvent(50))));
    let finish = WriteOperation::FinishTool {
        run_id: RunId(1),
        tool_id: ToolId(4),
        outcome: SpanOutcome::Failed,
        now: 2000,
    };
    assert!(matches!(store.dispatch_write(finish), Err(DatabaseError::UnknownSpan)));
    let retry = WriteOperation::Retry { event_id: 2, now: 2000 };
    assert!(matches!(store.dispatch_write(retry), Ok(WriteReply::Changed(_))));
    let recover = WriteOperation::RecoverInterrupted { stale_before: 2000, now: 3000 };
    assert!(matches!(store.dispatch_write(recover), Ok(WriteReply::Count(1))));
    let far = WriteOperation::StartRetry {
        run_id: RunId(1),
        turn_id: None,
        retry: RetryStart { attempt: 1, max_attempts: 1, delay_ms: 1, error_category: None },
        now: LAST_MOMENT,
    };
    assert!(!store.can_serve(&far));
    let wrong = WriteOperation::SourceSucceeded {
        source: "mail".to_string(),
        checkpoint: "1".to_string(),
        items: Vec::new(),
        observed_at: 1,
    };
    assert!(matches!(store.dispatch_write(wrong), Ok(WriteReply::Count(0))));
}

#[test]
fn moments_are_written_and_read() {
    assert_eq!(timestamp(0), Some("1970-01-01T00:00:00.000Z".to_string()));
    assert_eq!(timestamp(1_767_225_600_123), Some("2026-01-01T00:00:00.123Z".to_string()));
    assert_eq!(timestamp(i64::MAX), None);
    assert_eq!(moment("2026-01-01T00:00:00.123Z"), Some(1_767_225_600_123));
    assert_eq!(moment("2026-01-01T01:00:00+01:00"), Some(1_767_225_600_000));
    assert_eq!(moment("soon"), None);
}

#[test]
fn usage_is_reported_when_known() {
    let nothing = Usage {
        input_tokens: 0,
        output_tokens: 0,
        total_tokens: 0,
        cached_input_tokens: 0,
        cache_creation_input_tokens: 0,
        tool_use_prompt_tokens: 0,
        reasoning_tokens: 0,
    };
    assert_eq!(reported_usage(Some(&nothing), true).unwrap().input_tokens, Some(0));
    assert!(reported_usage(Some(&usage()), false).is_some());
    assert_eq!(reported_usage(Some(&nothing), false), None);
    assert_eq!(reported_usage(None, true), None);
    let usage = reported_usage(Some(&usage()), true).unwrap();
    assert_eq!(usage.input_tokens, Some(1));
    assert_eq!(usage.cache_read_tokens, Some(3));
    assert_eq!(usage.cache_write_tokens, Some(4));
    assert_eq!(saturating_i64(u64::MAX), i64::MAX);
}

#[test]
fn names_round_trip() {
    for name in ["pending", "processing", "retryable", "succeeded", "failed", "ignored"] {
        assert_eq!(EventStatus::parse(name).unwrap().as_str(), name);
    }
    assert_eq!(
        EventStatus::parse("odd").unwrap_err().message(),
        "invalid database value: unknown event status odd"
    );
    for name in ["initial", "revision", "backoff_retry", "unknown"] {
        assert_eq!(DispatchTrigger::parse(name).unwrap().as_str(), name);
    }
    assert!(DispatchTrigger::parse("odd").is_err());
}

#[test]
fn words_are_made_safe() {
    assert_eq!(safe_stop_reason(&None), None);
    assert_eq!(safe_stop_reason(&Some("stop".to_string())), Some("stop".to_string()));
    assert_eq!(safe_stop_reason(&Some("anything".to_string())), None);
    assert_eq!(safe_termination_reason("completed"), "completed");
    assert_eq!(safe_termination_reason("anything"), "failed");
    assert_eq!(safe_tool_name("bad name!"), "tool");
    assert_eq!(bounded_detail(" abcdef", 3), "abc…");
    assert_eq!(bounded_detail("a\u{1}b\tc", 9), "ab\tc");
    assert!(valid_handle("fix-it"));
    assert!(!valid_handle("fix it"));
    assert_eq!(find_workmux_handle("nothing here"), None);
    assert_eq!(find_workmux_handle("Worktree: /a/fix-it\n"), Some("fix-it".to_string()));
    assert_eq!(find_workmux_handle("HANDLE=b.2"), Some("b.2".to_string()));
    assert_eq!(find_aven_reference("a-123 AB-12 X1-AB3"), Some("X1-AB3".to_string()));
}

#[test]
fn schemas_are_brought_up_to_date() {
    assert_eq!(pending_migrations(&vec![1, 2, 3, 4, 5, 6, 7]).unwrap(), vec![8, 9]);
    assert!(pending_migrations(&vec![1, 2, 3, 4, 5, 6, 7, 8, 9]).unwrap().is_empty());
    assert_eq!(pending_migrations(&Vec::new()).unwrap().len(), 9);
    assert!(matches!(
        pending_migrations(&vec![1, 12]),
        Err(DatabaseError::FutureSchema { found: 12, supported: 9 })
    ));
    assert!(matches!(
        pending_migrations(&vec![1, 3]),
        Err(DatabaseError::MigrationGap { found: 3, position: 2 })
    ));
}

#[test]
fn targets_are_opened() {
    let target = OpenTarget::new(":memory:", 4);
    assert_eq!(target.value, "file:intake-memory-4?mode=memory&cache=shared");
    assert!(target.in_memory);
    let target = OpenTarget::new("/a/b.sqlite", 4);
    assert_eq!(target.value, "/a/b.sqlite");
    assert_eq!(target.directory, Some("/a".to_string()));
    assert!(database_identity(":memory:", false).is_err());
    assert!(matches!(database_identity("/a/b", true), Ok(Identity::Existing)));
    match database_identity("/a/b", false).unwrap() {
        Identity::Planned { directory, name } => {
            assert_eq!((directory.as_str(), name.as_str()), ("/a", "b"))
        }
        Identity::Existing => panic!("it is not there"),
    }
    assert_eq!(owner_lock_path("/a/b").unwrap(), "/a/b.queue-owner.lock");
    assert_eq!(
        owner_lock_path("/").unwrap_err().message(),
        "invalid database value: database path has no file name"
    );
}
