use intake::database::records::{
    EventRecord, EventStatus, TriageCompactionRecord, TriageEffectRecord, TriageRetryRecord,
    TriageRunPromptRecord, TriageRunRecord, TriageStepRecord, TriageTurnRecord,
};
use intake::run_detail::{
    can_add_usage, detail_of, display_run, elapsed, paginate, run_metrics, run_projection,
    timeline_entries, RunDetailOptions, RunRecords, TimelineEntry,
};
use intake::run_durations::{measure, partition_durations, DurationCategory, Interval};

fn at(second: u32) -> String {
    format!("2026-01-01T00:00:{:02}.000Z", second)
}

fn event() -> EventRecord {
    EventRecord {
        id: 1,
        source: "mail".to_string(),
        entity_id: "e".to_string(),
        revision_id: "r".to_string(),
        kind: "email".to_string(),
        title: "t".to_string(),
        payload: None,
        operational_metadata: "{}".to_string(),
        occurred_at: at(0),
        observed_at: at(5),
        status: EventStatus::Processing,
        attempt_count: 1,
        next_attempt_at: None,
        last_error: None,
        aven_ref: None,
        investigation_handle: None,
    }
}

fn run() -> TriageRunRecord {
    TriageRunRecord {
        id: 1,
        event_id: 1,
        attempt: 1,
        started_at: at(10),
        ended_at: Some(at(50)),
        last_activity_at: at(50),
        outcome: Some("succeeded".to_string()),
        termination_reason: Some("completed".to_string()),
        failure_category: None,
        model_id: Some("m".to_string()),
        model_provider: None,
        thinking_level: None,
        context_window: Some(100),
        max_tokens: None,
        telemetry_version: Some(2),
        telemetry_completeness: "complete".to_string(),
        dispatch_sequence: Some(1),
        dispatch_trigger: None,
        dispatch_prior_run_id: None,
        dispatch_scheduled_for: None,
        conclusion: None,
        turn_count: 1,
        retry_count: 1,
        compaction_count: 1,
    }
}

fn turn() -> TriageTurnRecord {
    TriageTurnRecord {
        id: 7,
        ordinal: 1,
        started_at: at(12),
        ended_at: Some(at(40)),
        stop_reason: Some("stop".to_string()),
        input_tokens: Some(10),
        output_tokens: Some(20),
        cache_read_tokens: None,
        cache_write_tokens: None,
        reasoning_tokens: None,
        total_tokens: Some(30),
        context_tokens: Some(60),
        context_window: Some(100),
    }
}

fn step(id: i64, kind: &str, from: u32, to: Option<u32>, outcome: Option<&str>) -> TriageStepRecord {
    TriageStepRecord {
        id,
        turn_id: Some(7),
        turn_ordinal: Some(1),
        kind: kind.to_string(),
        label: "read".to_string(),
        summary: None,
        started_at: at(from),
        ended_at: to.map(at),
        outcome: outcome.map(|value| value.to_string()),
    }
}

fn retry() -> TriageRetryRecord {
    TriageRetryRecord {
        id: 3,
        turn_id: Some(7),
        attempt: 1,
        max_attempts: 2,
        delay_ms: 2000,
        started_at: at(20),
        wait_ended_at: at(22),
        ended_at: Some(at(30)),
        outcome: Some("succeeded".to_string()),
        error_category: Some("rate_limit".to_string()),
    }
}

fn compaction() -> TriageCompactionRecord {
    TriageCompactionRecord {
        id: 4,
        turn_id: Some(99),
        reason: Some("proactive".to_string()),
        started_at: at(30),
        ended_at: Some(at(33)),
        outcome: None,
        aborted: None,
        will_retry: None,
        tokens_before: None,
        estimated_tokens_after: None,
        input_tokens: Some(1),
        output_tokens: None,
        cache_read_tokens: None,
        cache_write_tokens: None,
        reasoning_tokens: None,
        total_tokens: Some(1),
    }
}

fn steps() -> Vec<TriageStepRecord> {
    vec![
        step(1, "tool", 14, Some(18), Some("failed")),
        step(2, "assistant", 18, Some(21), Some("succeeded")),
        step(3, "compaction", 30, Some(33), None),
    ]
}

#[test]
fn durations_are_partitioned() {
    let start = 10_000;
    let end = 50_000;
    let base = 1_767_225_600_000;
    let metrics = partition_durations(
        &run(),
        &steps(),
        &vec![turn()],
        &vec![retry()],
        &vec![compaction()],
        base + start,
        base + end,
    );
    assert_eq!(metrics.wall, 40_000);
    assert_eq!(metrics.setup, Some(2_000));
    assert_eq!(metrics.tool, Some(4_000));
    // The agent spoke from 18 to 21, but from 20 on the run waited for a retry.
    assert_eq!(metrics.thinking, Some(2_000));
    assert_eq!(metrics.retry_wait, Some(2_000));
    assert_eq!(metrics.compaction, Some(3_000));
    assert_eq!(metrics.finalization, Some(10_000));
    assert_eq!(metrics.gaps, Some(17_000));
    let parts = [
        metrics.setup,
        metrics.tool,
        metrics.thinking,
        metrics.retry_wait,
        metrics.compaction,
        metrics.finalization,
        metrics.gaps,
    ];
    assert_eq!(parts.iter().map(|part| part.unwrap()).sum::<i64>(), metrics.wall);
}

#[test]
fn overlapping_intervals_count_once() {
    let intervals = vec![
        Interval { start: 0, end: 10, category: DurationCategory::Thinking },
        Interval { start: 5, end: 15, category: DurationCategory::Tool },
        Interval { start: 6, end: 8, category: DurationCategory::RetryWait },
    ];
    let totals = measure(&intervals, 0, 20);
    assert_eq!(totals.thinking, 5);
    assert_eq!(totals.tool, 8);
    assert_eq!(totals.retry_wait, 2);
    assert_eq!(totals.gaps, 5);
}

#[test]
fn metrics_are_counted() {
    let metrics =
        run_metrics(&run(), &event(), &steps(), &vec![turn()], &vec![retry()], &vec![compaction()], 0);
    assert_eq!(metrics.tool_call_count, Some(1));
    assert_eq!(metrics.failed_tool_count, Some(1));
    assert_eq!(metrics.turn_count, Some(1));
    assert_eq!(metrics.retry_count, Some(1));
    assert_eq!(metrics.compaction_count, Some(1));
    assert_eq!(metrics.usage.input_tokens, Some(11));
    assert_eq!(metrics.usage.output_tokens, Some(20));
    assert_eq!(metrics.usage.cache_read_tokens, None);
    assert_eq!(metrics.usage.total_tokens, Some(31));
    assert_eq!(metrics.peak_context_tokens, Some(60));
    assert_eq!(metrics.source_lag_ms, Some(10_000));
    assert_eq!(metrics.queue_wait_ms, Some(5_000));
    let mut legacy = run();
    legacy.telemetry_completeness = "legacy".to_string();
    let metrics =
        run_metrics(&legacy, &event(), &steps(), &vec![turn()], &vec![retry()], &vec![compaction()], 0);
    assert_eq!(metrics.duration_ms.wall, 40_000);
    assert_eq!(metrics.duration_ms.setup, None);
    assert_eq!(metrics.tool_call_count, None);
    assert_eq!(metrics.turn_count, None);
    let mut active = run();
    active.ended_at = None;
    active.outcome = None;
    let metrics =
        run_metrics(&active, &event(), &Vec::new(), &Vec::new(), &Vec::new(), &Vec::new(), 1_767_225_615_000);
    assert_eq!(metrics.duration_ms.wall, 5_000);
}

#[test]
fn sums_that_do_not_fit_are_noticed() {
    let mut large = turn();
    large.total_tokens = Some(i64::MAX);
    assert!(can_add_usage(&vec![turn()], &vec![compaction()]));
    assert!(!can_add_usage(&vec![large], &vec![compaction()]));
    assert_eq!(elapsed(&at(3), &at(1)), Some(0));
    assert_eq!(elapsed("soon", &at(1)), None);
}

#[test]
fn timelines_are_sorted() {
    let entries = timeline_entries(&run(), &steps(), &vec![turn()], &vec![retry()], &vec![compaction()]);
    assert_eq!(entries.len(), 5);
    assert!(matches!(&entries[0], TimelineEntry::Turn { id: 7, state, .. } if state == "completed"));
    assert!(matches!(&entries[1], TimelineEntry::Span { id: 1, state, .. } if state == "failed"));
    assert!(matches!(&entries[2], TimelineEntry::Span { id: 2, .. }));
    assert!(matches!(&entries[3], TimelineEntry::Retry { turn_ordinal: Some(1), .. }));
    assert!(matches!(
        &entries[4],
        TimelineEntry::Compaction { turn_ordinal: None, state, .. } if state == "interrupted"
    ));
    let mut aborted = turn();
    aborted.stop_reason = Some("aborted".to_string());
    let entries = timeline_entries(&run(), &Vec::new(), &vec![aborted], &Vec::new(), &Vec::new());
    assert!(matches!(&entries[0], TimelineEntry::Turn { state, .. } if state == "interrupted"));
    let mut open = run();
    open.outcome = None;
    let mut running = turn();
    running.ended_at = None;
    let entries = timeline_entries(&open, &Vec::new(), &vec![running], &Vec::new(), &Vec::new());
    assert!(matches!(&entries[0], TimelineEntry::Turn { state, ended_at: None, .. } if state == "active"));
}

#[test]
fn timelines_are_paged() {
    let entries = |from: u64, limit: u64| {
        paginate(
            timeline_entries(&run(), &steps(), &vec![turn()], &vec![retry()], &vec![compaction()]),
            from,
            limit,
        )
    };
    let page = entries(1, 2);
    assert_eq!(page.entries.len(), 2);
    assert_eq!((page.page.returned, page.page.total), (2, 5));
    assert!(page.page.has_more);
    assert_eq!(page.page.next_offset, Some(3));
    let page = entries(4, 600);
    assert_eq!(page.page.limit, 500);
    assert_eq!(page.page.returned, 1);
    assert_eq!(page.page.next_offset, None);
    let page = entries(u64::MAX, 0);
    assert_eq!(page.page.offset, 9_007_199_254_740_991);
    assert_eq!((page.page.limit, page.page.returned), (1, 0));
    assert!(!page.page.has_more);
}

#[test]
fn runs_are_told_in_detail() {
    let mut sibling = run();
    sibling.id = 2;
    sibling.outcome = None;
    sibling.ended_at = None;
    let records = RunRecords {
        run: run(),
        event: event(),
        steps: steps(),
        turns: vec![turn()],
        retries: vec![retry()],
        compactions: vec![compaction()],
        siblings: vec![run(), sibling.clone()],
        effects: vec![TriageEffectRecord {
            effect_type: "aven_reference".to_string(),
            value: "A-123".to_string(),
            recorded_at: at(20),
        }],
        prompts: vec![TriageRunPromptRecord {
            role: "system".to_string(),
            content: "be good".to_string(),
            recorded_at: at(11),
        }],
    };
    let mut options = RunDetailOptions::at(0);
    assert_eq!((options.offset, options.limit), (0, 200));
    options.max_turns = Some(50);
    let detail = detail_of(records, options);
    assert_eq!(detail.generated_at, Some("1970-01-01T00:00:00.000Z".to_string()));
    assert_eq!(detail.run.state, "succeeded");
    assert_eq!(detail.run.telemetry.schema_version, Some(2));
    assert_eq!(detail.sibling_attempts.len(), 2);
    assert_eq!(detail.sibling_attempts[1].state, "active");
    assert_eq!(detail.effects[0].value, "A-123");
    assert_eq!(detail.prompts[0].role, "system");
    assert_eq!(detail.limits.max_turns, Some(50));
    assert_eq!(detail.limits.model_context_window, Some(100));
    assert_eq!(detail.timeline.entries.len(), 5);
    let mut settled = event();
    settled.status = EventStatus::Failed;
    let shown = display_run(sibling, &settled);
    assert_eq!(shown.outcome, Some("interrupted".to_string()));
    assert_eq!(shown.ended_at, Some(at(50)));
    assert_eq!(run_projection(&shown).state, "interrupted");
}
