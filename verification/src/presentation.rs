//! A run as it is presented: how it was dispatched, and what was concluded.
use vstd::prelude::*;

use crate::database::records::{
    ConclusionModel, ConclusionSource, DispatchTrigger, EventRecord, TriageConclusion,
    TriageDecision, TriageRunRecord,
};
use crate::database::runs::copy_conclusion;
use crate::database::tables::opt_conclusion;
use crate::run_detail::{
    display_run, displays, event_projection, shows_event, EventProjection,
};
use crate::text;

verus! {

/// A run as it is presented.
#[derive(Debug)]
pub struct PresentedRun {
    pub run: TriageRunRecord,
    pub dispatch_sequence: u32,
    pub dispatch_trigger: DispatchTrigger,
    pub dispatch_recorded: bool,
    pub conclusion: TriageConclusion,
}

/// Why a run was dispatched: as it was recorded, or else as its event and its attempt suggest.
pub open spec fn trigger_of(run: TriageRunRecord, event: EventRecord) -> DispatchTrigger {
    match run.dispatch_trigger {
        Some(trigger) => trigger,
        None => if event.source@ == "manual-injection"@ {
            DispatchTrigger::ManualInjection
        } else if run.attempt > 1 {
            DispatchTrigger::BackoffRetry
        } else {
            DispatchTrigger::Initial
        },
    }
}

/// The place of a run among the dispatches of its event.
pub open spec fn sequence_of(run: TriageRunRecord) -> u32 {
    match run.dispatch_sequence {
        Some(sequence) => sequence,
        None => if run.attempt > 1 {
            run.attempt
        } else {
            1
        },
    }
}

/// The conclusion that is presented: the one of the run, or else one that says why there is
/// none.
pub open spec fn conclusion_shown(
    conclusion: Option<ConclusionModel>,
    outcome: Option<Seq<char>>,
) -> ConclusionModel {
    match conclusion {
        Some(conclusion) => conclusion,
        None => match outcome {
            None => ConclusionModel {
                decision: TriageDecision::NeedsFollowUp,
                summary: "Triage is in progress; the final decision is pending."@,
                evidence: Seq::empty(),
                actions: Seq::empty(),
                outcome: "The attempt has not reached a terminal outcome."@,
                follow_up: None,
                source: ConclusionSource::Derived,
            },
            Some(outcome) => if outcome == "failed"@ {
                ConclusionModel {
                    decision: TriageDecision::Failed,
                    summary: "A model-authored conclusion is unavailable for this run."@,
                    evidence: Seq::empty(),
                    actions: Seq::empty(),
                    outcome: "The recorded attempt failed."@,
                    follow_up: Some(
                        "Review the failure category and timeline for available evidence."@,
                    ),
                    source: ConclusionSource::Unavailable,
                }
            } else if outcome == "interrupted"@ {
                ConclusionModel {
                    decision: TriageDecision::Canceled,
                    summary: "A model-authored conclusion is unavailable for this run."@,
                    evidence: Seq::empty(),
                    actions: Seq::empty(),
                    outcome: "The recorded attempt was interrupted."@,
                    follow_up: Some("Review the timeline before deciding whether to retry."@),
                    source: ConclusionSource::Unavailable,
                }
            } else {
                ConclusionModel {
                    decision: TriageDecision::NeedsFollowUp,
                    summary: "A model-authored conclusion is unavailable for this run."@,
                    evidence: Seq::empty(),
                    actions: Seq::empty(),
                    outcome: "The recorded attempt completed, but its decision was not captured."@,
                    follow_up: Some(
                        "Review the recorded effects and timeline for available evidence."@,
                    ),
                    source: ConclusionSource::Unavailable,
                }
            },
        },
    }
}

fn stand_in(
    decision: TriageDecision,
    summary: &str,
    outcome: &str,
    follow_up: Option<&str>,
    source: ConclusionSource,
) -> (conclusion: TriageConclusion)
    ensures
        conclusion@ == (ConclusionModel {
            decision,
            summary: summary@,
            evidence: Seq::empty(),
            actions: Seq::empty(),
            outcome: outcome@,
            follow_up: text::opt_str(follow_up),
            source,
        }),
{
    let conclusion = TriageConclusion {
        decision,
        summary: summary.to_owned(),
        evidence: Vec::new(),
        actions: Vec::new(),
        outcome: outcome.to_owned(),
        follow_up: match follow_up {
            Some(follow_up) => Some(follow_up.to_owned()),
            None => None,
        },
        source,
    };
    assert(conclusion@.evidence =~= Seq::empty());
    assert(conclusion@.actions =~= Seq::empty());
    conclusion
}

/// The conclusion that is presented for a run.
pub fn displayed_conclusion(run: &TriageRunRecord) -> (conclusion: TriageConclusion)
    ensures
        conclusion@ == conclusion_shown(
            opt_conclusion(run.conclusion),
            text::opt_text(run.outcome),
        ),
{
    match &run.conclusion {
        Some(conclusion) => copy_conclusion(conclusion),
        None => match &run.outcome {
            None => stand_in(
                TriageDecision::NeedsFollowUp,
                "Triage is in progress; the final decision is pending.",
                "The attempt has not reached a terminal outcome.",
                None,
                ConclusionSource::Derived,
            ),
            Some(outcome) => if text::same(outcome.as_str(), "failed") {
                stand_in(
                    TriageDecision::Failed,
                    "A model-authored conclusion is unavailable for this run.",
                    "The recorded attempt failed.",
                    Some("Review the failure category and timeline for available evidence."),
                    ConclusionSource::Unavailable,
                )
            } else if text::same(outcome.as_str(), "interrupted") {
                stand_in(
                    TriageDecision::Canceled,
                    "A model-authored conclusion is unavailable for this run.",
                    "The recorded attempt was interrupted.",
                    Some("Review the timeline before deciding whether to retry."),
                    ConclusionSource::Unavailable,
                )
            } else {
                stand_in(
                    TriageDecision::NeedsFollowUp,
                    "A model-authored conclusion is unavailable for this run.",
                    "The recorded attempt completed, but its decision was not captured.",
                    Some("Review the recorded effects and timeline for available evidence."),
                    ConclusionSource::Unavailable,
                )
            },
        },
    }
}

/// A run as it is presented.
pub fn present_run(run: TriageRunRecord, event: &EventRecord) -> (presented: PresentedRun)
    ensures
        displays(presented.run, run, *event),
        presented.dispatch_trigger == trigger_of(run, *event),
        presented.dispatch_recorded == (run.dispatch_trigger is Some),
        presented.dispatch_sequence == sequence_of(run),
        presented.conclusion@ == conclusion_shown(
            opt_conclusion(run.conclusion),
            text::opt_text(presented.run.outcome),
        ),
{
    let dispatch_trigger = match run.dispatch_trigger {
        Some(trigger) => trigger,
        None => if text::same(event.source.as_str(), "manual-injection") {
            DispatchTrigger::ManualInjection
        } else if run.attempt > 1 {
            DispatchTrigger::BackoffRetry
        } else {
            DispatchTrigger::Initial
        },
    };
    let dispatch_recorded = run.dispatch_trigger.is_some();
    let dispatch_sequence: u32 = match run.dispatch_sequence {
        Some(sequence) => sequence,
        None => if run.attempt > 1 {
            run.attempt
        } else {
            1
        },
    };
    let run = display_run(run, event);
    let conclusion = displayed_conclusion(&run);
    PresentedRun { run, dispatch_sequence, dispatch_trigger, dispatch_recorded, conclusion }
}

/// An event as it is presented.
pub fn present_event(event: &EventRecord) -> (shown: EventProjection)
    ensures
        shows_event(shown, *event),
{
    event_projection(event)
}

/// A run that goes on is the only one whose presented conclusion is still to come: one that has
/// a conclusion shows it, and every other says that there is none.
pub proof fn law_conclusions_are_presented(
    conclusion: Option<ConclusionModel>,
    outcome: Option<Seq<char>>,
)
    ensures
        conclusion matches Some(own) ==> conclusion_shown(conclusion, outcome) == own,
        conclusion is None ==> conclusion_shown(conclusion, outcome).source == (
        if outcome is None {
            ConclusionSource::Derived
        } else {
            ConclusionSource::Unavailable
        }),
{
}

/// Why a run was dispatched, and as which of its event, is shown as it was recorded.
pub proof fn law_recorded_dispatches_are_shown(run: TriageRunRecord, event: EventRecord)
    ensures
        run.dispatch_trigger is Some ==> trigger_of(run, event) == run.dispatch_trigger->0,
        run.dispatch_trigger is None && event.source@ == "manual-injection"@ ==> trigger_of(
            run,
            event,
        ) == DispatchTrigger::ManualInjection,
        run.dispatch_trigger is None && event.source@ != "manual-injection"@ ==> (trigger_of(
            run,
            event,
        ) == DispatchTrigger::BackoffRetry <==> run.attempt > 1),
        run.dispatch_sequence is Some ==> sequence_of(run) == run.dispatch_sequence->0,
        run.dispatch_sequence is None && run.attempt >= 1 ==> sequence_of(run) == run.attempt,
{
}

/// The conclusion of a run is shown as it was recorded. Where there is none, what is shown follows
/// from the outcome.
pub proof fn law_recorded_conclusions_are_shown(
    conclusion: ConclusionModel,
    outcome: Option<Seq<char>>,
)
    ensures
        conclusion_shown(Some(conclusion), outcome) == conclusion,
        conclusion_shown(None, Some("failed"@)).decision == TriageDecision::Failed,
        conclusion_shown(None, Some("interrupted"@)).decision == TriageDecision::Canceled,
        outcome != Some("failed"@) && outcome != Some("interrupted"@) ==> conclusion_shown(
            None,
            outcome,
        ).decision == TriageDecision::NeedsFollowUp,
{
    reveal_strlit("failed");
    reveal_strlit("interrupted");
    assert("failed"@.len() == 6 && "interrupted"@.len() == 11);
}

} // verus!
