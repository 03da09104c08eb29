//! What a triage run concludes: read out of the agent's words, or derived from how the run
//! ended.
use vstd::prelude::*;

use crate::agent::command_policy::{
    check_regex, filtered, regex_problem, regex_replaced, replace_matches, CommandPolicy,
    PolicyModel,
};
use crate::agent::errors::TriageError;
use crate::database::records::{
    ConclusionModel, ConclusionSource, TriageConclusion, TriageDecision,
};
use crate::errors::ErrorCategory;
use crate::text;

verus! {

/// What stands before a conclusion.
pub const CONCLUSION_START: &'static str = "<triage-conclusion>";

/// What stands behind a conclusion.
pub const CONCLUSION_END: &'static str = "</triage-conclusion>";

// ---------------------------------------------------------------------------------------------
// The place of the conclusion
// ---------------------------------------------------------------------------------------------

/// Where the conclusion of a text begins and ends: the last opening mark, and the first closing
/// mark behind it, with nothing but white space behind that.
pub open spec fn conclusion_place(s: Seq<char>) -> Option<(int, int)> {
    match text::find_last(s, CONCLUSION_START@, s.len() as int) {
        None => None,
        Some(start) => match text::find_from(s, CONCLUSION_END@, start + CONCLUSION_START@.len()) {
            None => None,
            Some(end) => if text::trim(s.skip(end + CONCLUSION_END@.len())).len() == 0 {
                Some((start, end))
            } else {
                None
            },
        },
    }
}

/// The JSON text of the conclusion. None where there is no conclusion or a too long one.
pub open spec fn conclusion_text(s: Seq<char>) -> Option<Seq<char>> {
    match conclusion_place(s) {
        None => None,
        Some((start, end)) => {
            let body = s.subrange(start + CONCLUSION_START@.len(), end);
            if text::byte_len(body) > 6000 {
                None
            } else {
                Some(text::trim(body))
            }
        },
    }
}

/// The text without its conclusion.
pub open spec fn without_conclusion(s: Seq<char>) -> Seq<char> {
    match conclusion_place(s) {
        None => s,
        Some((start, _)) => s.take(start),
    }
}

fn find_conclusion(chars: &Vec<char>) -> (place: Option<(usize, usize)>)
    ensures
        match place {
            Some((start, end)) => conclusion_place(chars@) == Some((start as int, end as int))
                && start + CONCLUSION_START@.len() <= end <= chars@.len(),
            None => conclusion_place(chars@) is None,
        },
{
    let opening = text::chars_of(CONCLUSION_START);
    let closing = text::chars_of(CONCLUSION_END);
    let start = match text::find_last_in(chars, &opening) {
        Some(start) => start,
        None => {
            return None;
        },
    };
    let total: usize = chars.len();
    let end = match text::find_in(chars, &closing, start + opening.len()) {
        Some(end) => end,
        None => {
            return None;
        },
    };
    proof {
        text::lemma_find(chars@, closing@, start + opening@.len());
    }
    let rest = text::string_of(chars, end + closing.len(), total);
    assert(rest@ =~= chars@.skip(end + closing@.len()));
    if text::trim_str(rest.as_str()).as_str().is_empty() {
        Some((start, end))
    } else {
        None
    }
}

/// The JSON text of the conclusion that ends the agent's words.
pub fn conclusion_json(words: &str) -> (json: Option<String>)
    ensures
        text::opt_text(json) == conclusion_text(words@),
{
    let chars = text::chars_of(words);
    match find_conclusion(&chars) {
        None => None,
        Some((start, end)) => {
            let opening = text::chars_of(CONCLUSION_START);
            let body = text::string_of(&chars, start + opening.len(), end);
            if text::byte_count(&text::chars_of(body.as_str())) > 6000 {
                None
            } else {
                Some(text::trim_str(body.as_str()))
            }
        },
    }
}

/// The agent's words without the conclusion that ends them.
pub fn strip_conclusion(words: &str) -> (out: String)
    ensures
        out@ == without_conclusion(words@),
{
    let chars = text::chars_of(words);
    match find_conclusion(&chars) {
        None => words.to_owned(),
        Some((start, end)) => {
            let out = text::string_of(&chars, 0, start);
            assert(out@ =~= chars@.take(start as int));
            out
        },
    }
}

// ---------------------------------------------------------------------------------------------
// What may be shown of it
// ---------------------------------------------------------------------------------------------

/// The pattern of a link.
pub const LINK_PATTERN: &'static str = r"(?i)https?://\S+";

/// The pattern of a credential behind its name.
pub const CREDENTIAL_PATTERN: &'static str = r"(?i)\b(token|password|secret|authorization|oauth|api[_ -]?key)\s*[:=]\s*\S+";

/// The text with blanks in place of control characters.
pub open spec fn uncontrolled(s: Seq<char>) -> Seq<char> {
    s.map_values(|c: char| if text::control(c) { ' ' } else { c })
}

/// The text on one line: its words with one blank between two of them.
pub open spec fn one_line(s: Seq<char>) -> Seq<char> {
    text::join(text::words(uncontrolled(s)), " "@)
}

/// The text cut to so many bytes, with an ellipsis where something was cut off.
pub open spec fn truncated(s: Seq<char>, max_bytes: nat) -> Seq<char> {
    if text::byte_len(s) <= max_bytes {
        s
    } else {
        text::byte_prefix(s, if max_bytes == 0 { 0 } else { (max_bytes - 1) as nat }) + "…"@
    }
}

/// What may be shown of a text that the agent wrote into its conclusion.
pub open spec fn shown_text(policy: PolicyModel, value: Seq<char>, max_bytes: nat) -> Seq<char> {
    let unlinked = regex_replaced(
        LINK_PATTERN@,
        false,
        filtered(policy.filters, value),
        "[link omitted]"@,
    );
    let redacted = regex_replaced(CREDENTIAL_PATTERN@, false, unlinked, "$1=[REDACTED]"@);
    truncated(one_line(redacted), max_bytes)
}

/// What may be shown of the first items of a list, without those of which nothing may.
pub open spec fn shown_items(policy: PolicyModel, values: Seq<Seq<char>>) -> Seq<Seq<char>> {
    let first = if values.len() > 5 {
        values.take(5)
    } else {
        values
    };
    first.map_values(|value: Seq<char>| shown_text(policy, value, 300)).filter(
        |value: Seq<char>| value.len() > 0,
    )
}

/// The text on one line.
pub fn on_one_line(value: &str) -> (out: String)
    ensures
        out@ == one_line(value@),
{
    let mut chars = text::chars_of(value);
    let mut plain: Vec<char> = Vec::new();
    let mut i: usize = 0;
    while i < chars.len()
        invariant
            i <= chars@.len(),
            chars@ == value@,
            plain@ == uncontrolled(value@.take(i as int)),
        decreases chars@.len() - i,
    {
        let c = chars[i];
        let ghost before = plain@;
        plain.push(
            if text::is_control(c) {
                ' '
            } else {
                c
            },
        );
        assert(plain@ =~= uncontrolled(value@.take(i + 1)));
        i += 1;
    }
    assert(value@.take(i as int) =~= value@);
    text::join_strings(&text::split_words(&plain), " ")
}

/// The text cut to so many bytes, with an ellipsis where something was cut off.
pub fn truncate_chars(value: &str, max_bytes: u64) -> (out: String)
    ensures
        out@ == truncated(value@, max_bytes as nat),
{
    if text::byte_count(&text::chars_of(value)) <= max_bytes as u128 {
        return value.to_owned();
    }
    let mut out = text::take_bytes(
        value,
        if max_bytes == 0 {
            0
        } else {
            max_bytes - 1
        },
    );
    out.append("…");
    out
}

/// The filters of what an agent writes into a conclusion. There is a value of this type only
/// where both patterns compile.
#[derive(Debug)]
pub struct ConclusionFilter {
    links: String,
    credentials: String,
}

impl ConclusionFilter {
    #[verifier::type_invariant]
    spec fn compiles(self) -> bool {
        &&& self.links@ == LINK_PATTERN@
        &&& self.credentials@ == CREDENTIAL_PATTERN@
        &&& regex_problem(LINK_PATTERN@, false) is None
        &&& regex_problem(CREDENTIAL_PATTERN@, false) is None
    }

    /// The filters, or what is wrong with a pattern.
    pub fn new() -> (result: Result<Self, String>)
        ensures
            match result {
                Ok(_) => regex_problem(LINK_PATTERN@, false) is None && regex_problem(
                    CREDENTIAL_PATTERN@,
                    false,
                ) is None,
                Err(message) => Some(message@) == (match regex_problem(LINK_PATTERN@, false) {
                    Some(problem) => Some(problem),
                    None => regex_problem(CREDENTIAL_PATTERN@, false),
                }),
            },
    {
        if let Err(message) = check_regex(LINK_PATTERN, false) {
            return Err(message);
        }
        if let Err(message) = check_regex(CREDENTIAL_PATTERN, false) {
            return Err(message);
        }
        Ok(
            ConclusionFilter {
                links: LINK_PATTERN.to_owned(),
                credentials: CREDENTIAL_PATTERN.to_owned(),
            },
        )
    }

    /// What may be shown of a text that the agent wrote into its conclusion.
    pub fn safe_conclusion_text(&self, policy: &CommandPolicy, value: &str, max_bytes: u64) -> (out:
        String)
        ensures
            out@ == shown_text(policy@, value@, max_bytes as nat),
    {
        proof {
            use_type_invariant(&*self);
        }
        let mut out = policy.filter(value);
        if let Some(next) = replace_matches(
            self.links.as_str(),
            false,
            out.as_str(),
            "[link omitted]",
        ) {
            out = next;
        }
        if let Some(next) = replace_matches(
            self.credentials.as_str(),
            false,
            out.as_str(),
            "$1=[REDACTED]",
        ) {
            out = next;
        }
        let line = on_one_line(out.as_str());
        truncate_chars(line.as_str(), max_bytes)
    }

    /// What may be shown of the first items of a list.
    pub fn safe_conclusion_items(&self, policy: &CommandPolicy, values: &Vec<String>) -> (out: Vec<
        String,
    >)
        ensures
            text::texts(out@) == shown_items(policy@, text::texts(values@)),
    {
        let total: usize = if values.len() > 5 {
            5
        } else {
            values.len()
        };
        let ghost first = if text::texts(values@).len() > 5 {
            text::texts(values@).take(5)
        } else {
            text::texts(values@)
        };
        let ghost all = first.map_values(|value: Seq<char>| shown_text(policy@, value, 300));
        let ghost keep = |value: Seq<char>| value.len() > 0;
        let mut out: Vec<String> = Vec::new();
        let mut i: usize = 0;
        assert(text::texts(out@) =~= all.take(0).filter(keep)) by {
            reveal(Seq::filter);
        }
        while i < total
            invariant
                i <= total <= values@.len(),
                total == all.len(),
                keep == (|value: Seq<char>| value.len() > 0),
                forall|k: int|
                    0 <= k < total ==> #[trigger] all[k] == shown_text(
                        policy@,
                        values@[k]@,
                        300,
                    ),
                text::texts(out@) == all.take(i as int).filter(keep),
            decreases total - i,
        {
            assert(all.take(i + 1).drop_last() =~= all.take(i as int));
            assert(all.take(i + 1).last() == all[i as int]);
            let ghost before = out@;
            let shown = self.safe_conclusion_text(policy, values[i].as_str(), 300);
            proof {
                reveal(Seq::filter);
            }
            if !shown.as_str().is_empty() {
                out.push(shown);
                assert(text::texts(out@) =~= text::texts(before).push(shown@));
            }
            i += 1;
        }
        assert(all.take(i as int) =~= all);
        out
    }

    /// The conclusion that is recorded for what the agent wrote. None where nothing may be shown
    /// of its summary or its outcome.
    pub fn accept(&self, written: ModelConclusion, policy: &CommandPolicy) -> (conclusion: Option<
        TriageConclusion,
    >)
        ensures
            match conclusion {
                Some(conclusion) => Some(conclusion@) == accepted(written, policy@),
                None => accepted(written, policy@) is None,
            },
    {
        let summary = self.safe_conclusion_text(policy, written.summary.as_str(), 600);
        let outcome = self.safe_conclusion_text(policy, written.outcome.as_str(), 400);
        if summary.as_str().is_empty() || outcome.as_str().is_empty() {
            return None;
        }
        let follow_up = match &written.follow_up {
            Some(value) => {
                let shown = self.safe_conclusion_text(policy, value.as_str(), 400);
                if shown.as_str().is_empty() {
                    None
                } else {
                    Some(shown)
                }
            },
            None => None,
        };
        Some(
            TriageConclusion {
                decision: written.decision,
                summary,
                evidence: self.safe_conclusion_items(policy, &written.evidence),
                actions: self.safe_conclusion_items(policy, &written.actions),
                outcome,
                follow_up,
                source: ConclusionSource::Model,
            },
        )
    }
}

/// A conclusion as the agent wrote it.
#[derive(Debug)]
pub struct ModelConclusion {
    pub decision: TriageDecision,
    pub summary: String,
    pub evidence: Vec<String>,
    pub actions: Vec<String>,
    pub outcome: String,
    pub follow_up: Option<String>,
}

/// The conclusion that is recorded for what the agent wrote.
pub open spec fn accepted(written: ModelConclusion, policy: PolicyModel) -> Option<
    ConclusionModel,
> {
    let summary = shown_text(policy, written.summary@, 600);
    let outcome = shown_text(policy, written.outcome@, 400);
    if summary.len() == 0 || outcome.len() == 0 {
        None
    } else {
        Some(
            ConclusionModel {
                decision: written.decision,
                summary,
                evidence: shown_items(policy, text::texts(written.evidence@)),
                actions: shown_items(policy, text::texts(written.actions@)),
                outcome,
                follow_up: match written.follow_up {
                    Some(value) => {
                        let shown = shown_text(policy, value@, 400);
                        if shown.len() == 0 {
                            None
                        } else {
                            Some(shown)
                        }
                    },
                    None => None,
                },
                source: ConclusionSource::Model,
            },
        )
    }
}

// ---------------------------------------------------------------------------------------------
// Where the agent wrote none
// ---------------------------------------------------------------------------------------------

/// How a call of a tool ended.
#[derive(Clone, Copy, Debug, PartialEq, Eq, Structural)]
pub enum ToolObservationOutcome {
    Succeeded,
    Failed,
    Denied,
}

/// A call of a tool that was seen in a run.
#[derive(Debug)]
pub struct ToolObservation {
    pub name: String,
    pub outcome: ToolObservationOutcome,
}

/// Whether the character may stand in a label.
pub open spec fn label_char(c: char) -> bool {
    text::ascii_alphanumeric(c) || c == '-' || c == '_'
}

/// A label for the value: the first characters of it that may stand in one.
pub open spec fn context_label(value: Seq<char>, fallback: Seq<char>) -> Seq<char> {
    let kept = value.filter(|c: char| label_char(c));
    if kept.len() == 0 {
        fallback
    } else if kept.len() > 64 {
        kept.take(64)
    } else {
        kept
    }
}

/// A label for the value.
pub fn safe_context_label(value: &str, fallback: &str) -> (out: String)
    ensures
        out@ == context_label(value@, fallback@),
{
    let chars = text::chars_of(value);
    let ghost keep = |c: char| label_char(c);
    let mut kept: Vec<char> = Vec::new();
    let mut i: usize = 0;
    assert(kept@ =~= chars@.take(0).filter(keep)) by {
        reveal(Seq::filter);
    }
    while i < chars.len()
        invariant
            i <= chars@.len(),
            keep == (|c: char| label_char(c)),
            kept@ == chars@.take(i as int).filter(keep),
        decreases chars@.len() - i,
    {
        assert(chars@.take(i + 1).drop_last() =~= chars@.take(i as int));
        proof {
            reveal(Seq::filter);
        }
        let c = chars[i];
        if text::is_ascii_alphanumeric(c) || c == '-' || c == '_' {
            kept.push(c);
        }
        i += 1;
    }
    assert(chars@.take(i as int) =~= value@);
    if kept.len() == 0 {
        fallback.to_owned()
    } else if kept.len() > 64 {
        let out = text::string_of(&kept, 0, 64);
        assert(out@ =~= kept@.take(64));
        out
    } else {
        text::collect(&kept)
    }
}

/// The sentence on a call of a tool.
pub open spec fn action_of(observation: ToolObservation) -> Seq<char> {
    context_label(observation.name@, "restricted"@) + " tool "@ + (match observation.outcome {
        ToolObservationOutcome::Succeeded => "completed"@,
        ToolObservationOutcome::Failed => "failed"@,
        ToolObservationOutcome::Denied => "was denied"@,
    }) + "."@
}

/// The sentences on the first calls of tools.
pub open spec fn actions_of(observations: Seq<ToolObservation>) -> Seq<Seq<char>> {
    Seq::new(
        if observations.len() > 5 {
            5
        } else {
            observations.len()
        },
        |i: int| action_of(observations[i]),
    )
}

/// The sentences on the first calls of tools.
pub fn observed_actions(observations: &Vec<ToolObservation>) -> (out: Vec<String>)
    ensures
        text::texts(out@) == actions_of(observations@),
{
    let total: usize = if observations.len() > 5 {
        5
    } else {
        observations.len()
    };
    let mut out: Vec<String> = Vec::new();
    let mut i: usize = 0;
    while i < total
        invariant
            i <= total <= observations@.len(),
            out@.len() == i,
            forall|k: int| 0 <= k < i ==> (#[trigger] out@[k])@ == action_of(observations@[k]),
        decreases total - i,
    {
        let mut line = safe_context_label(observations[i].name.as_str(), "restricted");
        line.append(" tool ");
        line.append(
            match observations[i].outcome {
                ToolObservationOutcome::Succeeded => "completed",
                ToolObservationOutcome::Failed => "failed",
                ToolObservationOutcome::Denied => "was denied",
            },
        );
        line.append(".");
        out.push(line);
        i += 1;
    }
    assert(text::texts(out@) =~= actions_of(observations@));
    out
}

/// Whether a call of a tool ended so.
pub open spec fn observed(
    observations: Seq<ToolObservation>,
    outcome: ToolObservationOutcome,
) -> bool {
    exists|i: int| 0 <= i < observations.len() && (#[trigger] observations[i]).outcome == outcome
}

fn has_observed(observations: &Vec<ToolObservation>, outcome: ToolObservationOutcome) -> (b: bool)
    ensures
        b == observed(observations@, outcome),
{
    let mut i: usize = 0;
    while i < observations.len()
        invariant
            i <= observations@.len(),
            forall|k: int| 0 <= k < i ==> (#[trigger] observations@[k]).outcome != outcome,
        decreases observations@.len() - i,
    {
        if observations[i].outcome == outcome {
            return true;
        }
        i += 1;
    }
    false
}

/// How a run ended, as far as a conclusion is derived from it.
#[derive(Clone, Copy, Debug, PartialEq, Eq, Structural)]
pub enum RunEnd {
    Completed,
    Canceled,
    TimedOut,
    TurnLimit,
    Denied,
    Failed,
}

/// How the run ended.
pub open spec fn run_end(
    result: Result<(), TriageError>,
    observations: Seq<ToolObservation>,
) -> RunEnd {
    match result {
        Ok(_) => RunEnd::Completed,
        Err(TriageError::Cancelled) => RunEnd::Canceled,
        Err(TriageError::WallTimeout) => RunEnd::TimedOut,
        Err(error) => if error.category_of() == ErrorCategory::TurnLimit {
            RunEnd::TurnLimit
        } else if observed(observations, ToolObservationOutcome::Denied) {
            RunEnd::Denied
        } else {
            RunEnd::Failed
        },
    }
}

fn end_of(result: &Result<(), TriageError>, observations: &Vec<ToolObservation>) -> (end: RunEnd)
    ensures
        end == run_end(*result, observations@),
{
    match result {
        Ok(_) => RunEnd::Completed,
        Err(TriageError::Cancelled) => RunEnd::Canceled,
        Err(TriageError::WallTimeout) => RunEnd::TimedOut,
        Err(error) => {
            if error.category() == ErrorCategory::TurnLimit {
                RunEnd::TurnLimit
            } else if has_observed(observations, ToolObservationOutcome::Denied) {
                RunEnd::Denied
            } else {
                RunEnd::Failed
            }
        },
    }
}

impl RunEnd {
    /// The decision, summary, outcome and follow-up of a run that ended so.
    pub open spec fn wording(self) -> (TriageDecision, Seq<char>, Seq<char>, Option<Seq<char>>) {
        match self {
            RunEnd::Completed => (
                TriageDecision::NoAction,
                "Triage completed without a model-authored conclusion."@,
                "The attempt completed successfully."@,
                None,
            ),
            RunEnd::Canceled => (
                TriageDecision::Canceled,
                "Triage was canceled before the agent supplied a conclusion."@,
                "The attempt was interrupted."@,
                Some("Retry triage if the event still needs review."@),
            ),
            RunEnd::TimedOut => (
                TriageDecision::TimedOut,
                "Triage reached its time limit before the agent supplied a conclusion."@,
                "The attempt timed out."@,
                Some("Review the recorded activity before retrying."@),
            ),
            RunEnd::TurnLimit => (
                TriageDecision::TurnLimit,
                "Triage reached its turn limit before the agent supplied a conclusion."@,
                "The attempt stopped at the configured turn limit."@,
                Some("Review the recorded activity before retrying."@),
            ),
            RunEnd::Denied => (
                TriageDecision::Blocked,
                "Triage could not complete an action because a tool call was denied."@,
                "The attempt ended after a denied action."@,
                Some("Review the requested action and capability policy."@),
            ),
            RunEnd::Failed => (
                TriageDecision::Failed,
                "Triage failed before the agent supplied a conclusion."@,
                "The attempt failed."@,
                Some("Review the failure category and recorded activity before retrying."@),
            ),
        }
    }
}

/// The conclusion that is derived from how a run ended.
pub open spec fn derived(
    result: Result<(), TriageError>,
    dispatch_reason: Option<Seq<char>>,
    observations: Seq<ToolObservation>,
) -> ConclusionModel {
    let (decision, summary, outcome, follow_up) = run_end(result, observations).wording();
    ConclusionModel {
        decision,
        summary,
        evidence: (match dispatch_reason {
            Some(reason) => seq![reason],
            None => Seq::empty(),
        }) + (if observed(observations, ToolObservationOutcome::Failed) {
            seq!["At least one recorded tool call failed."@]
        } else {
            Seq::empty()
        }),
        actions: actions_of(observations),
        outcome,
        follow_up,
        source: ConclusionSource::Derived,
    }
}

/// The conclusion that is derived from how a run ended, the reason of its dispatch, where it is
/// to be shown, and the calls of tools in it.
pub fn fallback_conclusion(
    result: &Result<(), TriageError>,
    dispatch_reason: Option<&str>,
    observations: &Vec<ToolObservation>,
) -> (conclusion: TriageConclusion)
    ensures
        conclusion@ == derived(*result, text::opt_str(dispatch_reason), observations@),
{
    let (decision, summary, outcome, follow_up) = match end_of(result, observations) {
        RunEnd::Completed => (
            TriageDecision::NoAction,
            "Triage completed without a model-authored conclusion.",
            "The attempt completed successfully.",
            None,
        ),
        RunEnd::Canceled => (
            TriageDecision::Canceled,
            "Triage was canceled before the agent supplied a conclusion.",
            "The attempt was interrupted.",
            Some("Retry triage if the event still needs review."),
        ),
        RunEnd::TimedOut => (
            TriageDecision::TimedOut,
            "Triage reached its time limit before the agent supplied a conclusion.",
            "The attempt timed out.",
            Some("Review the recorded activity before retrying."),
        ),
        RunEnd::TurnLimit => (
            TriageDecision::TurnLimit,
            "Triage reached its turn limit before the agent supplied a conclusion.",
            "The attempt stopped at the configured turn limit.",
            Some("Review the recorded activity before retrying."),
        ),
        RunEnd::Denied => (
            TriageDecision::Blocked,
            "Triage could not complete an action because a tool call was denied.",
            "The attempt ended after a denied action.",
            Some("Review the requested action and capability policy."),
        ),
        RunEnd::Failed => (
            TriageDecision::Failed,
            "Triage failed before the agent supplied a conclusion.",
            "The attempt failed.",
            Some("Review the failure category and recorded activity before retrying."),
        ),
    };
    let mut evidence: Vec<String> = Vec::new();
    if let Some(reason) = dispatch_reason {
        evidence.push(reason.to_owned());
    }
    if has_observed(observations, ToolObservationOutcome::Failed) {
        evidence.push("At least one recorded tool call failed.".to_owned());
    }
    let conclusion = TriageConclusion {
        decision,
        summary: summary.to_owned(),
        evidence,
        actions: observed_actions(observations),
        outcome: outcome.to_owned(),
        follow_up: match follow_up {
            Some(line) => Some(line.to_owned()),
            None => None,
        },
        source: ConclusionSource::Derived,
    };
    assert(conclusion@.evidence =~= derived(
        *result,
        text::opt_str(dispatch_reason),
        observations@,
    ).evidence);
    conclusion
}

// ---------------------------------------------------------------------------------------------
// Laws
// ---------------------------------------------------------------------------------------------

/// What is recorded of a conclusion is bounded: at most five items in a list, and no text longer
/// than its limit and the ellipsis.
pub proof fn law_conclusions_are_bounded(written: ModelConclusion, policy: PolicyModel)
    ensures
        match accepted(written, policy) {
            Some(conclusion) => {
                &&& conclusion.evidence.len() <= 5
                &&& conclusion.actions.len() <= 5
                &&& 0 < text::byte_len(conclusion.summary) <= 602
                &&& 0 < text::byte_len(conclusion.outcome) <= 402
            },
            None => true,
        },
{
    if let Some(conclusion) = accepted(written, policy) {
        law_truncated_fits(one_line_shown(policy, written.summary@), 600);
        law_truncated_fits(one_line_shown(policy, written.outcome@), 400);
        text::lemma_byte_len_bounds(conclusion.summary);
        text::lemma_byte_len_bounds(conclusion.outcome);
        lemma_items_bounded(policy, text::texts(written.evidence@));
        lemma_items_bounded(policy, text::texts(written.actions@));
    }
}

spec fn one_line_shown(policy: PolicyModel, value: Seq<char>) -> Seq<char> {
    one_line(
        regex_replaced(
            CREDENTIAL_PATTERN@,
            false,
            regex_replaced(
                LINK_PATTERN@,
                false,
                filtered(policy.filters, value),
                "[link omitted]"@,
            ),
            "$1=[REDACTED]"@,
        ),
    )
}

proof fn lemma_items_bounded(policy: PolicyModel, values: Seq<Seq<char>>)
    ensures
        shown_items(policy, values).len() <= 5,
{
    let first = if values.len() > 5 {
        values.take(5)
    } else {
        values
    };
    first.map_values(|value: Seq<char>| shown_text(policy, value, 300)).lemma_filter_len(
        |value: Seq<char>| value.len() > 0,
    );
}

/// A text that was cut to so many bytes takes at most these and the two that an ellipsis has
/// more than the byte it stands for.
pub proof fn law_truncated_fits(s: Seq<char>, max_bytes: nat)
    requires
        max_bytes > 0,
    ensures
        text::byte_len(truncated(s, max_bytes)) <= max_bytes + 2,
{
    if text::byte_len(s) > max_bytes {
        let kept = text::byte_prefix(s, (max_bytes - 1) as nat);
        text::lemma_fitting(s, (max_bytes - 1) as nat);
        text::lemma_byte_len_add(kept, "…"@);
        reveal_strlit("…");
        assert("…"@ =~= seq!['…']);
        assert("…"@.drop_last() =~= Seq::empty());
        reveal_with_fuel(text::byte_len, 3);
    }
}

// ---------------------------------------------------------------------------------------------
// What is kept of what the agent wrote
// ---------------------------------------------------------------------------------------------

/// Whether the items are what may be shown of written ones, in their order: of the first five,
/// all of which something may be shown.
pub open spec fn drawn_in_order(
    policy: PolicyModel,
    items: Seq<Seq<char>>,
    written: Seq<String>,
    places: Seq<int>,
) -> bool {
    &&& places.len() == items.len()
    &&& forall|a: int, b: int|
        0 <= a < b < places.len() ==> #[trigger] places[a] < #[trigger] places[b]
    &&& forall|a: int|
        0 <= a < places.len() ==> 0 <= #[trigger] places[a] < written.len() && places[a] < 5
            && items[a] == shown_text(policy, written[places[a]]@, 300) && items[a].len() > 0
    &&& forall|p: int|
        0 <= p < written.len() && p < 5 && shown_text(
            policy,
            (#[trigger] written[p])@,
            300,
        ).len() > 0 ==> places.contains(p)
}

/// The places of the first texts of which something may be shown.
spec fn kept_places(policy: PolicyModel, written: Seq<String>, n: int) -> Seq<int>
    decreases n,
{
    if n <= 0 {
        Seq::empty()
    } else if shown_text(policy, written[n - 1]@, 300).len() > 0 {
        kept_places(policy, written, n - 1).push(n - 1)
    } else {
        kept_places(policy, written, n - 1)
    }
}

proof fn lemma_kept_places(policy: PolicyModel, written: Seq<String>, n: int)
    requires
        0 <= n <= written.len(),
        n <= 5,
    ensures
        ({
            let places = kept_places(policy, written, n);
            let items = text::texts(written.take(n)).map_values(
                |value: Seq<char>| shown_text(policy, value, 300),
            ).filter(|value: Seq<char>| value.len() > 0);
            &&& places.len() == items.len()
            &&& forall|a: int, b: int|
                0 <= a < b < places.len() ==> #[trigger] places[a] < #[trigger] places[b]
            &&& forall|a: int|
                0 <= a < places.len() ==> 0 <= #[trigger] places[a] < n && items[a] == shown_text(
                    policy,
                    written[places[a]]@,
                    300,
                ) && items[a].len() > 0
            &&& forall|p: int|
                0 <= p < n && shown_text(policy, (#[trigger] written[p])@, 300).len() > 0
                    ==> places.contains(p)
        }),
    decreases n,
{
    let keep = |value: Seq<char>| value.len() > 0;
    let show = |value: Seq<char>| shown_text(policy, value, 300);
    let all = text::texts(written.take(n)).map_values(show);
    reveal(Seq::filter);
    if n > 0 {
        lemma_kept_places(policy, written, n - 1);
        let before = text::texts(written.take(n - 1)).map_values(show);
        let old_places = kept_places(policy, written, n - 1);
        let places = kept_places(policy, written, n);
        assert(all.drop_last() =~= before);
        assert(all.last() == shown_text(policy, written[n - 1]@, 300));
        assert(all.filter(keep) == (if keep(all.last()) {
            before.filter(keep).push(all.last())
        } else {
            before.filter(keep)
        }));
        assert forall|p: int|
            0 <= p < n && shown_text(policy, (#[trigger] written[p])@, 300).len() > 0 implies places.contains(
        p) by {
            if p < n - 1 {
                assert(old_places.contains(p));
                let a = choose|a: int| 0 <= a < old_places.len() && old_places[a] == p;
                assert(places[a] == p);
            } else {
                assert(places[places.len() - 1] == p);
            }
        }
    }
}

proof fn lemma_drawn_in_order(policy: PolicyModel, written: Seq<String>)
    ensures
        exists|places: Seq<int>|
            drawn_in_order(policy, shown_items(policy, text::texts(written)), written, places),
{
    let n: int = if written.len() > 5 {
        5
    } else {
        written.len() as int
    };
    lemma_kept_places(policy, written, n);
    let first = if text::texts(written).len() > 5 {
        text::texts(written).take(5)
    } else {
        text::texts(written)
    };
    assert(first =~= text::texts(written.take(n)));
    assert(drawn_in_order(
        policy,
        shown_items(policy, text::texts(written)),
        written,
        kept_places(policy, written, n),
    ));
}

/// A conclusion that the agent wrote is recorded as the agent's own, with the decision that the
/// agent wrote. Its evidence is drawn from the evidence that was written and its actions from the
/// actions, each in order, and its summary, outcome and follow-up are what may be shown of those.
pub proof fn law_accepted_conclusions_are_the_written_ones(
    written: ModelConclusion,
    policy: PolicyModel,
)
    ensures
        accepted(written, policy) is Some <==> shown_text(policy, written.summary@, 600).len() > 0
            && shown_text(policy, written.outcome@, 400).len() > 0,
        accepted(written, policy) matches Some(conclusion) ==> {
            &&& conclusion.decision == written.decision
            &&& conclusion.source == ConclusionSource::Model
            &&& conclusion.summary == shown_text(policy, written.summary@, 600)
            &&& conclusion.outcome == shown_text(policy, written.outcome@, 400)
            &&& exists|places: Seq<int>|
                drawn_in_order(policy, conclusion.evidence, written.evidence@, places)
            &&& exists|places: Seq<int>|
                drawn_in_order(policy, conclusion.actions, written.actions@, places)
            &&& match conclusion.follow_up {
                Some(shown) => written.follow_up is Some && shown == shown_text(
                    policy,
                    written.follow_up->0@,
                    400,
                ) && shown.len() > 0,
                None => written.follow_up is None || shown_text(
                    policy,
                    written.follow_up->0@,
                    400,
                ).len() == 0,
            }
        },
{
    lemma_drawn_in_order(policy, written.evidence@);
    lemma_drawn_in_order(policy, written.actions@);
    if let Some(conclusion) = accepted(written, policy) {
        let evidence = choose|places: Seq<int>|
            drawn_in_order(
                policy,
                shown_items(policy, text::texts(written.evidence@)),
                written.evidence@,
                places,
            );
        let actions = choose|places: Seq<int>|
            drawn_in_order(
                policy,
                shown_items(policy, text::texts(written.actions@)),
                written.actions@,
                places,
            );
        assert(drawn_in_order(policy, conclusion.evidence, written.evidence@, evidence));
        assert(drawn_in_order(policy, conclusion.actions, written.actions@, actions));
    }
}

proof fn lemma_filters_spare(filters: Seq<(Seq<char>, bool)>, value: Seq<char>)
    requires
        forall|k: int|
            0 <= k < filters.len() ==> regex_replaced(
                (#[trigger] filters[k]).0,
                filters[k].1,
                value,
                "[REDACTED]"@,
            ) == value,
    ensures
        filtered(filters, value) == value,
    decreases filters.len(),
{
    if filters.len() > 0 {
        let front = filters.drop_last();
        assert forall|k: int| 0 <= k < front.len() implies regex_replaced(
            (#[trigger] front[k]).0,
            front[k].1,
            value,
            "[REDACTED]"@,
        ) == value by {
            assert(front[k] == filters[k]);
        }
        lemma_filters_spare(front, value);
        assert(filters[filters.len() - 1] == filters.last());
    }
}

/// A text of single words that no pattern matches and that is not too long is recorded whole,
/// character by character.
pub proof fn law_harmless_texts_are_kept(
    policy: PolicyModel,
    parts: Seq<Seq<char>>,
    max_bytes: nat,
)
    requires
        forall|k: int| 0 <= k < parts.len() ==> (#[trigger] parts[k]).len() > 0,
        forall|k: int, i: int|
            0 <= k < parts.len() && 0 <= i < parts[k].len() ==> !text::whitespace(
                #[trigger] parts[k][i],
            ) && !text::control(parts[k][i]),
        text::byte_len(text::join(parts, seq![' '])) <= max_bytes,
        forall|k: int|
            0 <= k < policy.filters.len() ==> regex_replaced(
                (#[trigger] policy.filters[k]).0,
                policy.filters[k].1,
                text::join(parts, seq![' ']),
                "[REDACTED]"@,
            ) == text::join(parts, seq![' ']),
        regex_replaced(
            LINK_PATTERN@,
            false,
            text::join(parts, seq![' ']),
            "[link omitted]"@,
        ) == text::join(parts, seq![' ']),
        regex_replaced(
            CREDENTIAL_PATTERN@,
            false,
            text::join(parts, seq![' ']),
            "$1=[REDACTED]"@,
        ) == text::join(parts, seq![' ']),
    ensures
        shown_text(policy, text::join(parts, seq![' ']), max_bytes) == text::join(
            parts,
            seq![' '],
        ),
{
    let value = text::join(parts, seq![' ']);
    lemma_filters_spare(policy.filters, value);
    text::law_joined_words_are_the_words(parts);
    assert forall|i: int| 0 <= i < value.len() implies !text::control(#[trigger] value[i]) by {
        text::lemma_joined_chars(parts, i);
    }
    assert(uncontrolled(value) =~= value);
    assert(" "@ =~= seq![' ']) by {
        reveal_strlit(" ");
    }
}

/// A text that is cut is cut at its end alone: what is left is the longest beginning that leaves
/// room for a byte more, and the ellipsis behind it. One that fits is left as it is.
pub proof fn law_truncated_texts_begin_alike(s: Seq<char>, max_bytes: nat)
    requires
        max_bytes > 0,
    ensures
        text::byte_len(s) <= max_bytes ==> truncated(s, max_bytes) == s,
        text::byte_len(s) > max_bytes ==> exists|n: int|
            0 <= n < s.len() && truncated(s, max_bytes) == (#[trigger] s.take(n)).push('…')
                && text::byte_len(s.take(n)) < max_bytes && max_bytes <= text::byte_len(
                s.take(n + 1),
            ),
{
    if text::byte_len(s) > max_bytes {
        let limit = (max_bytes - 1) as nat;
        text::lemma_fitting(s, limit);
        let n = text::fitting(s, limit);
        assert(s.take(s.len() as int) =~= s);
        assert("…"@ =~= seq!['…']) by {
            reveal_strlit("…");
        }
        assert(truncated(s, max_bytes) =~= s.take(n).push('…'));
    }
}

// ---------------------------------------------------------------------------------------------
// The place of the conclusion
// ---------------------------------------------------------------------------------------------

proof fn lemma_find_last(s: Seq<char>, needle: Seq<char>, from: int, i: int)
    requires
        0 <= i <= from,
        text::occurs_at(s, needle, i),
        forall|j: int| i < j <= from ==> !#[trigger] text::occurs_at(s, needle, j),
    ensures
        text::find_last(s, needle, from) == Some(i),
    decreases from,
{
    if from > i {
        lemma_find_last(s, needle, from - 1, i);
    }
}

proof fn lemma_marks()
    ensures
        "<triage-conclusion>"@.len() == 19,
        "</triage-conclusion>"@.len() == 20,
        "<triage-conclusion>"@[1] == 't',
        "</triage-conclusion>"@[0] == '<',
        "</triage-conclusion>"@[1] == '/',
        "<triage-conclusion>"@[0] == '<',
        forall|i: int| 0 < i < 19 ==> #[trigger] "<triage-conclusion>"@[i] != '<',
        forall|i: int| 0 < i < 20 ==> #[trigger] "</triage-conclusion>"@[i] != '<',
{
    reveal_strlit("<triage-conclusion>");
    reveal_strlit("</triage-conclusion>");
}

proof fn lemma_last_mark(
    prose: Seq<char>,
    open: Seq<char>,
    body: Seq<char>,
    close: Seq<char>,
    behind: Seq<char>,
    j: int,
)
    requires
        open.len() == 19,
        close.len() == 20,
        open[0] == '<' && close[0] == '<' && open[1] == 't' && close[1] == '/',
        forall|i: int| 0 < i < 19 ==> #[trigger] open[i] != '<',
        forall|i: int| 0 < i < 20 ==> #[trigger] close[i] != '<',
        forall|i: int| 0 <= i < behind.len() ==> #[trigger] behind[i] != '<',
        !text::contains(body, open),
        prose.len() < j,
    ensures
        !text::occurs_at(prose + open + body + close + behind, open, j),
{
    let s = prose + open + body + close + behind;
    let start = prose.len() as int;
    let from = start + 19;
    let end = from + body.len();
    if text::occurs_at(s, open, j) {
        let found = s.subrange(j, j + 19);
        assert(found[0] == s[j] && found[1] == s[j + 1]);
        if j < from {
            assert(s[j] == open[j - start]);
        } else if j + 19 <= end {
            assert(body.subrange(j - from, j - from + 19) =~= found);
            assert(text::occurs_at(body, open, j - from));
        } else if j < end {
            assert(s[end] == close[0]);
            assert(found[end - j] == s[end]);
            assert(open[end - j] != '<');
        } else if j < end + 20 {
            assert(s[j] == close[j - end]);
            assert(s[end + 1] == close[1]);
        } else {
            assert(s[j] == behind[j - end - 20]);
        }
    }
}

proof fn lemma_first_mark(
    prose: Seq<char>,
    open: Seq<char>,
    body: Seq<char>,
    close: Seq<char>,
    behind: Seq<char>,
    j: int,
)
    requires
        close.len() == 20,
        close[0] == '<',
        forall|i: int| 0 < i < 20 ==> #[trigger] close[i] != '<',
        !text::contains(body, close),
        prose.len() + open.len() <= j < prose.len() + open.len() + body.len(),
    ensures
        !text::occurs_at(prose + open + body + close + behind, close, j),
{
    let s = prose + open + body + close + behind;
    let from = (prose.len() + open.len()) as int;
    let end = from + body.len();
    if text::occurs_at(s, close, j) {
        let found = s.subrange(j, j + 20);
        if j + 20 <= end {
            assert(body.subrange(j - from, j - from + 20) =~= found);
            assert(text::occurs_at(body, close, j - from));
        } else {
            assert(s[end] == close[0]);
            assert(found[end - j] == s[end]);
            assert(close[end - j] != '<');
        }
    }
}

/// What the agent wrote between the two marks at the end of its words is its conclusion, without
/// the white space around it, as long as it takes no more than six thousand bytes; and what stands
/// before the marks is what else it said. Behind the marks there may be white space and nothing
/// else.
pub proof fn law_marked_conclusions_are_found(
    prose: Seq<char>,
    body: Seq<char>,
    behind: Seq<char>,
)
    requires
        !text::contains(body, "<triage-conclusion>"@),
        !text::contains(body, "</triage-conclusion>"@),
        forall|i: int| 0 <= i < behind.len() ==> #[trigger] behind[i] != '<',
    ensures
        ({
            let s = prose + "<triage-conclusion>"@ + body + "</triage-conclusion>"@ + behind;
            if text::trim(behind).len() == 0 {
                &&& conclusion_text(s) == (if text::byte_len(body) <= 6000 {
                    Some(text::trim(body))
                } else {
                    None
                })
                &&& without_conclusion(s) == prose
            } else {
                &&& conclusion_text(s) is None
                &&& without_conclusion(s) == s
            }
        }),
{
    let open = "<triage-conclusion>"@;
    let close = "</triage-conclusion>"@;
    let s = prose + open + body + close + behind;
    lemma_marks();
    let start = prose.len() as int;
    let from = start + open.len();
    let end = from + body.len();
    assert(s.subrange(start, from) =~= open);
    assert(s.subrange(end, end + close.len()) =~= close);
    assert forall|j: int| start < j <= s.len() implies !#[trigger] text::occurs_at(s, open, j) by {
        lemma_last_mark(prose, open, body, close, behind, j);
    }
    lemma_find_last(s, open, s.len() as int, start);
    assert forall|j: int| from <= j < end implies !#[trigger] text::occurs_at(s, close, j) by {
        lemma_first_mark(prose, open, body, close, behind, j);
    }
    assert(text::first_at(s, close, from, end));
    text::lemma_first_at(s, close, from, end);
    assert(s.skip(end + close.len()) =~= behind);
    assert(s.subrange(from, end) =~= body);
    assert(s.take(start) =~= prose);
}

// ---------------------------------------------------------------------------------------------
// What is derived
// ---------------------------------------------------------------------------------------------

/// A conclusion that is derived says how the run ended: completed without an action, canceled,
/// out of time, out of turns, blocked where a call was denied, and failed otherwise. It names the
/// reason of the dispatch first, and a call that failed behind it.
pub proof fn law_derived_conclusions_say_how_the_run_ended(
    result: Result<(), TriageError>,
    dispatch_reason: Option<Seq<char>>,
    observations: Seq<ToolObservation>,
)
    ensures
        ({
            let conclusion = derived(result, dispatch_reason, observations);
            let denied = exists|i: int|
                0 <= i < observations.len() && (#[trigger] observations[i]).outcome
                    == ToolObservationOutcome::Denied;
            let failed = exists|i: int|
                0 <= i < observations.len() && (#[trigger] observations[i]).outcome
                    == ToolObservationOutcome::Failed;
            &&& conclusion.source == ConclusionSource::Derived
            &&& conclusion.decision == (match result {
                Ok(_) => TriageDecision::NoAction,
                Err(TriageError::Cancelled) => TriageDecision::Canceled,
                Err(TriageError::WallTimeout) => TriageDecision::TimedOut,
                Err(TriageError::Prompt { max_turns: true, .. }) => TriageDecision::TurnLimit,
                Err(_) => if denied {
                    TriageDecision::Blocked
                } else {
                    TriageDecision::Failed
                },
            })
            &&& conclusion.follow_up is None <==> result is Ok
            &&& dispatch_reason matches Some(reason) ==> conclusion.evidence.len() > 0
                && conclusion.evidence[0] == reason
            &&& conclusion.evidence.len() == (if dispatch_reason is Some {
                1int
            } else {
                0int
            }) + (if failed {
                1int
            } else {
                0int
            })
            &&& conclusion.actions.len() == (if observations.len() <= 5 {
                observations.len() as int
            } else {
                5int
            })
        }),
{
    if let Err(error) = result {
        if let TriageError::Completion(failure) = error {
            crate::errors::lemma_message_category_never_turn_limit(failure.display@);
        }
        if let TriageError::Other(message) = error {
            crate::errors::lemma_message_category_never_turn_limit(message@);
        }
    }
}

proof fn lemma_label_chars(value: Seq<char>)
    requires
        forall|i: int| 0 <= i < value.len() ==> label_char(#[trigger] value[i]),
    ensures
        value.filter(|c: char| label_char(c)) == value,
    decreases value.len(),
{
    reveal(Seq::filter);
    if value.len() > 0 {
        assert forall|i: int| 0 <= i < value.drop_last().len() implies label_char(
            #[trigger] value.drop_last()[i],
        ) by {
            assert(value.drop_last()[i] == value[i]);
        }
        lemma_label_chars(value.drop_last());
        assert(label_char(value[value.len() - 1]));
        assert(value.drop_last().push(value.last()) =~= value);
    } else {
        assert(value.filter(|c: char| label_char(c)) =~= value);
    }
}

/// Of each of the first five calls a derived conclusion says what tool it was and how it ended.
pub proof fn law_derived_actions_name_the_calls(
    result: Result<(), TriageError>,
    dispatch_reason: Option<Seq<char>>,
    observations: Seq<ToolObservation>,
    k: int,
)
    requires
        0 <= k < observations.len(),
        k < 5,
        0 < observations[k].name@.len() <= 64,
        forall|i: int|
            0 <= i < observations[k].name@.len() ==> {
                let c = #[trigger] observations[k].name@[i];
                'a' <= c <= 'z' || 'A' <= c <= 'Z' || '0' <= c <= '9' || c == '-' || c == '_'
            },
    ensures
        derived(result, dispatch_reason, observations).actions[k] == observations[k].name@ + (
        match observations[k].outcome {
            ToolObservationOutcome::Succeeded => " tool completed."@,
            ToolObservationOutcome::Failed => " tool failed."@,
            ToolObservationOutcome::Denied => " tool was denied."@,
        }),
{
    lemma_label_chars(observations[k].name@);
    reveal_strlit(" tool ");
    reveal_strlit("completed");
    reveal_strlit("failed");
    reveal_strlit("was denied");
    reveal_strlit(".");
    reveal_strlit(" tool completed.");
    reveal_strlit(" tool failed.");
    reveal_strlit(" tool was denied.");
    let action = derived(result, dispatch_reason, observations).actions[k];
    assert(action == action_of(observations[k]));
    assert(action =~= observations[k].name@ + (match observations[k].outcome {
        ToolObservationOutcome::Succeeded => " tool completed."@,
        ToolObservationOutcome::Failed => " tool failed."@,
        ToolObservationOutcome::Denied => " tool was denied."@,
    }));
}

} // verus!
