//! One triage run, from its dispatch to its end.
use vstd::prelude::*;

use crate::agent::command_policy::{filtered, CommandPolicy};
use crate::agent::conclusions::{
    actions_of, context_label, derived, fallback_conclusion, observed_actions, safe_context_label,
    strip_conclusion, without_conclusion, ToolObservation,
};
use crate::agent::errors::{termination_of, TriageError};
use crate::agent::model;
use crate::config::{IntakeConfig, TriageConfig};
use crate::database::records::{
    ConclusionModel, ConclusionSource, EventRecord, RunFinish, RunMetadata, RunOutcome,
    TriageConclusion, TriageDecision,
};
use crate::database::tables::opt_conclusion;
use crate::errors::{stated, ErrorCategory};
use crate::json;
use crate::text;

verus! {

/// What is sent back for a call of a tool that does not exist.
pub const UNKNOWN_TOOL: &'static str = "denied: tool is outside the intake capability set";

// ---------------------------------------------------------------------------------------------
// What is shown
// ---------------------------------------------------------------------------------------------

/// The text cut to so many bytes, with a notice where something was cut off.
pub open spec fn bounded(s: Seq<char>, max_bytes: nat) -> Seq<char> {
    if text::byte_len(s) <= max_bytes {
        s
    } else {
        text::byte_prefix(s, max_bytes) + "\n… output truncated"@
    }
}

/// The text cut to so many bytes, with a notice where something was cut off.
pub fn bounded_chars(value: &str, max_bytes: u64) -> (out: String)
    ensures
        out@ == bounded(value@, max_bytes as nat),
{
    if text::byte_count(&text::chars_of(value)) <= max_bytes as u128 {
        return value.to_owned();
    }
    let mut out = text::take_bytes(value, max_bytes);
    out.append("\n… output truncated");
    out
}

/// What is shown of an output on the terminal.
pub fn terminal_preview(value: &str) -> (out: String)
    ensures
        out@ == bounded(value@, 4000),
{
    bounded_chars(value, 4000)
}

/// The argument of a tool that is shown for a call of it.
pub open spec fn shown_argument(tool: Seq<char>) -> Option<Seq<char>> {
    if tool == "bash"@ {
        Some("command"@)
    } else if tool == "read"@ || tool == "write"@ {
        Some("path"@)
    } else {
        None
    }
}

/// The argument of a tool that is shown for a call of it.
pub fn summary_argument(tool: &str) -> (argument: Option<&'static str>)
    ensures
        text::opt_str(argument) == shown_argument(tool@),
{
    if text::same(tool, "bash") {
        Some("command")
    } else if text::same(tool, "read") || text::same(tool, "write") {
        Some("path")
    } else {
        None
    }
}

/// What is shown for a call of a tool, given the text of the argument that is shown. None where
/// the tool has no such argument, and where the call has no text for it.
pub fn tool_summary(tool: &str, argument: Option<&str>, policy: &CommandPolicy) -> (summary: Option<
    String,
>)
    ensures
        text::opt_text(summary) == (match (shown_argument(tool@), text::opt_str(argument)) {
            (Some(_), Some(value)) => Some(bounded(filtered(policy@.filters, value), 1000)),
            _ => None,
        }),
{
    match (summary_argument(tool), argument) {
        (Some(_), Some(value)) => Some(bounded_chars(policy.filter(value).as_str(), 1000)),
        _ => None,
    }
}

/// What is recorded of the agent's words: without the conclusion and blanks around them, and not
/// where nothing is left.
pub open spec fn recorded_words(words: Seq<char>) -> Option<Seq<char>> {
    let visible = text::trim(without_conclusion(words));
    if visible.len() == 0 {
        None
    } else {
        Some(bounded(visible, 4000))
    }
}

/// What is recorded of the agent's words.
pub fn visible_words(words: &str) -> (out: Option<String>)
    ensures
        text::opt_text(out) == recorded_words(words@),
{
    let visible = text::trim_str(strip_conclusion(words).as_str());
    if visible.as_str().is_empty() {
        None
    } else {
        Some(bounded_chars(visible.as_str(), 4000))
    }
}

/// Something that is recorded of a response of the model.
#[derive(Debug)]
pub enum ResponseNote {
    /// A summary of its reasoning.
    Thought(String),
    /// Its words.
    Said(String),
}

/// What the contracts say of something that is recorded of a response.
pub enum NoteModel {
    Thought(Seq<char>),
    Said(Seq<char>),
}

impl View for ResponseNote {
    type V = NoteModel;

    open spec fn view(&self) -> NoteModel {
        match *self {
            ResponseNote::Thought(summary) => NoteModel::Thought(summary@),
            ResponseNote::Said(words) => NoteModel::Said(words@),
        }
    }
}

/// What the contracts say of what is recorded of a response.
pub open spec fn note_models(notes: Seq<ResponseNote>) -> Seq<NoteModel> {
    notes.map_values(|note: ResponseNote| note@)
}

/// What is recorded of the words of a response, of those that are left.
pub open spec fn said(parts: Seq<Seq<char>>) -> Seq<NoteModel>
    decreases parts.len(),
{
    if parts.len() == 0 {
        Seq::empty()
    } else {
        let before = said(parts.drop_last());
        match recorded_words(parts.last()) {
            Some(words) => before.push(NoteModel::Said(words)),
            None => before,
        }
    }
}

/// What is recorded of a response: first what the model thought, then what it said.
pub open spec fn response_record(summaries: Seq<Seq<char>>, parts: Seq<Seq<char>>) -> Seq<NoteModel> {
    summaries.map_values(|summary: Seq<char>| NoteModel::Thought(bounded(summary, 4000))) + said(
        parts,
    )
}

/// What is recorded of a response, given the summaries of its reasoning and its words.
pub fn response_notes(summaries: &Vec<String>, parts: &Vec<String>) -> (notes: Vec<ResponseNote>)
    ensures
        note_models(notes@) == response_record(text::texts(summaries@), text::texts(parts@)),
{
    let ghost thoughts = text::texts(summaries@).map_values(
        |summary: Seq<char>| NoteModel::Thought(bounded(summary, 4000)),
    );
    let ghost spoken = text::texts(parts@);
    let mut notes: Vec<ResponseNote> = Vec::new();
    let total: usize = summaries.len();
    let mut i: usize = 0;
    while i < total
        invariant
            i <= total == summaries@.len(),
            thoughts == text::texts(summaries@).map_values(
                |summary: Seq<char>| NoteModel::Thought(bounded(summary, 4000)),
            ),
            notes@.len() == i,
            forall|k: int| 0 <= k < i ==> (#[trigger] notes@[k])@ == thoughts[k],
        decreases total - i,
    {
        notes.push(ResponseNote::Thought(bounded_chars(summaries[i].as_str(), 4000)));
        i += 1;
    }
    let count: usize = parts.len();
    let mut j: usize = 0;
    assert(note_models(notes@) =~= thoughts + said(spoken.take(0)));
    while j < count
        invariant
            j <= count == parts@.len(),
            spoken == text::texts(parts@),
            note_models(notes@) == thoughts + said(spoken.take(j as int)),
        decreases count - j,
    {
        assert(spoken.take(j + 1).drop_last() =~= spoken.take(j as int));
        assert(spoken.take(j + 1).last() == parts@[j as int]@);
        let ghost before = notes@;
        match visible_words(parts[j].as_str()) {
            Some(words) => {
                notes.push(ResponseNote::Said(words));
                assert(note_models(notes@) =~= note_models(before).push(NoteModel::Said(words@)));
                assert(note_models(notes@) =~= thoughts + said(spoken.take(j + 1)));
            },
            None => {},
        }
        j += 1;
    }
    assert(spoken.take(j as int) =~= spoken);
    notes
}

/// What the terminal shows of something that is recorded of a response.
pub open spec fn note_line(note: NoteModel, filters: Seq<(Seq<char>, bool)>) -> Seq<char> {
    match note {
        NoteModel::Thought(summary) => "thinking │ "@ + filtered(filters, summary),
        NoteModel::Said(words) => "assistant │ "@ + filtered(filters, words),
    }
}

/// What the terminal shows of something that is recorded of a response.
pub fn note_report(note: &ResponseNote, policy: &CommandPolicy) -> (line: String)
    ensures
        line@ == note_line(note@, policy@.filters),
{
    match note {
        ResponseNote::Thought(summary) => {
            let mut line = "thinking │ ".to_owned();
            line.append(policy.filter(summary.as_str()).as_str());
            line
        },
        ResponseNote::Said(words) => {
            let mut line = "assistant │ ".to_owned();
            line.append(policy.filter(words.as_str()).as_str());
            line
        },
    }
}

// ---------------------------------------------------------------------------------------------
// The start
// ---------------------------------------------------------------------------------------------

/// Whether an event can be triaged: its content is there and is JSON.
pub fn check_event(payload: Option<&str>) -> (result: Result<(), TriageError>)
    ensures
        match text::opt_str(payload) {
            None => result matches Err(TriageError::UnavailableEvent),
            Some(content) => match json::json_problem(content) {
                Some(problem) => result matches Err(TriageError::Json(message)) && message@
                    == problem,
                None => result is Ok,
            },
        },
{
    match payload {
        None => Err(TriageError::UnavailableEvent),
        Some(content) => match json::check_json(content) {
            Ok(()) => Ok(()),
            Err(message) => Err(TriageError::Json(message)),
        },
    }
}

/// Whether the skills can be used: nothing is said against them.
pub fn check_skills(diagnostics: &Vec<String>) -> (result: Result<(), TriageError>)
    ensures
        if diagnostics@.len() == 0 {
            result is Ok
        } else {
            result matches Err(TriageError::SkillValidation(message)) && message@ == text::join(
                text::texts(diagnostics@),
                "\n"@,
            )
        },
{
    if diagnostics.len() == 0 {
        Ok(())
    } else {
        Err(TriageError::SkillValidation(text::join_strings(diagnostics, "\n")))
    }
}

/// The root in which commands run: the first one.
pub fn working_root(project_roots: &Vec<String>) -> (result: Result<String, TriageError>)
    ensures
        if project_roots@.len() == 0 {
            result matches Err(TriageError::Configuration(message)) && message@
                == "project_roots is empty"@
        } else {
            result matches Ok(root) && root@ == project_roots@[0]@
        },
{
    if project_roots.len() == 0 {
        Err(TriageError::Configuration("project_roots is empty".to_owned()))
    } else {
        Ok(project_roots[0].as_str().to_owned())
    }
}

/// Why an event is triaged.
pub open spec fn reason_of(event: EventRecord) -> Seq<char> {
    "Dispatched because "@ + context_label(event.source@, "intake source"@) + " reported a "@
        + context_label(event.kind@, "item"@)
        + " event that entered the triage queue (attempt "@ + text::decimal(
        event.attempt_count as nat,
    ) + ")."@
}

/// Why an event is triaged.
pub fn dispatch_reason(event: &EventRecord) -> (out: String)
    ensures
        out@ == reason_of(*event),
{
    let mut out = "Dispatched because ".to_owned();
    out.append(safe_context_label(event.source.as_str(), "intake source").as_str());
    out.append(" reported a ");
    out.append(safe_context_label(event.kind.as_str(), "item").as_str());
    out.append(" event that entered the triage queue (attempt ");
    out.append(text::decimal_of(event.attempt_count as u128).as_str());
    out.append(").");
    out
}

/// What is recorded of the model of a run.
pub fn run_metadata(triage: &TriageConfig) -> (metadata: RunMetadata)
    ensures
        text::opt_text(metadata.model_id) == Some(triage.model@),
        text::opt_text(metadata.model_provider) == Some("chatgpt"@),
        text::opt_text(metadata.thinking_level) == Some(
            model::level_of(triage.thinking_level).name(),
        ),
        metadata.context_window is None,
        metadata.max_tokens is None,
{
    RunMetadata {
        model_id: Some(triage.model.as_str().to_owned()),
        model_provider: Some("chatgpt".to_owned()),
        thinking_level: Some(model::thinking(triage.thinking_level).wire_name().to_owned()),
        context_window: None,
        max_tokens: None,
    }
}

/// How many seconds a run may take.
pub fn wall_timeout_seconds(timeout_minutes: u64) -> (seconds: u64)
    ensures
        seconds == (if timeout_minutes * 60 <= u64::MAX {
            timeout_minutes * 60
        } else {
            u64::MAX as int
        }),
{
    match timeout_minutes.checked_mul(60) {
        Some(seconds) => seconds,
        None => u64::MAX,
    }
}

/// Whether one of the projects has the repository, whatever the case of its letters.
pub open spec fn known(projects: Seq<Vec<String>>, repository: Seq<char>) -> bool {
    exists|i: int| 0 <= i < projects.len() && known_to(#[trigger] projects[i]@, repository)
}

/// Whether a project has the repository, whatever the case of its letters.
pub open spec fn known_to(repositories: Seq<String>, repository: Seq<char>) -> bool {
    exists|i: int|
        0 <= i < repositories.len() && text::lower(#[trigger] repositories[i]@) == text::lower(
            repository,
        )
}

fn is_known_to(repositories: &Vec<String>, repository: &str) -> (b: bool)
    ensures
        b == known_to(repositories@, repository@),
{
    let wanted = text::lower_str(repository);
    let mut i: usize = 0;
    while i < repositories.len()
        invariant
            i <= repositories@.len(),
            wanted@ == text::lower(repository@),
            forall|k: int|
                0 <= k < i ==> text::lower(#[trigger] repositories@[k]@) != text::lower(
                    repository@,
                ),
        decreases repositories@.len() - i,
    {
        if text::same(text::lower_str(repositories[i].as_str()).as_str(), wanted.as_str()) {
            return true;
        }
        i += 1;
    }
    false
}

/// Whether one of the projects, given by their repositories, has the repository.
pub fn is_known(projects: &Vec<Vec<String>>, repository: &str) -> (b: bool)
    ensures
        b == known(projects@, repository@),
{
    let mut i: usize = 0;
    while i < projects.len()
        invariant
            i <= projects@.len(),
            forall|k: int| 0 <= k < i ==> !known_to(#[trigger] projects@[k]@, repository@),
        decreases projects@.len() - i,
    {
        if is_known_to(&projects[i], repository) {
            return true;
        }
        i += 1;
    }
    false
}

/// The roots below which the agent may read: those of the projects, those of the skills, and the
/// project registry.
pub fn read_roots(config: &IntakeConfig, registry_path: &str) -> (roots: Vec<String>)
    ensures
        text::texts(roots@) == text::texts(config.project_roots@) + text::texts(
            config.skills.approved_roots@,
        ) + seq![registry_path@],
{
    let mut roots = text::copy_all(&config.project_roots);
    let mut more = text::copy_all(&config.skills.approved_roots);
    let ghost first = roots@;
    let ghost second = more@;
    roots.append(&mut more);
    assert(text::texts(roots@) =~= text::texts(first) + text::texts(second));
    let ghost before = roots@;
    roots.push(registry_path.to_owned());
    assert(text::texts(roots@) =~= text::texts(before) + seq![registry_path@]);
    roots
}

// ---------------------------------------------------------------------------------------------
// Calls of tools
// ---------------------------------------------------------------------------------------------

/// What is wrong with a call of a tool by the plain rules: the name, and the arguments, of which
/// it is known, where they are an object, how many there are and whether `value` is a text.
pub open spec fn call_problem(tool: Seq<char>, arguments: Option<(usize, bool)>) -> Option<
    Seq<char>,
> {
    if tool != "bash"@ && tool != "read"@ && tool != "write"@ {
        Some("tool is outside the intake capability set"@)
    } else {
        match arguments {
            None => Some("tool arguments must be an object"@),
            Some((count, has_value)) => if count != 1 || !has_value {
                Some("tool arguments failed compatibility policy"@)
            } else {
                None
            },
        }
    }
}

/// Checks a call of a tool by the plain rules.
pub fn authorize_tool_call(tool: &str, arguments: Option<(usize, bool)>) -> (result: Result<
    (),
    String,
>)
    ensures
        stated(result) == call_problem(tool@, arguments),
{
    if !text::same(tool, "bash") && !text::same(tool, "read") && !text::same(tool, "write") {
        return Err("tool is outside the intake capability set".to_owned());
    }
    match arguments {
        None => Err("tool arguments must be an object".to_owned()),
        Some((count, has_value)) => {
            if count != 1 || !has_value {
                Err("tool arguments failed compatibility policy".to_owned())
            } else {
                Ok(())
            }
        },
    }
}

// ---------------------------------------------------------------------------------------------
// The end
// ---------------------------------------------------------------------------------------------

/// What a run came to: its own result, the order to stop, or the end of its time. A run that is
/// stopped ends before this is known, whatever its own result.
#[derive(Debug)]
pub enum RunSignal {
    Finished(Result<(), TriageError>),
    Stopped,
    OutOfTime,
}

/// The result of a run.
pub fn run_result(signal: RunSignal) -> (result: Result<(), TriageError>)
    ensures
        match signal {
            RunSignal::Finished(own) => result == own,
            RunSignal::Stopped => result matches Err(TriageError::Cancelled),
            RunSignal::OutOfTime => result matches Err(TriageError::WallTimeout),
        },
{
    match signal {
        RunSignal::Finished(own) => own,
        RunSignal::Stopped => Err(TriageError::Cancelled),
        RunSignal::OutOfTime => Err(TriageError::WallTimeout),
    }
}

/// How the end of a run is recorded: its outcome, its category and its reason.
pub open spec fn run_record(result: Result<(), TriageError>) -> (
    RunOutcome,
    Option<ErrorCategory>,
    Seq<char>,
) {
    match result {
        Ok(_) => (RunOutcome::Succeeded, None, "completed"@),
        Err(TriageError::Cancelled) => (
            RunOutcome::Interrupted,
            Some(ErrorCategory::Aborted),
            "aborted"@,
        ),
        Err(TriageError::WallTimeout) => (
            RunOutcome::Failed,
            Some(ErrorCategory::Timeout),
            "wall_timeout"@,
        ),
        Err(error) => (
            RunOutcome::Failed,
            Some(error.category_of()),
            termination_of(error.category_of()),
        ),
    }
}

/// The conclusion that is recorded: the agent's own, or the derived one; with the calls of tools
/// as actions where it names none.
pub open spec fn final_conclusion(
    own: Option<ConclusionModel>,
    result: Result<(), TriageError>,
    reason: Seq<char>,
    observations: Seq<ToolObservation>,
) -> ConclusionModel {
    let conclusion = match own {
        Some(own) => own,
        None => derived(result, Some(reason), observations),
    };
    if conclusion.actions.len() == 0 {
        ConclusionModel { actions: actions_of(observations), ..conclusion }
    } else {
        conclusion
    }
}

/// How the end of a run is recorded, and with which conclusion. The recording is complete unless
/// the log failed or the run itself ended because of its recording.
pub fn finish_run(
    result: &Result<(), TriageError>,
    log_failed: bool,
    conclusion: Option<TriageConclusion>,
    dispatch_reason: &str,
    observations: &Vec<ToolObservation>,
) -> (end: (RunFinish, TriageConclusion))
    ensures
        ({
            let (outcome, category, reason) = run_record(*result);
            &&& end.0.outcome == outcome
            &&& end.0.failure_category == category
            &&& end.0.termination_reason@ == reason
        }),
        end.0.recording_complete == (!log_failed && !(*result matches Err(
            TriageError::RecordingFailure,
        ))),
        end.1@ == final_conclusion(
            opt_conclusion(conclusion),
            *result,
            dispatch_reason@,
            observations@,
        ),
{
    let (outcome, failure_category, reason) = match result {
        Ok(_) => (RunOutcome::Succeeded, None, "completed"),
        Err(TriageError::Cancelled) => (
            RunOutcome::Interrupted,
            Some(ErrorCategory::Aborted),
            "aborted",
        ),
        Err(TriageError::WallTimeout) => (
            RunOutcome::Failed,
            Some(ErrorCategory::Timeout),
            "wall_timeout",
        ),
        Err(error) => (RunOutcome::Failed, Some(error.category()), error.termination_reason()),
    };
    let recording_failed = match result {
        Err(TriageError::RecordingFailure) => true,
        _ => false,
    };
    let mut chosen = match conclusion {
        Some(own) => own,
        None => fallback_conclusion(result, Some(dispatch_reason), observations),
    };
    if chosen.actions.len() == 0 {
        chosen.actions = observed_actions(observations);
    }
    (
        RunFinish {
            outcome,
            termination_reason: reason.to_owned(),
            failure_category,
            recording_complete: !log_failed && !recording_failed,
        },
        chosen,
    )
}

/// A run succeeds exactly where it is recorded so, and then without a category; and a run that
/// was stopped is recorded as interrupted.
pub proof fn law_recorded_outcome(result: Result<(), TriageError>)
    ensures
        run_record(result).0 == RunOutcome::Succeeded <==> result is Ok,
        run_record(result).1 is None <==> result is Ok,
        run_record(result).0 == RunOutcome::Interrupted <==> (result matches Err(
            TriageError::Cancelled,
        )),
{
}

/// Where the agent wrote a conclusion of its own, that one is recorded: its decision, its words
/// and its actions. Only where it names no action the calls of tools stand in their place. Where it
/// wrote none, a derived one is recorded.
pub proof fn law_own_conclusions_are_recorded(
    own: ConclusionModel,
    result: Result<(), TriageError>,
    reason: Seq<char>,
    observations: Seq<ToolObservation>,
)
    ensures
        ({
            let recorded = final_conclusion(Some(own), result, reason, observations);
            &&& recorded.decision == own.decision
            &&& recorded.summary == own.summary
            &&& recorded.evidence == own.evidence
            &&& recorded.outcome == own.outcome
            &&& recorded.follow_up == own.follow_up
            &&& recorded.source == own.source
            &&& own.actions.len() > 0 ==> recorded.actions == own.actions
            &&& own.actions.len() == 0 ==> recorded.actions.len() == (if observations.len() <= 5 {
                observations.len() as int
            } else {
                5int
            })
        }),
        ({
            let recorded = final_conclusion(None, result, reason, observations);
            &&& recorded.source == ConclusionSource::Derived
            &&& recorded.evidence.len() > 0 && recorded.evidence[0] == reason
            &&& result is Ok ==> recorded.decision == TriageDecision::NoAction
            &&& result is Err && result->Err_0 is Cancelled ==> recorded.decision
                == TriageDecision::Canceled
            &&& result is Err && result->Err_0 is WallTimeout ==> recorded.decision
                == TriageDecision::TimedOut
        }),
{
}

/// A run that completed is recorded so; one that was canceled as interrupted, one that ran out of
/// time with that category and reason, and any other as failed with the category of its error.
pub proof fn law_ends_are_recorded(result: Result<(), TriageError>)
    ensures
        result is Ok ==> run_record(result) == (
            RunOutcome::Succeeded,
            None::<ErrorCategory>,
            "completed"@,
        ),
        result matches Err(error) ==> {
            let (outcome, category, reason) = run_record(result);
            &&& category is Some
            &&& error is Cancelled ==> outcome == RunOutcome::Interrupted && category == Some(
                ErrorCategory::Aborted,
            ) && reason == "aborted"@
            &&& error is WallTimeout ==> outcome == RunOutcome::Failed && category == Some(
                ErrorCategory::Timeout,
            ) && reason == "wall_timeout"@
            &&& !(error is Cancelled) ==> outcome == RunOutcome::Failed && category == Some(
                error.category_of(),
            )
        },
{
}

/// What the agent says is recorded whole where it takes no more than four thousand bytes and has
/// no conclusion and no blanks around it; and a text that is too long by its longest beginning that
/// fits, with a notice below it.
pub proof fn law_words_are_recorded_whole(s: Seq<char>, max_bytes: nat)
    ensures
        text::byte_len(s) <= max_bytes ==> bounded(s, max_bytes) == s,
        text::byte_len(s) > max_bytes ==> exists|n: int|
            0 <= n < s.len() && bounded(s, max_bytes) == #[trigger] s.take(n)
                + "\n… output truncated"@ && text::byte_len(s.take(n)) <= max_bytes && max_bytes
                < text::byte_len(s.take(n + 1)),
        text::byte_len(s) <= 4000 && s.len() > 0 && !text::contains(s, "<triage-conclusion>"@)
            && !text::whitespace(s[0]) && !text::whitespace(s.last()) ==> recorded_words(s)
            == Some(s),
{
    text::lemma_fitting(s, max_bytes);
    assert(s.take(s.len() as int) =~= s);
    if text::byte_len(s) > max_bytes {
        let n = text::fitting(s, max_bytes);
        assert(bounded(s, max_bytes) == s.take(n) + "\n… output truncated"@);
    }
    if !text::contains(s, "<triage-conclusion>"@) {
        lemma_no_mark(s, s.len() as int);
    }
}

proof fn lemma_no_mark(s: Seq<char>, from: int)
    requires
        !text::contains(s, "<triage-conclusion>"@),
    ensures
        text::find_last(s, "<triage-conclusion>"@, from) is None,
    decreases from + 1,
{
    if from >= 0 {
        assert(!text::occurs_at(s, "<triage-conclusion>"@, from));
        lemma_no_mark(s, from - 1);
    }
}

/// A call is refused by the plain rules exactly where its tool is none of the three, its arguments
/// are no object, or it has not the one argument that is a text.
pub proof fn law_plain_rules_of_calls(tool: Seq<char>, arguments: Option<(usize, bool)>)
    ensures
        call_problem(tool, arguments) is None <==> (tool == "bash"@ || tool == "read"@ || tool
            == "write"@) && arguments == Some((1usize, true)),
{
}

} // verus!
