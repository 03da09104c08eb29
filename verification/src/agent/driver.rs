//! The loop that drives an agent: model calls, retries, compaction, and tools.
use vstd::arithmetic::power2::pow2;
use vstd::prelude::*;

use crate::agent::context::{
    candidate_at, candidate_range, compacted, models, projected_models, projection,
    summary_request, CandidateModel, CompactionCandidate, CompactionConfig, ContextManager,
    ContextModel, Message, MessageModel, Projected, ProjectedModel,
};
use crate::agent::errors::{
    context_limited, is_context_limit, EngineError, FailureKind, ProviderFailure,
};
use crate::agent::model::{
    compatibility_tools, fixture_tool, bash_tool, read_tool, tool_models, triage_tools, write_tool,
    ThinkingLevel, ToolModel, ToolSpec,
};
use crate::agent::tools::{denial, ResultModel, ToolCallResult};
use crate::database::records::SpanOutcome;
use crate::errors::{contains_one, holds_one};
use crate::text;

verus! {

// ---------------------------------------------------------------------------------------------
// Retries
// ---------------------------------------------------------------------------------------------

/// How many nanoseconds make a second.
pub const NANOSECONDS: u32 = 1_000_000_000;

/// A length of time, to the nanosecond.
#[derive(Clone, Copy, Debug, PartialEq, Eq, Structural)]
pub struct Delay {
    seconds: u64,
    nanoseconds: u32,
}

/// The length of time in nanoseconds.
impl View for Delay {
    type V = nat;

    closed spec fn view(&self) -> nat {
        (self.seconds * NANOSECONDS + self.nanoseconds) as nat
    }
}

impl Delay {
    /// The nanoseconds do not make up a second.
    #[verifier::type_invariant]
    spec fn split(self) -> bool {
        self.nanoseconds < NANOSECONDS
    }

    /// So many seconds and nanoseconds.
    pub fn new(seconds: u64, nanoseconds: u32) -> (delay: Self)
        requires
            seconds + nanoseconds / NANOSECONDS <= u64::MAX,
        ensures
            delay@ == seconds * NANOSECONDS + nanoseconds,
    {
        let carried: u32 = nanoseconds / NANOSECONDS;
        Delay { seconds: seconds + carried as u64, nanoseconds: nanoseconds % NANOSECONDS }
    }

    /// So many milliseconds.
    pub fn from_millis(millis: u64) -> (delay: Self)
        ensures
            delay@ == millis * 1_000_000,
    {
        Delay { seconds: millis / 1000, nanoseconds: (millis % 1000) as u32 * 1_000_000 }
    }

    /// The whole seconds.
    pub fn seconds(&self) -> (seconds: u64)
        ensures
            seconds == self@ / NANOSECONDS as nat,
    {
        proof {
            use_type_invariant(self);
        }
        self.seconds
    }

    /// The nanoseconds beyond the whole seconds.
    pub fn nanoseconds(&self) -> (nanoseconds: u32)
        ensures
            nanoseconds == self@ % NANOSECONDS as nat,
    {
        proof {
            use_type_invariant(self);
        }
        self.nanoseconds
    }

    fn total(&self) -> (total: u128)
        ensures
            total == self@,
            total < 18_446_744_073_709_551_616 * NANOSECONDS,
    {
        proof {
            use_type_invariant(self);
        }
        self.seconds as u128 * 1_000_000_000 + self.nanoseconds as u128
    }
}

/// How often and how fast a failed completion is tried again.
#[derive(Clone, Copy, Debug, PartialEq, Eq, Structural)]
pub struct ProviderRetryPolicy {
    pub max_retries: usize,
    pub initial_delay: Delay,
    pub max_delay: Delay,
}

impl Default for ProviderRetryPolicy {
    fn default() -> (policy: Self)
        ensures
            policy.max_retries == 2,
            policy.initial_delay@ == 250_000_000,
            policy.max_delay@ == 2_000_000_000,
    {
        ProviderRetryPolicy {
            max_retries: 2,
            initial_delay: Delay::from_millis(250),
            max_delay: Delay::from_millis(2000),
        }
    }
}

/// What the first delay is multiplied by: it doubles with every retry, up to the largest
/// 32-bit number.
pub open spec fn doubling(exponent: nat) -> nat {
    if exponent < 32 {
        pow2(exponent)
    } else {
        4294967295
    }
}

/// The delay, in nanoseconds, before a retry. Retries are counted from one.
pub open spec fn delay_of(policy: ProviderRetryPolicy, retry: nat) -> nat {
    let exponent = if retry == 0 {
        0
    } else {
        (retry - 1) as nat
    };
    let delay = policy.initial_delay@ * doubling(exponent);
    if delay <= policy.max_delay@ {
        delay
    } else {
        policy.max_delay@
    }
}

/// The delay before a retry.
pub fn retry_delay(policy: &ProviderRetryPolicy, retry: usize) -> (delay: Delay)
    ensures
        delay@ == delay_of(*policy, retry as nat),
        delay@ <= policy.max_delay@,
{
    let exponent: usize = if retry == 0 {
        0
    } else {
        retry - 1
    };
    let mut factor: u128 = 1;
    let mut i: usize = 0;
    proof {
        vstd::arithmetic::power2::lemma2_to64();
    }
    while i < exponent && i < 32
        invariant
            i <= exponent,
            i <= 32,
            factor == pow2(i as nat),
            factor <= 4294967296,
            pow2(32) == 4294967296,
        decreases 32 - i,
    {
        proof {
            vstd::arithmetic::power2::lemma_pow2_unfold((i + 1) as nat);
            if i + 1 < 32 {
                vstd::arithmetic::power2::lemma_pow2_strictly_increases((i + 1) as nat, 32);
            }
        }
        factor = factor * 2;
        i += 1;
    }
    if factor > 4294967295 {
        factor = 4294967295;
    }
    assert(factor == doubling(exponent as nat)) by {
        if exponent < 32 {
            vstd::arithmetic::power2::lemma_pow2_strictly_increases(exponent as nat, 32);
        }
    }
    let initial: u128 = policy.initial_delay.total();
    let longest: u128 = policy.max_delay.total();
    assert(initial * factor <= 18_446_744_073_709_551_616 * 1_000_000_000 * 4294967295)
        by (nonlinear_arith)
        requires
            initial <= 18_446_744_073_709_551_616 * 1_000_000_000,
            factor <= 4294967295,
    ;
    let delay: u128 = initial * factor;
    if delay <= longest {
        let whole: u128 = NANOSECONDS as u128;
        Delay { seconds: (delay / whole) as u64, nanoseconds: (delay % whole) as u32 }
    } else {
        policy.max_delay
    }
}

/// A number of nanoseconds in whole milliseconds, or the largest number of them.
pub open spec fn whole_millis(nanoseconds: nat) -> nat {
    let millis = nanoseconds / 1_000_000;
    if millis <= u64::MAX {
        millis
    } else {
        u64::MAX as nat
    }
}

/// A length of time in whole milliseconds.
pub fn duration_millis(duration: Delay) -> (millis: u64)
    ensures
        millis == whole_millis(duration@),
{
    let total: u128 = duration.total() / 1_000_000;
    if total <= u64::MAX as u128 {
        total as u64
    } else {
        u64::MAX
    }
}

/// The reason that is recorded for a retry.
pub open spec fn reason_of(failure: ProviderFailure) -> Seq<char> {
    match failure.status {
        Some(status) => if status == 429 {
            "rate_limit"@
        } else if 500 <= status <= 599 {
            "server"@
        } else {
            "provider"@
        },
        None => if text::contains(failure.display@, "429"@) {
            "rate_limit"@
        } else if text::contains(failure.display@, "500"@) {
            "server"@
        } else {
            "transport"@
        },
    }
}

/// The reason that is recorded for a retry.
pub fn retry_reason(failure: &ProviderFailure) -> (out: &'static str)
    ensures
        out@ == reason_of(*failure),
{
    match failure.status {
        Some(status) => {
            if status == 429 {
                "rate_limit"
            } else if 500 <= status && status <= 599 {
                "server"
            } else {
                "provider"
            }
        },
        None => {
            if text::contains_str(failure.display.as_str(), "429") {
                "rate_limit"
            } else if text::contains_str(failure.display.as_str(), "500") {
                "server"
            } else {
                "transport"
            }
        },
    }
}

/// The statuses after which another try may succeed.
pub open spec fn passing_status(status: u16) -> bool {
    status == 408 || status == 409 || status == 425 || status == 429 || status == 500 || status
        == 502 || status == 503 || status == 504
}

/// The words of a provider after which another try may succeed.
pub open spec fn passing_words() -> Seq<Seq<char>> {
    seq![
        "http 408"@,
        "http 409"@,
        "http 425"@,
        "http 429"@,
        "http 500"@,
        "http 502"@,
        "http 503"@,
        "http 504"@,
        "connection"@,
        "timeout"@,
        "temporarily unavailable"@,
        "overloaded"@,
    ]
}

/// Whether another try may succeed where this one failed.
pub open spec fn retryable(failure: ProviderFailure) -> bool {
    !context_limited(failure) && match failure.status {
        Some(status) => passing_status(status),
        None => failure.kind == FailureKind::Http || (failure.kind == FailureKind::Provider
            && holds_one(text::lower(failure.message@), passing_words())),
    }
}

/// Whether another try may succeed where this one failed.
pub fn is_retryable(failure: &ProviderFailure) -> (b: bool)
    ensures
        b == retryable(*failure),
{
    if is_context_limit(failure) {
        return false;
    }
    match failure.status {
        Some(status) => {
            status == 408 || status == 409 || status == 425 || status == 429 || status == 500
                || status == 502 || status == 503 || status == 504
        },
        None => {
            let words: [&str; 12] = [
                "http 408",
                "http 409",
                "http 425",
                "http 429",
                "http 500",
                "http 502",
                "http 503",
                "http 504",
                "connection",
                "timeout",
                "temporarily unavailable",
                "overloaded",
            ];
            assert(words@.map_values(|n: &str| n@) =~= passing_words());
            failure.kind == FailureKind::Http || (failure.kind == FailureKind::Provider
                && contains_one(
                &text::lower_chars(&text::chars_of(failure.message.as_str())),
                &words,
            ))
        },
    }
}

// ---------------------------------------------------------------------------------------------
// Requests
// ---------------------------------------------------------------------------------------------

/// What a completion is for.
#[derive(Clone, Copy, Debug, PartialEq, Eq, Structural)]
pub enum CompletionScope {
    Model,
    Compaction,
}

impl CompletionScope {
    pub open spec fn name(self) -> Seq<char> {
        match self {
            CompletionScope::Model => "model"@,
            CompletionScope::Compaction => "compaction"@,
        }
    }

    pub fn as_str(self) -> (out: &'static str)
        ensures
            out@ == self.name(),
    {
        match self {
            CompletionScope::Model => "model",
            CompletionScope::Compaction => "compaction",
        }
    }
}

/// Which tools a request offers.
#[derive(Clone, Copy, Debug, PartialEq, Eq, Structural)]
pub enum RequestTools {
    Compatibility,
    Production,
}

/// A model with the instructions and the tools that its requests carry.
pub struct RigModel<'a, M> {
    pub model: &'a M,
    pub system_instructions: String,
    pub thinking: ThinkingLevel,
    pub tools: RequestTools,
}

/// The tools that a request carries: none where a summary is asked for.
pub open spec fn tools_of(scope: CompletionScope, tools: RequestTools) -> Seq<ToolModel> {
    match (scope, tools) {
        (CompletionScope::Compaction, RequestTools::Production) => Seq::empty(),
        (CompletionScope::Model, RequestTools::Production) => seq![
            bash_tool(),
            read_tool(),
            write_tool(),
        ],
        (_, RequestTools::Compatibility) => seq![
            fixture_tool("bash"@),
            fixture_tool("read"@),
            fixture_tool("write"@),
        ],
    }
}

impl<'a, M> RigModel<'a, M> {
    pub fn new(
        model: &'a M,
        system_instructions: &str,
        thinking: ThinkingLevel,
        tools: RequestTools,
    ) -> (out: Self)
        ensures
            out.model == model,
            out.system_instructions@ == system_instructions@,
            out.thinking == thinking,
            out.tools == tools,
    {
        RigModel { model, system_instructions: system_instructions.to_owned(), thinking, tools }
    }

    /// The tools that a request carries.
    pub fn request_tools(&self, scope: CompletionScope) -> (tools: Vec<ToolSpec>)
        ensures
            tool_models(tools@) == tools_of(scope, self.tools),
    {
        match (scope, self.tools) {
            (CompletionScope::Compaction, RequestTools::Production) => {
                let tools: Vec<ToolSpec> = Vec::new();
                assert(tool_models(tools@) =~= Seq::<ToolModel>::empty());
                tools
            },
            (CompletionScope::Model, RequestTools::Production) => triage_tools(),
            (_, RequestTools::Compatibility) => compatibility_tools(),
        }
    }
}

/// The names of the tools that the agent may call.
pub fn tool_names() -> (names: Vec<String>)
    ensures
        text::texts(names@) == seq!["bash"@, "read"@, "write"@],
{
    let mut names: Vec<String> = Vec::new();
    names.push("bash".to_owned());
    names.push("read".to_owned());
    names.push("write".to_owned());
    assert(text::texts(names@) =~= seq!["bash"@, "read"@, "write"@]);
    names
}

/// The text of a reply: its text parts, one per line. None where they are blank.
pub open spec fn reply_text(parts: Seq<Seq<char>>) -> Option<Seq<char>> {
    let joined = text::join(parts, "\n"@);
    if text::trim(joined).len() == 0 {
        None
    } else {
        Some(joined)
    }
}

/// The text of a reply.
pub fn assistant_text(parts: &Vec<String>) -> (out: Option<String>)
    ensures
        text::opt_text(out) == reply_text(text::texts(parts@)),
{
    let joined = text::join_strings(parts, "\n");
    if text::trim_chars(&text::chars_of(joined.as_str())).len() == 0 {
        None
    } else {
        Some(joined)
    }
}

// ---------------------------------------------------------------------------------------------
// Tools
// ---------------------------------------------------------------------------------------------

/// How a span of work ended.
#[derive(Clone, Copy, Debug, PartialEq, Eq, Structural)]
pub enum SpanFinish {
    Completed,
    Failed,
    Interrupted,
}

/// How a tool call ended.
#[derive(Clone, Copy, Debug, PartialEq, Eq, Structural)]
pub enum ToolOutcome {
    Succeeded,
    Failed,
    Denied,
}

/// How a call with this result ended.
pub open spec fn outcome_of(result: ResultModel) -> ToolOutcome {
    if result.denied {
        ToolOutcome::Denied
    } else if result.failed {
        ToolOutcome::Failed
    } else {
        ToolOutcome::Succeeded
    }
}

/// How a tool call ended.
pub fn tool_outcome(result: &ToolCallResult) -> (outcome: ToolOutcome)
    ensures
        outcome == outcome_of(result@),
{
    if result.denied {
        ToolOutcome::Denied
    } else if result.failed {
        ToolOutcome::Failed
    } else {
        ToolOutcome::Succeeded
    }
}

/// What is recorded for a tool call that ended so.
pub fn tool_span_outcome(outcome: ToolOutcome) -> (out: SpanOutcome)
    ensures
        out == (match outcome {
            ToolOutcome::Denied => SpanOutcome::Aborted,
            ToolOutcome::Failed => SpanOutcome::Failed,
            ToolOutcome::Succeeded => SpanOutcome::Succeeded,
        }),
{
    match outcome {
        ToolOutcome::Denied => SpanOutcome::Aborted,
        ToolOutcome::Failed => SpanOutcome::Failed,
        ToolOutcome::Succeeded => SpanOutcome::Succeeded,
    }
}

/// The result of a call that was not authorized; none where the tool is to run.
pub fn refused_call(authorization: Result<(), String>) -> (result: Option<ToolCallResult>)
    ensures
        match authorization {
            Ok(()) => result is None,
            Err(reason) => result matches Some(refused) && refused@ == denial(reason@),
        },
{
    match authorization {
        Ok(()) => None,
        Err(reason) => Some(ToolCallResult::denied(reason)),
    }
}

/// A call of a tool that the model asks for.
#[derive(Debug)]
pub struct RequestedCall {
    pub id: String,
    pub call_id: Option<String>,
    /// The result that is known already, as JSON.
    pub known: Option<String>,
}

/// What the contracts say of a call.
#[verifier::ext_equal]
pub struct CallModel {
    pub id: Seq<char>,
    pub call_id: Option<Seq<char>>,
    pub known: Option<Seq<char>>,
}

impl View for RequestedCall {
    type V = CallModel;

    open spec fn view(&self) -> CallModel {
        CallModel {
            id: self.id@,
            call_id: text::opt_text(self.call_id),
            known: text::opt_text(self.known),
        }
    }
}

/// What the contracts say of the calls.
pub open spec fn call_models(calls: Seq<RequestedCall>) -> Seq<CallModel> {
    calls.map_values(|call: RequestedCall| call@)
}

/// What the model is told of a call.
#[derive(Debug)]
pub enum ToolAnswer {
    /// The result that was known already, as JSON.
    Known(String),
    /// The output of the call.
    Given { id: String, call_id: Option<String>, output: String },
}

/// What the contracts say of an answer.
#[verifier::ext_equal]
pub enum AnswerModel {
    Known(Seq<char>),
    Given { id: Seq<char>, call_id: Option<Seq<char>>, output: Seq<char> },
}

impl View for ToolAnswer {
    type V = AnswerModel;

    open spec fn view(&self) -> AnswerModel {
        match self {
            ToolAnswer::Known(result) => AnswerModel::Known(result@),
            ToolAnswer::Given { id, call_id, output } => AnswerModel::Given {
                id: id@,
                call_id: text::opt_text(*call_id),
                output: output@,
            },
        }
    }
}

/// What the contracts say of the answers.
pub open spec fn answer_models(answers: Seq<ToolAnswer>) -> Seq<AnswerModel> {
    answers.map_values(|answer: ToolAnswer| answer@)
}

/// The answer to a call with the output.
pub open spec fn answer_to(call: CallModel, output: Seq<char>) -> AnswerModel {
    AnswerModel::Given { id: call.id, call_id: call.call_id, output }
}

/// Whether the answer belongs to the call: the result that is known, or an output under the
/// name of the call.
pub open spec fn answers_call(answer: AnswerModel, call: CallModel) -> bool {
    match call.known {
        Some(result) => answer == AnswerModel::Known(result),
        None => answer matches AnswerModel::Given { id, call_id, .. } && id == call.id && call_id
            == call.call_id,
    }
}

// ---------------------------------------------------------------------------------------------
// The engine
// ---------------------------------------------------------------------------------------------

/// What a run records of itself.
#[derive(Clone, Copy, Debug, PartialEq, Eq, Structural)]
pub enum EngineStyle {
    /// Every turn and every compaction is closed, whatever ends it.
    Observed,
    /// A turn is closed where its first try fails or the conversation is too long; a
    /// compaction is closed where it succeeds.
    Recorded,
    /// No turns are recorded, and a conversation that has grown too large is compacted though
    /// nothing of it can be replaced.
    Plain,
}

#[derive(Clone, Copy, Debug, PartialEq, Eq, Structural)]
pub enum CompactionReason {
    Proactive,
    Emergency,
}

impl CompactionReason {
    pub open spec fn name(self) -> Seq<char> {
        match self {
            CompactionReason::Proactive => "proactive"@,
            CompactionReason::Emergency => "emergency"@,
        }
    }

    pub fn as_str(self) -> (out: &'static str)
        ensures
            out@ == self.name(),
    {
        match self {
            CompactionReason::Proactive => "proactive",
            CompactionReason::Emergency => "emergency",
        }
    }
}

/// How far a run has come.
#[derive(Clone, Copy, Debug, PartialEq, Eq, Structural)]
pub enum EngineState {
    /// The run is asked for its next step.
    Idle,
    /// The provider is asked for the next turn; a second time after an emergency compaction.
    Calling { turn: u32, second: bool, retries: usize },
    /// The delay before another try passes.
    Pausing { turn: u32, second: bool, retries: usize },
    /// The provider is asked for a summary.
    Compacting { turn: u32, reason: CompactionReason, retries: usize },
    /// The delay before another try for a summary passes.
    CompactionPausing { turn: u32, reason: CompactionReason, retries: usize },
    /// The end of the compaction is recorded.
    Settling { turn: u32, reason: CompactionReason },
    /// The beginning of the turn is recorded.
    Beginning { turn: u32 },
    /// The result of the call at the place is known, and is kept.
    Keeping { place: usize },
    /// It is decided whether the call at the place may run.
    Authorizing { place: usize },
    /// The call at the place runs.
    Executing { place: usize },
    /// The end of the call at the place is recorded.
    Closing { place: usize },
    Finished,
}

/// What happened.
#[derive(Debug)]
pub enum EngineEvent {
    /// The run wants the model to be called.
    ModelStep { turn: u32 },
    /// The run wants these tools to be called.
    ToolsStep { calls: Vec<RequestedCall> },
    /// The state of the run was saved, and the known result is taken.
    Kept,
    /// Whether the call may run, and the reason where it may not.
    Authorized(Result<(), String>),
    /// The call ran.
    Executed(ToolCallResult),
    /// The end of the call was recorded.
    Closed,
    /// The run is done; whether recording its tools failed.
    DoneStep { recording_failed: bool },
    /// The provider replied.
    Replied { input_tokens: u64, text: Option<String> },
    /// The provider failed.
    Failed(ProviderFailure),
    /// The delay passed.
    Slept,
    /// The end of the compaction was recorded.
    Settled,
    /// The beginning of the turn was recorded.
    Begun,
    /// The caller gave up.
    Cancelled,
}

/// What is done next.
#[derive(Debug)]
pub enum EngineAction {
    /// Ask the provider for a summary.
    Compact { reason: CompactionReason, messages: usize, prompt: String },
    /// Close the compaction, which succeeded.
    Settle,
    /// Record that the turn begins.
    Begin { turn: u32 },
    /// Ask the provider for the turn, with these messages.
    Call { turn: u32, messages: Vec<Projected> },
    /// Wait, then ask again.
    Retry {
        scope: CompletionScope,
        attempt: usize,
        max_retries: usize,
        delay: Delay,
        reason: &'static str,
    },
    /// Ask again.
    Again,
    /// Close the turn and hand the reply to the run.
    Accept { turn: u32 },
    /// Save the state of the run; the result of the call at the place is known.
    Keep { place: usize },
    /// Save the state of the run, record that the call at the place begins, and decide whether it
    /// may run.
    Authorize { place: usize },
    /// Run the call at the place.
    Execute { place: usize },
    /// Record the end of the call at the place.
    Close { place: usize, result: ToolCallResult, outcome: ToolOutcome },
    /// Hand the answers to the run: one for each call, in the order of the calls.
    Answer { answers: Vec<ToolAnswer> },
    /// The run succeeded.
    Succeed,
    /// The run failed: close the turn with the reason, close the compaction, and report.
    Fail { turn: Option<&'static str>, compaction: Option<SpanFinish>, error: EngineError },
    /// The event does not belong to this state.
    Ignore,
}

/// What the contracts say of an action.
pub enum ActionModel {
    Compact { reason: CompactionReason, messages: nat, prompt: Seq<char> },
    Settle,
    Begin { turn: u32 },
    Call { turn: u32, messages: Seq<ProjectedModel> },
    Retry { scope: CompletionScope, attempt: nat, max_retries: nat, delay: nat, reason: Seq<char> },
    Again,
    Accept { turn: u32 },
    Keep { place: nat },
    Authorize { place: nat },
    Execute { place: nat },
    Close { place: nat, result: ResultModel, outcome: ToolOutcome },
    Answer { answers: Seq<AnswerModel> },
    Succeed,
    Fail { turn: Option<Seq<char>>, compaction: Option<SpanFinish>, error: EngineError },
    Ignore,
}

impl View for EngineAction {
    type V = ActionModel;

    open spec fn view(&self) -> ActionModel {
        match self {
            EngineAction::Compact { reason, messages, prompt } => ActionModel::Compact {
                reason: *reason,
                messages: *messages as nat,
                prompt: prompt@,
            },
            EngineAction::Settle => ActionModel::Settle,
            EngineAction::Begin { turn } => ActionModel::Begin { turn: *turn },
            EngineAction::Call { turn, messages } => ActionModel::Call {
                turn: *turn,
                messages: projected_models(messages@),
            },
            EngineAction::Retry { scope, attempt, max_retries, delay, reason } => {
                ActionModel::Retry {
                    scope: *scope,
                    attempt: *attempt as nat,
                    max_retries: *max_retries as nat,
                    delay: delay@,
                    reason: reason@,
                }
            },
            EngineAction::Again => ActionModel::Again,
            EngineAction::Accept { turn } => ActionModel::Accept { turn: *turn },
            EngineAction::Keep { place } => ActionModel::Keep { place: *place as nat },
            EngineAction::Authorize { place } => ActionModel::Authorize { place: *place as nat },
            EngineAction::Execute { place } => ActionModel::Execute { place: *place as nat },
            EngineAction::Close { place, result, outcome } => ActionModel::Close {
                place: *place as nat,
                result: result@,
                outcome: *outcome,
            },
            EngineAction::Answer { answers } => ActionModel::Answer {
                answers: answer_models(answers@),
            },
            EngineAction::Succeed => ActionModel::Succeed,
            EngineAction::Fail { turn, compaction, error } => ActionModel::Fail {
                turn: text::opt_str(*turn),
                compaction: *compaction,
                error: *error,
            },
            EngineAction::Ignore => ActionModel::Ignore,
        }
    }
}

/// Where in a turn a failure strikes.
#[derive(Clone, Copy, PartialEq, Eq, Structural)]
pub enum Phase {
    /// Before the turn begins.
    Before,
    /// In the first try.
    First,
    /// In the compaction after the first try.
    Emergency,
    /// In the second try.
    Second,
}

/// Drives a run: decides, after everything that happens, what is done next.
#[derive(Debug)]
pub struct AgentEngine {
    style: EngineStyle,
    retry_policy: ProviderRetryPolicy,
    compaction_retry_policy: ProviderRetryPolicy,
    context: ContextManager,
    candidate: Option<CompactionCandidate>,
    calls: Vec<RequestedCall>,
    answers: Vec<ToolAnswer>,
    state: EngineState,
}

/// What the contracts say of an engine.
pub struct EngineModel {
    pub style: EngineStyle,
    pub retry_policy: ProviderRetryPolicy,
    pub compaction_retry_policy: ProviderRetryPolicy,
    pub context: ContextModel,
    pub candidate: Option<CandidateModel>,
    pub calls: Seq<CallModel>,
    pub answers: Seq<AnswerModel>,
    pub state: EngineState,
}

impl View for AgentEngine {
    type V = EngineModel;

    closed spec fn view(&self) -> EngineModel {
        EngineModel {
            style: self.style,
            retry_policy: self.retry_policy,
            compaction_retry_policy: self.compaction_retry_policy,
            context: self.context@,
            candidate: match self.candidate {
                Some(candidate) => Some(candidate@),
                None => None,
            },
            calls: call_models(self.calls@),
            answers: answer_models(self.answers@),
            state: self.state,
        }
    }
}

/// Whether the answers so far are those of the first so many calls, in their order.
pub open spec fn answered(engine: EngineModel, count: int) -> bool {
    &&& count <= engine.calls.len()
    &&& engine.answers.len() == count
    &&& forall|k: int|
        0 <= k < count ==> answers_call(#[trigger] engine.answers[k], engine.calls[k])
}

/// A turn counts no more retries than its policy allows; while a summary is asked for there is a
/// part of the conversation that it replaces; and while tools are called, all calls before the
/// present one are answered.
pub open spec fn engine_ok(engine: EngineModel) -> bool {
    match engine.state {
        EngineState::Idle | EngineState::Finished => true,
        EngineState::Settling { .. } | EngineState::Beginning { .. } => true,
        EngineState::Calling { retries, .. } => retries <= engine.retry_policy.max_retries,
        EngineState::Pausing { retries, .. } => 0 < retries <= engine.retry_policy.max_retries,
        EngineState::Compacting { retries, .. } => retries
            <= engine.compaction_retry_policy.max_retries && compaction_open(engine),
        EngineState::CompactionPausing { retries, .. } => 0 < retries
            <= engine.compaction_retry_policy.max_retries && compaction_open(engine),
        EngineState::Keeping { place } => place < engine.calls.len() && answered(
            engine,
            place as int,
        ) && engine.calls[place as int].known is Some,
        EngineState::Authorizing { place } | EngineState::Executing { place } => place
            < engine.calls.len() && answered(engine, place as int)
            && engine.calls[place as int].known is None,
        EngineState::Closing { place } => place < engine.calls.len() && answered(
            engine,
            place + 1,
        ),
    }
}

pub open spec fn compaction_open(engine: EngineModel) -> bool {
    engine.candidate is Some && engine.context.compaction_count
        < engine.context.config.max_compactions
}

/// The reason with which the turn is closed, where it is.
pub open spec fn closing_reason(
    style: EngineStyle,
    phase: Phase,
    error: EngineError,
) -> Option<Seq<char>> {
    match style {
        EngineStyle::Plain => None,
        EngineStyle::Observed => if phase == Phase::Before {
            None
        } else {
            Some(error.reason())
        },
        EngineStyle::Recorded => if error is ContextLimit && (phase == Phase::First || phase
            == Phase::Second) {
            Some("context_limit"@)
        } else if phase == Phase::First {
            Some("error"@)
        } else {
            None
        },
    }
}

/// How the compaction is closed, where it is.
pub open spec fn closing_span(style: EngineStyle, error: EngineError) -> Option<SpanFinish> {
    match style {
        EngineStyle::Recorded => None,
        EngineStyle::Observed => if error is Cancelled {
            Some(SpanFinish::Interrupted)
        } else {
            Some(SpanFinish::Failed)
        },
        EngineStyle::Plain => if error is Cancelled {
            None
        } else {
            Some(SpanFinish::Failed)
        },
    }
}

/// The run ends with the error.
pub open spec fn ended(
    engine: EngineModel,
    phase: Phase,
    compacting: bool,
    error: EngineError,
) -> (EngineModel, ActionModel) {
    (
        EngineModel { state: EngineState::Finished, candidate: None, ..engine },
        ActionModel::Fail {
            turn: closing_reason(engine.style, phase, error),
            compaction: if compacting {
                closing_span(engine.style, error)
            } else {
                None
            },
            error,
        },
    )
}

/// The provider is asked for the turn.
pub open spec fn called(
    engine: EngineModel,
    canonical: Seq<MessageModel>,
    turn: u32,
    second: bool,
) -> (EngineModel, ActionModel) {
    match projection(canonical, engine.context.compaction) {
        Ok(messages) => (
            EngineModel { state: EngineState::Calling { turn, second, retries: 0 }, ..engine },
            ActionModel::Call { turn, messages },
        ),
        Err(error) => ended(
            engine,
            if second {
                Phase::Second
            } else {
                Phase::First
            },
            false,
            EngineError::Projection(error),
        ),
    }
}

/// The turn begins, where turns are recorded; the provider is asked for it once that was done.
pub open spec fn turn_begun(
    engine: EngineModel,
    canonical: Seq<MessageModel>,
    turn: u32,
) -> (EngineModel, ActionModel) {
    if engine.style == EngineStyle::Plain {
        called(engine, canonical, turn, false)
    } else {
        (
            EngineModel { state: EngineState::Beginning { turn }, ..engine },
            ActionModel::Begin { turn },
        )
    }
}

/// What of the conversation a summary can replace now.
pub open spec fn replaceable_now(
    engine: EngineModel,
    canonical: Seq<MessageModel>,
) -> Option<(int, int)> {
    if engine.context.compaction_count >= engine.context.config.max_compactions {
        None
    } else {
        candidate_range(
            canonical,
            engine.context.event_prompt,
            engine.context.config.keep_recent_groups as nat,
        )
    }
}

/// The provider is asked for a summary.
pub open spec fn compaction_begun(
    engine: EngineModel,
    canonical: Seq<MessageModel>,
    turn: u32,
    reason: CompactionReason,
) -> (EngineModel, ActionModel) {
    match replaceable_now(engine, canonical) {
        Some((start, end)) => {
            let candidate = candidate_at(canonical, start, end);
            (
                EngineModel {
                    state: EngineState::Compacting { turn, reason, retries: 0 },
                    candidate: Some(candidate),
                    ..engine
                },
                ActionModel::Compact {
                    reason,
                    messages: candidate.messages.len(),
                    prompt: summary_request(candidate.messages),
                },
            )
        },
        None => ended(
            engine,
            if reason == CompactionReason::Proactive {
                Phase::Before
            } else {
                Phase::Emergency
            },
            false,
            EngineError::NoSafeCompactionBoundary,
        ),
    }
}

/// Whether the conversation has grown so large that it should be compacted.
pub open spec fn grown(context: ContextModel) -> bool {
    context.previous_input_tokens matches Some(tokens) && tokens >= context.config.trigger_tokens
        && context.compaction_count < context.config.max_compactions
}

/// The phase of a failure of a summary that is asked for.
pub open spec fn compaction_phase(reason: CompactionReason) -> Phase {
    if reason == CompactionReason::Proactive {
        Phase::Before
    } else {
        Phase::Emergency
    }
}

/// The phase of a failure of a call.
pub open spec fn call_phase(second: bool) -> Phase {
    if second {
        Phase::Second
    } else {
        Phase::First
    }
}

/// What follows a failed call.
pub open spec fn call_failed(
    engine: EngineModel,
    canonical: Seq<MessageModel>,
    turn: u32,
    second: bool,
    retries: usize,
    failure: ProviderFailure,
) -> (EngineModel, ActionModel) {
    if retryable(failure) && retries < engine.retry_policy.max_retries {
        (
            EngineModel {
                state: EngineState::Pausing { turn, second, retries: (retries + 1) as usize },
                ..engine
            },
            ActionModel::Retry {
                scope: CompletionScope::Model,
                attempt: (retries + 1) as nat,
                max_retries: engine.retry_policy.max_retries as nat,
                delay: delay_of(engine.retry_policy, (retries + 1) as nat),
                reason: reason_of(failure),
            },
        )
    } else if context_limited(failure) {
        if !second && !engine.context.emergency_used && engine.context.compaction_count
            < engine.context.config.max_compactions {
            compaction_begun(
                EngineModel {
                    context: ContextModel { emergency_used: true, ..engine.context },
                    ..engine
                },
                canonical,
                turn,
                CompactionReason::Emergency,
            )
        } else {
            ended(engine, call_phase(second), false, EngineError::ContextLimit(failure.display))
        }
    } else {
        ended(engine, call_phase(second), false, EngineError::Completion(failure))
    }
}

/// What follows a failed request for a summary.
pub open spec fn compaction_failed(
    engine: EngineModel,
    turn: u32,
    reason: CompactionReason,
    retries: usize,
    failure: ProviderFailure,
) -> (EngineModel, ActionModel) {
    if retryable(failure) && retries < engine.compaction_retry_policy.max_retries {
        (
            EngineModel {
                state: EngineState::CompactionPausing {
                    turn,
                    reason,
                    retries: (retries + 1) as usize,
                },
                ..engine
            },
            ActionModel::Retry {
                scope: CompletionScope::Compaction,
                attempt: (retries + 1) as nat,
                max_retries: engine.compaction_retry_policy.max_retries as nat,
                delay: delay_of(engine.compaction_retry_policy, (retries + 1) as nat),
                reason: reason_of(failure),
            },
        )
    } else {
        ended(engine, compaction_phase(reason), true, EngineError::Completion(failure))
    }
}

/// What follows a summary.
pub open spec fn summary_received(
    engine: EngineModel,
    turn: u32,
    reason: CompactionReason,
    summary: Option<Seq<char>>,
) -> (EngineModel, ActionModel) {
    match summary {
        Some(summary) => (
            EngineModel {
                context: compacted(engine.context, engine.candidate->0, summary),
                candidate: None,
                state: EngineState::Settling { turn, reason },
                ..engine
            },
            ActionModel::Settle,
        ),
        None => ended(
            engine,
            compaction_phase(reason),
            true,
            EngineError::EmptyCompactionSummary,
        ),
    }
}

/// The call at the place is taken up; behind the last one the answers are handed back.
pub open spec fn call_begun(engine: EngineModel, place: int) -> (EngineModel, ActionModel) {
    if place >= engine.calls.len() {
        (
            EngineModel {
                state: EngineState::Idle,
                calls: Seq::empty(),
                answers: Seq::empty(),
                ..engine
            },
            ActionModel::Answer { answers: engine.answers },
        )
    } else if engine.calls[place].known is Some {
        (
            EngineModel { state: EngineState::Keeping { place: place as usize }, ..engine },
            ActionModel::Keep { place: place as nat },
        )
    } else {
        (
            EngineModel { state: EngineState::Authorizing { place: place as usize }, ..engine },
            ActionModel::Authorize { place: place as nat },
        )
    }
}

/// The call at the place ended with the result, which is its answer.
pub open spec fn call_ended(engine: EngineModel, place: int, result: ResultModel) -> (
    EngineModel,
    ActionModel,
) {
    (
        EngineModel {
            state: EngineState::Closing { place: place as usize },
            answers: engine.answers.push(answer_to(engine.calls[place], result.output)),
            ..engine
        },
        ActionModel::Close { place: place as nat, result, outcome: outcome_of(result) },
    )
}

/// The rule of the engine: what follows an event. The conversation is the one that the run
/// wants to continue.
pub open spec fn engine_step(
    engine: EngineModel,
    event: EngineEvent,
    canonical: Seq<MessageModel>,
) -> (EngineModel, ActionModel) {
    match (engine.state, event) {
        (EngineState::Idle, EngineEvent::ModelStep { turn }) => if grown(engine.context) && (
        engine.style == EngineStyle::Plain || replaceable_now(engine, canonical) is Some) {
            compaction_begun(engine, canonical, turn, CompactionReason::Proactive)
        } else {
            turn_begun(engine, canonical, turn)
        },
        (EngineState::Settling { turn, reason }, EngineEvent::Settled) => match reason {
            CompactionReason::Proactive => turn_begun(engine, canonical, turn),
            CompactionReason::Emergency => called(engine, canonical, turn, true),
        },
        (EngineState::Beginning { turn }, EngineEvent::Begun) => called(
            engine,
            canonical,
            turn,
            false,
        ),
        (EngineState::Idle, EngineEvent::ToolsStep { calls }) => call_begun(
            EngineModel { calls: call_models(calls@), answers: Seq::empty(), ..engine },
            0,
        ),
        (EngineState::Keeping { place }, EngineEvent::Kept) => call_begun(
            EngineModel {
                answers: engine.answers.push(
                    AnswerModel::Known(engine.calls[place as int].known->0),
                ),
                ..engine
            },
            place + 1,
        ),
        (EngineState::Authorizing { place }, EngineEvent::Authorized(approval)) => match approval {
            Ok(()) => (
                EngineModel { state: EngineState::Executing { place }, ..engine },
                ActionModel::Execute { place: place as nat },
            ),
            Err(reason) => call_ended(engine, place as int, denial(reason@)),
        },
        (EngineState::Executing { place }, EngineEvent::Executed(result)) => call_ended(
            engine,
            place as int,
            result@,
        ),
        (EngineState::Closing { place }, EngineEvent::Closed) => call_begun(engine, place + 1),
        (EngineState::Authorizing { place: _ }, EngineEvent::Cancelled) => if engine.style
            == EngineStyle::Plain {
            (engine, ActionModel::Ignore)
        } else {
            ended(engine, Phase::Before, false, EngineError::Cancelled)
        },
        (EngineState::Executing { place: _ }, EngineEvent::Cancelled) => ended(
            engine,
            Phase::Before,
            false,
            EngineError::Cancelled,
        ),
        (EngineState::Idle, EngineEvent::DoneStep { recording_failed }) => if recording_failed
            && engine.style != EngineStyle::Plain {
            ended(engine, Phase::Before, false, EngineError::RecordingFailure)
        } else {
            (
                EngineModel { state: EngineState::Finished, candidate: None, ..engine },
                ActionModel::Succeed,
            )
        },
        (
            EngineState::Calling { turn, second, retries },
            EngineEvent::Replied { input_tokens, text: _ },
        ) => (
            EngineModel {
                state: EngineState::Idle,
                context: ContextModel {
                    previous_input_tokens: if input_tokens > 0 {
                        Some(input_tokens)
                    } else {
                        None
                    },
                    ..engine.context
                },
                ..engine
            },
            ActionModel::Accept { turn },
        ),
        (
            EngineState::Calling { turn, second, retries },
            EngineEvent::Failed(failure),
        ) => call_failed(engine, canonical, turn, second, retries, failure),
        (
            EngineState::Calling { turn: _, second, retries: _ }
            | EngineState::Pausing { turn: _, second, retries: _ },
            EngineEvent::Cancelled,
        ) => ended(engine, call_phase(second), false, EngineError::Cancelled),
        (EngineState::Pausing { turn, second, retries }, EngineEvent::Slept) => (
            EngineModel { state: EngineState::Calling { turn, second, retries }, ..engine },
            ActionModel::Again,
        ),
        (
            EngineState::Compacting { turn, reason, retries },
            EngineEvent::Replied { input_tokens: _, text },
        ) => summary_received(engine, turn, reason, text::opt_text(text)),
        (
            EngineState::Compacting { turn, reason, retries },
            EngineEvent::Failed(failure),
        ) => compaction_failed(engine, turn, reason, retries, failure),
        (
            EngineState::Compacting { turn: _, reason, retries: _ }
            | EngineState::CompactionPausing { turn: _, reason, retries: _ },
            EngineEvent::Cancelled,
        ) => ended(engine, compaction_phase(reason), true, EngineError::Cancelled),
        (EngineState::CompactionPausing { turn, reason, retries }, EngineEvent::Slept) => (
            EngineModel { state: EngineState::Compacting { turn, reason, retries }, ..engine },
            ActionModel::Again,
        ),
        _ => (engine, ActionModel::Ignore),
    }
}

/// Whatever happens, an engine that keeps its bounds keeps them.
proof fn lemma_engine_stays_ok(
    engine: EngineModel,
    event: EngineEvent,
    canonical: Seq<MessageModel>,
)
    requires
        engine_ok(engine),
        engine.calls.len() <= usize::MAX,
        event matches EngineEvent::ToolsStep { calls } ==> calls@.len() <= usize::MAX,
    ensures
        engine_ok(engine_step(engine, event, canonical).0),
{
    let next = engine_step(engine, event, canonical).0;
    match (engine.state, event) {
        (EngineState::Idle, EngineEvent::ToolsStep { calls: _ }) => {},
        (EngineState::Keeping { place }, EngineEvent::Kept) => {
            if place + 1 < engine.calls.len() {
                assert(answered(next, place + 1));
            }
        },
        (EngineState::Authorizing { place }, EngineEvent::Authorized(Err(_))) => {
            assert(answered(next, place + 1));
        },
        (EngineState::Executing { place }, EngineEvent::Executed(_)) => {
            assert(answered(next, place + 1));
        },
        (EngineState::Closing { place }, EngineEvent::Closed) => {},
        _ => {},
    }
}

impl AgentEngine {
    /// An engine for a run that begins with the prompt. Summaries are retried as turns are.
    pub fn new(
        style: EngineStyle,
        event_prompt: Message,
        retry_policy: ProviderRetryPolicy,
        compaction: CompactionConfig,
    ) -> (engine: Self)
        ensures
            engine_ok(engine@),
            engine@.style == style,
            engine@.retry_policy == retry_policy,
            engine@.compaction_retry_policy == retry_policy,
            engine@.candidate is None,
            engine@.state == EngineState::Idle,
            engine@.context.event_prompt == event_prompt@,
            engine@.context.config == (CompactionConfig {
                max_compactions: if compaction.max_compactions < 1 {
                    compaction.max_compactions
                } else {
                    1
                },
                ..compaction
            }),
            engine@.context.compaction is None,
            engine@.context.compaction_count == 0,
            engine@.context.previous_input_tokens is None,
            !engine@.context.emergency_used,
    {
        AgentEngine {
            style,
            retry_policy,
            compaction_retry_policy: retry_policy,
            context: ContextManager::new(compaction, event_prompt),
            candidate: None,
            calls: Vec::new(),
            answers: Vec::new(),
            state: EngineState::Idle,
        }
    }

    /// The engine with another policy for summaries.
    pub fn with_compaction_retry_policy(self, policy: ProviderRetryPolicy) -> (engine: Self)
        requires
            self@.state == EngineState::Idle,
        ensures
            engine@ == (EngineModel { compaction_retry_policy: policy, ..self@ }),
            engine_ok(engine@),
    {
        AgentEngine {
            style: self.style,
            retry_policy: self.retry_policy,
            compaction_retry_policy: policy,
            context: self.context,
            candidate: self.candidate,
            calls: self.calls,
            answers: self.answers,
            state: self.state,
        }
    }

    fn end(&mut self, phase: Phase, compacting: bool, error: EngineError) -> (action: EngineAction)
        ensures
            (final(self)@, action@) == ended(old(self)@, phase, compacting, error),
    {
        let turn: Option<&'static str> = match self.style {
            EngineStyle::Plain => None,
            EngineStyle::Observed => {
                if phase == Phase::Before {
                    None
                } else {
                    Some(error.turn_reason())
                }
            },
            EngineStyle::Recorded => {
                let limited = match &error {
                    EngineError::ContextLimit(_) => true,
                    _ => false,
                };
                if limited && (phase == Phase::First || phase == Phase::Second) {
                    Some("context_limit")
                } else if phase == Phase::First {
                    Some("error")
                } else {
                    None
                }
            },
        };
        let cancelled = match &error {
            EngineError::Cancelled => true,
            _ => false,
        };
        let compaction: Option<SpanFinish> = if !compacting {
            None
        } else {
            match self.style {
                EngineStyle::Recorded => None,
                EngineStyle::Observed => {
                    if cancelled {
                        Some(SpanFinish::Interrupted)
                    } else {
                        Some(SpanFinish::Failed)
                    }
                },
                EngineStyle::Plain => {
                    if cancelled {
                        None
                    } else {
                        Some(SpanFinish::Failed)
                    }
                },
            }
        };
        self.state = EngineState::Finished;
        self.candidate = None;
        EngineAction::Fail { turn, compaction, error }
    }

    fn call(&mut self, canonical: &Vec<Message>, turn: u32, second: bool) -> (action:
        EngineAction)
        ensures
            (final(self)@, action@) == called(old(self)@, models(canonical@), turn, second),
    {
        match self.context.project(canonical) {
            Ok(messages) => {
                self.state = EngineState::Calling { turn, second, retries: 0 };
                EngineAction::Call { turn, messages }
            },
            Err(error) => {
                let phase = if second {
                    Phase::Second
                } else {
                    Phase::First
                };
                self.end(phase, false, EngineError::Projection(error))
            },
        }
    }

    fn begin_turn(&mut self, canonical: &Vec<Message>, turn: u32) -> (action: EngineAction)
        ensures
            (final(self)@, action@) == turn_begun(old(self)@, models(canonical@), turn),
    {
        if self.style == EngineStyle::Plain {
            self.call(canonical, turn, false)
        } else {
            self.state = EngineState::Beginning { turn };
            EngineAction::Begin { turn }
        }
    }

    fn begin_compaction(
        &mut self,
        canonical: &Vec<Message>,
        turn: u32,
        reason: CompactionReason,
    ) -> (action: EngineAction)
        ensures
            (final(self)@, action@) == compaction_begun(
                old(self)@,
                models(canonical@),
                turn,
                reason,
            ),
    {
        match self.context.candidate(canonical) {
            Some(candidate) => {
                let messages: usize = candidate.messages().len();
                let prompt = candidate.summary_prompt();
                self.candidate = Some(candidate);
                self.state = EngineState::Compacting { turn, reason, retries: 0 };
                EngineAction::Compact { reason, messages, prompt }
            },
            None => {
                let phase = if reason == CompactionReason::Proactive {
                    Phase::Before
                } else {
                    Phase::Emergency
                };
                self.end(phase, false, EngineError::NoSafeCompactionBoundary)
            },
        }
    }

    fn fail_call(
        &mut self,
        canonical: &Vec<Message>,
        turn: u32,
        second: bool,
        retries: usize,
        failure: ProviderFailure,
    ) -> (action: EngineAction)
        ensures
            (final(self)@, action@) == call_failed(
                old(self)@,
                models(canonical@),
                turn,
                second,
                retries,
                failure,
            ),
    {
        let phase = if second {
            Phase::Second
        } else {
            Phase::First
        };
        if is_retryable(&failure) && retries < self.retry_policy.max_retries {
            let attempt: usize = retries + 1;
            self.state = EngineState::Pausing { turn, second, retries: attempt };
            return EngineAction::Retry {
                scope: CompletionScope::Model,
                attempt,
                max_retries: self.retry_policy.max_retries,
                delay: retry_delay(&self.retry_policy, attempt),
                reason: retry_reason(&failure),
            };
        }
        if is_context_limit(&failure) {
            if !second && self.context.begin_emergency_compaction() {
                return self.begin_compaction(canonical, turn, CompactionReason::Emergency);
            }
            return self.end(phase, false, EngineError::ContextLimit(failure.display));
        }
        self.end(phase, false, EngineError::Completion(failure))
    }

    fn fail_compaction(
        &mut self,
        turn: u32,
        reason: CompactionReason,
        retries: usize,
        failure: ProviderFailure,
    ) -> (action: EngineAction)
        ensures
            (final(self)@, action@) == compaction_failed(
                old(self)@,
                turn,
                reason,
                retries,
                failure,
            ),
    {
        if is_retryable(&failure) && retries < self.compaction_retry_policy.max_retries {
            let attempt: usize = retries + 1;
            self.state = EngineState::CompactionPausing { turn, reason, retries: attempt };
            return EngineAction::Retry {
                scope: CompletionScope::Compaction,
                attempt,
                max_retries: self.compaction_retry_policy.max_retries,
                delay: retry_delay(&self.compaction_retry_policy, attempt),
                reason: retry_reason(&failure),
            };
        }
        let phase = if reason == CompactionReason::Proactive {
            Phase::Before
        } else {
            Phase::Emergency
        };
        self.end(phase, true, EngineError::Completion(failure))
    }

    fn receive_summary(
        &mut self,
        turn: u32,
        reason: CompactionReason,
        summary: Option<String>,
    ) -> (action: EngineAction)
        requires
            compaction_open(old(self)@),
        ensures
            (final(self)@, action@) == summary_received(
                old(self)@,
                turn,
                reason,
                text::opt_text(summary),
            ),
    {
        match (summary, self.candidate.take()) {
            (Some(summary), Some(candidate)) => {
                self.context.apply(candidate, summary.as_str());
                self.state = EngineState::Settling { turn, reason };
                EngineAction::Settle
            },
            (None, _) => {
                let phase = if reason == CompactionReason::Proactive {
                    Phase::Before
                } else {
                    Phase::Emergency
                };
                self.end(phase, true, EngineError::EmptyCompactionSummary)
            },
            (Some(_), None) => EngineAction::Ignore,
        }
    }

    fn begin_call(&mut self, place: usize) -> (action: EngineAction)
        ensures
            (final(self)@, action@) == call_begun(old(self)@, place as int),
    {
        if place >= self.calls.len() {
            let mut answers: Vec<ToolAnswer> = Vec::new();
            std::mem::swap(&mut answers, &mut self.answers);
            self.calls = Vec::new();
            self.state = EngineState::Idle;
            assert(self@.calls =~= Seq::<CallModel>::empty());
            assert(self@.answers =~= Seq::<AnswerModel>::empty());
            return EngineAction::Answer { answers };
        }
        assert(self@.calls[place as int] == self.calls@[place as int]@);
        if self.calls[place].known.is_some() {
            self.state = EngineState::Keeping { place };
            EngineAction::Keep { place }
        } else {
            self.state = EngineState::Authorizing { place };
            EngineAction::Authorize { place }
        }
    }

    fn begin_next(&mut self, place: usize) -> (action: EngineAction)
        requires
            place < old(self)@.calls.len(),
        ensures
            (final(self)@, action@) == call_begun(old(self)@, place + 1),
    {
        let total: usize = self.calls.len();
        assert(place < total);
        self.begin_call(place + 1)
    }

    fn keep_known(&mut self, place: usize) -> (action: EngineAction)
        requires
            place < old(self)@.calls.len(),
            old(self)@.calls[place as int].known is Some,
        ensures
            (final(self)@, action@) == call_begun(
                EngineModel {
                    answers: old(self)@.answers.push(
                        AnswerModel::Known(old(self)@.calls[place as int].known->0),
                    ),
                    ..old(self)@
                },
                place + 1,
            ),
    {
        assert(self@.calls[place as int] == self.calls@[place as int]@);
        let ghost before = self@.answers;
        if let Some(known) = &self.calls[place].known {
            self.answers.push(ToolAnswer::Known(known.as_str().to_owned()));
        }
        assert(self@.answers =~= before.push(
            AnswerModel::Known(old(self)@.calls[place as int].known->0),
        ));
        self.begin_next(place)
    }

    fn end_call(&mut self, place: usize, result: ToolCallResult) -> (action: EngineAction)
        requires
            place < old(self)@.calls.len(),
        ensures
            (final(self)@, action@) == call_ended(old(self)@, place as int, result@),
    {
        assert(self@.calls[place as int] == self.calls@[place as int]@);
        let call = &self.calls[place];
        let answer = ToolAnswer::Given {
            id: call.id.as_str().to_owned(),
            call_id: text::copy_opt(&call.call_id),
            output: result.output.as_str().to_owned(),
        };
        let ghost before = self@.answers;
        self.answers.push(answer);
        assert(self@.answers =~= before.push(
            answer_to(old(self)@.calls[place as int], result@.output),
        ));
        self.state = EngineState::Closing { place };
        let outcome = tool_outcome(&result);
        EngineAction::Close { place, result, outcome }
    }

    /// What is done after the event. The conversation is the one that the run wants to
    /// continue.
    pub fn step(&mut self, event: EngineEvent, canonical: &Vec<Message>) -> (action: EngineAction)
        requires
            engine_ok(old(self)@),
        ensures
            (final(self)@, action@) == engine_step(old(self)@, event, models(canonical@)),
            engine_ok(final(self)@),
    {
        proof {
            assert(self.calls.len() == self@.calls.len());
            lemma_event_calls(event);
            lemma_engine_stays_ok(self@, event, models(canonical@));
        }
        match (self.state, event) {
            (EngineState::Idle, EngineEvent::ModelStep { turn }) => {
                let compact = self.context.should_compact() && (self.style == EngineStyle::Plain
                    || self.context.candidate(canonical).is_some());
                if compact {
                    self.begin_compaction(canonical, turn, CompactionReason::Proactive)
                } else {
                    self.begin_turn(canonical, turn)
                }
            },
            (EngineState::Settling { turn, reason }, EngineEvent::Settled) => match reason {
                CompactionReason::Proactive => self.begin_turn(canonical, turn),
                CompactionReason::Emergency => self.call(canonical, turn, true),
            },
            (EngineState::Beginning { turn }, EngineEvent::Begun) => {
                self.call(canonical, turn, false)
            },
            (EngineState::Idle, EngineEvent::ToolsStep { calls }) => {
                self.calls = calls;
                self.answers = Vec::new();
                assert(self@.answers =~= Seq::<AnswerModel>::empty());
                self.begin_call(0)
            },
            (EngineState::Keeping { place }, EngineEvent::Kept) => {
                self.keep_known(place)
            },
            (EngineState::Authorizing { place }, EngineEvent::Authorized(approval)) => {
                match refused_call(approval) {
                    Some(refused) => self.end_call(place, refused),
                    None => {
                        self.state = EngineState::Executing { place };
                        EngineAction::Execute { place }
                    },
                }
            },
            (EngineState::Executing { place }, EngineEvent::Executed(result)) => {
                self.end_call(place, result)
            },
            (EngineState::Closing { place }, EngineEvent::Closed) => self.begin_next(place),
            (EngineState::Authorizing { place: _ }, EngineEvent::Cancelled) => {
                if self.style == EngineStyle::Plain {
                    EngineAction::Ignore
                } else {
                    self.end(Phase::Before, false, EngineError::Cancelled)
                }
            },
            (EngineState::Executing { place: _ }, EngineEvent::Cancelled) => {
                self.end(Phase::Before, false, EngineError::Cancelled)
            },
            (EngineState::Idle, EngineEvent::DoneStep { recording_failed }) => {
                if recording_failed && self.style != EngineStyle::Plain {
                    self.end(Phase::Before, false, EngineError::RecordingFailure)
                } else {
                    self.state = EngineState::Finished;
                    self.candidate = None;
                    EngineAction::Succeed
                }
            },
            (
                EngineState::Calling { turn, second: _, retries: _ },
                EngineEvent::Replied { input_tokens, text: _ },
            ) => {
                self.context.observe_input_tokens(input_tokens);
                self.state = EngineState::Idle;
                EngineAction::Accept { turn }
            },
            (EngineState::Calling { turn, second, retries }, EngineEvent::Failed(failure)) => {
                self.fail_call(canonical, turn, second, retries, failure)
            },
            (
                EngineState::Calling { turn: _, second, retries: _ }
                | EngineState::Pausing { turn: _, second, retries: _ },
                EngineEvent::Cancelled,
            ) => {
                let phase = if second {
                    Phase::Second
                } else {
                    Phase::First
                };
                self.end(phase, false, EngineError::Cancelled)
            },
            (EngineState::Pausing { turn, second, retries }, EngineEvent::Slept) => {
                self.state = EngineState::Calling { turn, second, retries };
                EngineAction::Again
            },
            (
                EngineState::Compacting { turn, reason, retries: _ },
                EngineEvent::Replied { input_tokens: _, text },
            ) => self.receive_summary(turn, reason, text),
            (EngineState::Compacting { turn, reason, retries }, EngineEvent::Failed(failure)) => {
                self.fail_compaction(turn, reason, retries, failure)
            },
            (
                EngineState::Compacting { turn: _, reason, retries: _ }
                | EngineState::CompactionPausing { turn: _, reason, retries: _ },
                EngineEvent::Cancelled,
            ) => {
                let phase = if reason == CompactionReason::Proactive {
                    Phase::Before
                } else {
                    Phase::Emergency
                };
                self.end(phase, true, EngineError::Cancelled)
            },
            (EngineState::CompactionPausing { turn, reason, retries }, EngineEvent::Slept) => {
                self.state = EngineState::Compacting { turn, reason, retries };
                EngineAction::Again
            },
            _ => EngineAction::Ignore,
        }
    }
}

// ---------------------------------------------------------------------------------------------
// Laws
// ---------------------------------------------------------------------------------------------

proof fn lemma_doubling_grows(a: nat, b: nat)
    requires
        a <= b,
    ensures
        doubling(a) <= doubling(b),
{
    vstd::arithmetic::power2::lemma2_to64();
    if b < 32 {
        if a < b {
            vstd::arithmetic::power2::lemma_pow2_strictly_increases(a, b);
        }
    } else if a < 32 {
        vstd::arithmetic::power2::lemma_pow2_strictly_increases(a, 32);
    }
}

/// The delay before a later retry is never shorter, and no delay is longer than the longest
/// that the policy allows.
pub proof fn law_delays_grow_to_their_bound(policy: ProviderRetryPolicy, a: nat, b: nat)
    requires
        a <= b,
    ensures
        delay_of(policy, a) <= delay_of(policy, b) <= policy.max_delay@,
{
    let x = if a == 0 {
        0
    } else {
        (a - 1) as nat
    };
    let y = if b == 0 {
        0
    } else {
        (b - 1) as nat
    };
    lemma_doubling_grows(x, y);
    let initial = policy.initial_delay@;
    assert(initial * doubling(x) <= initial * doubling(y)) by (nonlinear_arith)
        requires
            doubling(x) <= doubling(y),
    ;
}

/// A call that failed because the conversation is too long is never repeated as it is: it leads
/// to a compaction, or ends the run with that reason.
pub proof fn law_context_limit_is_not_retried(
    engine: EngineModel,
    canonical: Seq<MessageModel>,
    turn: u32,
    second: bool,
    retries: usize,
    failure: ProviderFailure,
)
    requires
        engine.state == (EngineState::Calling { turn, second, retries }),
        context_limited(failure),
    ensures
        ({
            let (next, action) = engine_step(engine, EngineEvent::Failed(failure), canonical);
            ||| action is Compact && !second && next.context.emergency_used
            ||| action matches ActionModel::Fail { error, .. } && (error
                == EngineError::ContextLimit(failure.display) || (error
                == EngineError::NoSafeCompactionBoundary && !second))
        }),
{
}

/// An emergency compaction is begun once at most: the step that begins one marks the chance as
/// used, and no step gives it back.
pub proof fn law_one_emergency_at_most(
    engine: EngineModel,
    event: EngineEvent,
    canonical: Seq<MessageModel>,
)
    ensures
        ({
            let (next, action) = engine_step(engine, event, canonical);
            &&& engine.context.emergency_used ==> next.context.emergency_used
            &&& action matches ActionModel::Compact { reason: CompactionReason::Emergency, .. }
                ==> !engine.context.emergency_used && next.context.emergency_used
        }),
{
}

/// Whether a turn has begun and is not closed yet.
pub open spec fn turn_open(state: EngineState) -> bool {
    match state {
        EngineState::Beginning { .. }
        | EngineState::Calling { .. }
        | EngineState::Pausing { .. } => true,
        EngineState::Compacting { reason, .. }
        | EngineState::CompactionPausing { reason, .. }
        | EngineState::Settling { reason, .. } => reason == CompactionReason::Emergency,
        _ => false,
    }
}

/// Where turns are recorded, a turn begins before the provider is asked for it, and only a turn
/// that has begun is accepted or closed as failed.
pub proof fn law_only_begun_turns_are_closed(
    engine: EngineModel,
    event: EngineEvent,
    canonical: Seq<MessageModel>,
)
    requires
        engine.style != EngineStyle::Plain,
    ensures
        ({
            let (next, action) = engine_step(engine, event, canonical);
            &&& turn_open(next.state) && !turn_open(engine.state) ==> action is Begin
            &&& action is Begin ==> !turn_open(engine.state) && next.state
                is Beginning
            &&& action is Call || action is Accept ==> turn_open(engine.state)
            &&& action matches ActionModel::Fail { turn: Some(_), .. } ==> turn_open(engine.state)
            &&& next.style == engine.style
        }),
{
}

/// A compaction that was begun is closed before anything else is asked of the provider.
pub proof fn law_compactions_are_settled(
    engine: EngineModel,
    event: EngineEvent,
    canonical: Seq<MessageModel>,
)
    requires
        engine.state is Compacting,
    ensures
        ({
            let (next, action) = engine_step(engine, event, canonical);
            ||| action is Ignore && next.state == engine.state
            ||| action is Retry && next.state is CompactionPausing
            ||| action is Fail && next.state is Finished
            ||| action is Settle && next.state is Settling && next.context.compaction_count
                == engine.context.compaction_count + 1
        }),
{
}

/// A run that has finished stays so, whatever still happens.
pub proof fn law_finished_runs_stay_finished(
    engine: EngineModel,
    event: EngineEvent,
    canonical: Seq<MessageModel>,
)
    requires
        engine.state == EngineState::Finished,
    ensures
        engine_step(engine, event, canonical) == (engine, ActionModel::Ignore),
{
}

/// A call runs only where it was just approved: by the event that followed the question whether
/// that same call may run.
pub proof fn law_only_approved_calls_run(
    engine: EngineModel,
    event: EngineEvent,
    canonical: Seq<MessageModel>,
    place: nat,
)
    requires
        engine_step(engine, event, canonical).1 == (ActionModel::Execute { place }),
    ensures
        engine.state matches EngineState::Authorizing { place: asked } && asked == place,
        event matches EngineEvent::Authorized(approval) && approval is Ok,
{
}

/// The engine once these events have happened, each with the conversation at its time.
pub open spec fn played(
    engine: EngineModel,
    events: Seq<(EngineEvent, Seq<MessageModel>)>,
) -> EngineModel
    decreases events.len(),
{
    if events.len() == 0 {
        engine
    } else {
        engine_step(
            played(engine, events.drop_last()),
            events.last().0,
            events.last().1,
        ).0
    }
}

/// What the engine has done after the event at the place.
pub open spec fn action_at(
    engine: EngineModel,
    events: Seq<(EngineEvent, Seq<MessageModel>)>,
    at: int,
) -> ActionModel {
    engine_step(played(engine, events.take(at)), events[at].0, events[at].1).1
}

/// Whether the call at the place has been answered so, and the step that it belongs to goes on.
spec fn settled(engine: EngineModel, place: int, answer: AnswerModel) -> bool {
    &&& 0 <= place < engine.answers.len() <= engine.calls.len()
    &&& engine.answers[place] == answer
    &&& match engine.state {
        EngineState::Closing { place: now } => now >= place,
        EngineState::Keeping { place: now }
        | EngineState::Authorizing { place: now }
        | EngineState::Executing { place: now } => now > place && now < engine.calls.len(),
        EngineState::Finished => true,
        _ => false,
    }
}

proof fn lemma_settled(
    engine: EngineModel,
    event: EngineEvent,
    canonical: Seq<MessageModel>,
    place: int,
    answer: AnswerModel,
)
    requires
        engine_ok(engine),
        engine.calls.len() <= usize::MAX,
        settled(engine, place, answer),
    ensures
        ({
            let (next, action) = engine_step(engine, event, canonical);
            &&& action != (ActionModel::Execute { place: place as nat })
            &&& action != (ActionModel::Authorize { place: place as nat })
            &&& action matches ActionModel::Answer { answers } ==> answers[place] == answer
            &&& action !is Answer ==> settled(next, place, answer) && next.calls == engine.calls
        }),
{
}

/// A call that is refused is never run: whatever happens until the answers of its step are handed
/// back, it is not run and not asked about again, and what is handed back for it is the denial.
pub proof fn law_refused_calls_are_denied(
    engine: EngineModel,
    events: Seq<(EngineEvent, Seq<MessageModel>)>,
    place: usize,
    reason: String,
    at: int,
)
    requires
        engine_ok(engine),
        engine.calls.len() <= usize::MAX,
        engine.state == (EngineState::Authorizing { place }),
        events.len() > 0,
        events[0].0 == EngineEvent::Authorized(Err(reason)),
        0 <= at < events.len(),
        forall|k: int| 0 <= k < at ==> action_at(engine, events, k) !is Answer,
    ensures
        at == 0 ==> action_at(engine, events, at) == (ActionModel::Close {
            place: place as nat,
            result: denial(reason@),
            outcome: ToolOutcome::Denied,
        }),
        action_at(engine, events, at) != (ActionModel::Execute { place: place as nat }),
        action_at(engine, events, at) matches ActionModel::Answer { answers }
            ==> answers[place as int] == answer_to(
            engine.calls[place as int],
            denial(reason@).output,
        ),
{
    lemma_refusal(engine, events, place, reason, at);
}

proof fn lemma_refusal(
    engine: EngineModel,
    events: Seq<(EngineEvent, Seq<MessageModel>)>,
    place: usize,
    reason: String,
    at: int,
)
    requires
        engine_ok(engine),
        engine.calls.len() <= usize::MAX,
        engine.state == (EngineState::Authorizing { place }),
        events.len() > 0,
        events[0].0 == EngineEvent::Authorized(Err(reason)),
        0 <= at < events.len(),
        forall|k: int| 0 <= k < at ==> action_at(engine, events, k) !is Answer,
    ensures
        ({
            let answer = answer_to(engine.calls[place as int], denial(reason@).output);
            let before = played(engine, events.take(at));
            &&& at > 0 ==> settled(before, place as int, answer)
            &&& engine_ok(before)
            &&& before.calls == engine.calls
        }),
        at == 0 ==> action_at(engine, events, at) == (ActionModel::Close {
            place: place as nat,
            result: denial(reason@),
            outcome: ToolOutcome::Denied,
        }),
        action_at(engine, events, at) != (ActionModel::Execute { place: place as nat }),
        action_at(engine, events, at) matches ActionModel::Answer { answers }
            ==> answers[place as int] == answer_to(
            engine.calls[place as int],
            denial(reason@).output,
        ),
    decreases at,
{
    let answer = answer_to(engine.calls[place as int], denial(reason@).output);
    if at == 0 {
        assert(events.take(0) =~= Seq::empty());
    } else {
        lemma_refusal(engine, events, place, reason, at - 1);
        let earlier = played(engine, events.take(at - 1));
        let before = played(engine, events.take(at));
        assert(events.take(at).drop_last() =~= events.take(at - 1));
        assert(events.take(at).last() == events[at - 1]);
        assert(action_at(engine, events, at - 1) !is Answer);
        lemma_event_calls(events[at - 1].0);
        lemma_engine_stays_ok(earlier, events[at - 1].0, events[at - 1].1);
        if at - 1 == 0 {
            assert(events.take(0) =~= Seq::empty());
            assert(earlier == engine);
            assert(before.answers[place as int] == answer);
        } else {
            lemma_settled(earlier, events[at - 1].0, events[at - 1].1, place as int, answer);
        }
        lemma_settled(before, events[at].0, events[at].1, place as int, answer);
    }
}

proof fn lemma_event_calls(event: EngineEvent)
    ensures
        event matches EngineEvent::ToolsStep { calls } ==> calls@.len() <= usize::MAX,
{
    if let EngineEvent::ToolsStep { calls } = event {
        assert(calls.len() == calls@.len());
    }
}

/// The answers that are handed back are those of the calls, one for each and in their order: the
/// result of a call that was known before, and for every other an output under its name.
pub proof fn law_answers_follow_the_calls(
    engine: EngineModel,
    event: EngineEvent,
    canonical: Seq<MessageModel>,
    answers: Seq<AnswerModel>,
    place: int,
)
    requires
        engine_ok(engine),
        engine_step(engine, event, canonical).1 == (ActionModel::Answer { answers }),
        0 <= place < answers.len(),
    ensures
        ({
            let calls = match event {
                EngineEvent::ToolsStep { calls } => call_models(calls@),
                _ => engine.calls,
            };
            &&& answers.len() == calls.len()
            &&& answers_call(answers[place], calls[place])
        }),
{
}

/// The first delay is the initial one, and each further one is twice the delay before it, for the
/// first thirty-two retries; the longest delay that the policy allows bounds them all.
pub proof fn law_delays_double(policy: ProviderRetryPolicy, retry: nat)
    requires
        1 <= retry < 32,
    ensures
        delay_of(policy, 1) == (if policy.initial_delay@ <= policy.max_delay@ {
            policy.initial_delay@
        } else {
            policy.max_delay@
        }),
        delay_of(policy, retry + 1) == (if 2 * delay_of(policy, retry) <= policy.max_delay@ {
            2 * delay_of(policy, retry)
        } else {
            policy.max_delay@
        }),
{
    let initial = policy.initial_delay@ as int;
    let e = (retry - 1) as nat;
    let p = pow2(e) as int;
    let one = pow2(0) as int;
    vstd::arithmetic::power2::lemma2_to64();
    vstd::arithmetic::power2::lemma_pow2_unfold(e + 1);
    vstd::arithmetic::power2::lemma_pow2_pos(e);
    assert(initial * one == initial) by (nonlinear_arith)
        requires
            one == 1,
    ;
    assert(initial * (2 * p) == 2 * (initial * p)) by (nonlinear_arith);
    assert(initial * p >= 0) by (nonlinear_arith)
        requires
            initial >= 0,
            p > 0,
    ;
}

/// A failure with a status is tried again exactly where the status is one that may pass, and the
/// provider did not say that the conversation is too long.
pub proof fn law_statuses_decide_retries(failure: ProviderFailure, status: u16)
    requires
        failure.status == Some(status),
        failure.code is None || failure.code->0@ != "context_length_exceeded"@,
        !text::contains(text::lower(failure.display@), "context_length_exceeded"@),
        !text::contains(text::lower(failure.display@), "context limit"@),
        !text::contains(text::lower(failure.display@), "maximum context"@),
    ensures
        retryable(failure) <==> (status == 408 || status == 409 || status == 425 || status == 429
            || status == 500 || status == 502 || status == 503 || status == 504),
        reason_of(failure) == (if status == 429 {
            "rate_limit"@
        } else if 500 <= status < 600 {
            "server"@
        } else {
            "provider"@
        }),
{
    let words = seq!["context_length_exceeded"@, "context limit"@, "maximum context"@];
    assert forall|k: int| 0 <= k < words.len() implies !text::contains(
        text::lower(failure.display@),
        #[trigger] words[k],
    ) by {
        assert(words[0] == "context_length_exceeded"@ && words[1] == "context limit"@ && words[2]
            == "maximum context"@);
    }
}

/// A failure without a status is tried again where the transport failed, and where the provider
/// speaks of a status that may pass, of its connection, of a timeout or of its load; never where
/// the conversation is too long.
pub proof fn law_wordings_decide_retries(failure: ProviderFailure)
    requires
        failure.status is None,
    ensures
        failure.code is Some && failure.code->0@ == "context_length_exceeded"@ ==> !retryable(
            failure,
        ),
        text::contains(text::lower(failure.display@), "context_length_exceeded"@)
            || text::contains(text::lower(failure.display@), "context limit"@) || text::contains(
            text::lower(failure.display@),
            "maximum context"@,
        ) ==> !retryable(failure),
        (failure.code is None || failure.code->0@ != "context_length_exceeded"@)
            && !text::contains(text::lower(failure.display@), "context_length_exceeded"@)
            && !text::contains(text::lower(failure.display@), "context limit"@)
            && !text::contains(text::lower(failure.display@), "maximum context"@) ==> {
            &&& failure.kind == FailureKind::Http ==> retryable(failure)
            &&& failure.kind != FailureKind::Http && failure.kind != FailureKind::Provider
                ==> !retryable(failure)
            &&& failure.kind == FailureKind::Provider ==> {
                let m = text::lower(failure.message@);
                retryable(failure) <==> (text::contains(m, "http 408"@) || text::contains(
                    m,
                    "http 409"@,
                ) || text::contains(m, "http 425"@) || text::contains(m, "http 429"@)
                    || text::contains(m, "http 500"@) || text::contains(m, "http 502"@)
                    || text::contains(m, "http 503"@) || text::contains(m, "http 504"@)
                    || text::contains(m, "connection"@) || text::contains(m, "timeout"@)
                    || text::contains(m, "temporarily unavailable"@) || text::contains(
                    m,
                    "overloaded"@,
                ))
            }
        },
{
    let limits = seq!["context_length_exceeded"@, "context limit"@, "maximum context"@];
    assert(limits[0] == "context_length_exceeded"@ && limits[1] == "context limit"@ && limits[2]
        == "maximum context"@);
    let words = passing_words();
    assert(words[0] == "http 408"@ && words[1] == "http 409"@ && words[2] == "http 425"@
        && words[3] == "http 429"@ && words[4] == "http 500"@ && words[5] == "http 502"@
        && words[6] == "http 503"@ && words[7] == "http 504"@ && words[8] == "connection"@
        && words[9] == "timeout"@ && words[10] == "temporarily unavailable"@ && words[11]
        == "overloaded"@);
}

/// A call that failed and may pass is repeated, after the delay of that retry, as long as the
/// policy has retries left; the retry is counted. One that may not pass, or for which no retry is
/// left, ends the run with the failure or leads to a compaction.
pub proof fn law_failed_calls_are_repeated(
    engine: EngineModel,
    canonical: Seq<MessageModel>,
    turn: u32,
    second: bool,
    retries: usize,
    failure: ProviderFailure,
)
    requires
        engine.state == (EngineState::Calling { turn, second, retries }),
        retries < usize::MAX,
    ensures
        ({
            let (next, action) = engine_step(engine, EngineEvent::Failed(failure), canonical);
            if retryable(failure) && retries < engine.retry_policy.max_retries {
                &&& next.state == (EngineState::Pausing {
                    turn,
                    second,
                    retries: (retries + 1) as usize,
                })
                &&& action matches ActionModel::Retry { scope, attempt, max_retries, delay, reason }
                    && scope == CompletionScope::Model && attempt == retries + 1 && max_retries
                    == engine.retry_policy.max_retries && delay == delay_of(
                    engine.retry_policy,
                    (retries + 1) as nat,
                )
                &&& next.context == engine.context
                &&& engine_step(next, EngineEvent::Slept, canonical) == (
                    EngineModel {
                        state: EngineState::Calling {
                            turn,
                            second,
                            retries: (retries + 1) as usize,
                        },
                        ..engine
                    },
                    ActionModel::Again,
                )
            } else {
                &&& !(action is Retry)
                &&& !context_limited(failure) ==> next.state == EngineState::Finished
                    && action is Fail && action->Fail_error == EngineError::Completion(failure)
                &&& context_limited(failure) ==> action is Compact || (next.state
                    == EngineState::Finished && action is Fail)
            }
        }),
{
}

/// A reply ends the call, and the run remembers how many tokens went in, to see how far the
/// conversation has grown.
pub proof fn law_replies_are_accepted(
    engine: EngineModel,
    canonical: Seq<MessageModel>,
    turn: u32,
    second: bool,
    retries: usize,
    input_tokens: u64,
    text: Option<String>,
)
    requires
        engine.state == (EngineState::Calling { turn, second, retries }),
    ensures
        ({
            let (next, action) = engine_step(
                engine,
                EngineEvent::Replied { input_tokens, text },
                canonical,
            );
            &&& action == (ActionModel::Accept { turn })
            &&& next.state == EngineState::Idle
            &&& input_tokens > 0 ==> next.context.previous_input_tokens == Some(input_tokens)
            &&& input_tokens == 0 ==> next.context.previous_input_tokens is None
            &&& next.context.compaction == engine.context.compaction
            &&& next.context.compaction_count == engine.context.compaction_count
            &&& next.context.emergency_used == engine.context.emergency_used
            &&& next.context.event_prompt == engine.context.event_prompt
        }),
{
}

/// A conversation is compacted ahead of a turn only where the last reply took as many tokens as
/// trigger it and it was not compacted as often as it may be: otherwise the turn begins as it is.
pub proof fn law_small_conversations_are_not_compacted(
    engine: EngineModel,
    canonical: Seq<MessageModel>,
    turn: u32,
)
    requires
        engine.state == EngineState::Idle,
        engine.context.compaction is None,
        engine.context.previous_input_tokens is None
            || engine.context.previous_input_tokens->0 < engine.context.config.trigger_tokens
            || engine.context.compaction_count >= engine.context.config.max_compactions,
    ensures
        ({
            let (next, action) = engine_step(engine, EngineEvent::ModelStep { turn }, canonical);
            &&& next.context == engine.context
            &&& engine.style != EngineStyle::Plain ==> action == (ActionModel::Begin { turn })
            &&& engine.style == EngineStyle::Plain ==> {
                &&& action is Call
                &&& action->Call_messages.len() == canonical.len()
                &&& forall|i: int|
                    0 <= i < canonical.len() ==> #[trigger] action->Call_messages[i]
                        == ProjectedModel::Kept(canonical[i])
            }
        }),
{
}

} // verus!
