//! Error categories, and what of an error may be shown.
use vstd::prelude::*;

use crate::application_log;
use crate::text;

verus! {

/// The problem that a refusal states; none for an approval.
pub open spec fn stated<T>(result: Result<T, String>) -> Option<Seq<char>> {
    match result {
        Ok(_) => None,
        Err(message) => Some(message@),
    }
}

#[derive(Clone, Copy, Debug, PartialEq, Eq, Structural)]
pub enum ErrorCategory {
    Authentication,
    RateLimit,
    Timeout,
    Connection,
    NotFound,
    ModelUnavailable,
    ContextLimit,
    TurnLimit,
    Aborted,
    Interrupted,
    ToolFailure,
    Unknown,
}

impl ErrorCategory {
    /// The name under which the category is stored.
    pub open spec fn name(self) -> Seq<char> {
        match self {
            ErrorCategory::Authentication => "authentication"@,
            ErrorCategory::RateLimit => "rate_limit"@,
            ErrorCategory::Timeout => "timeout"@,
            ErrorCategory::Connection => "connection"@,
            ErrorCategory::NotFound => "not_found"@,
            ErrorCategory::ModelUnavailable => "model_unavailable"@,
            ErrorCategory::ContextLimit => "context_limit"@,
            ErrorCategory::TurnLimit => "turn_limit"@,
            ErrorCategory::Aborted => "aborted"@,
            ErrorCategory::Interrupted => "interrupted"@,
            ErrorCategory::ToolFailure => "tool_failure"@,
            ErrorCategory::Unknown => "unknown"@,
        }
    }

    /// The name under which the category is stored.
    pub fn as_str(self) -> (out: &'static str)
        ensures
            out@ == self.name(),
    {
        match self {
            ErrorCategory::Authentication => "authentication",
            ErrorCategory::RateLimit => "rate_limit",
            ErrorCategory::Timeout => "timeout",
            ErrorCategory::Connection => "connection",
            ErrorCategory::NotFound => "not_found",
            ErrorCategory::ModelUnavailable => "model_unavailable",
            ErrorCategory::ContextLimit => "context_limit",
            ErrorCategory::TurnLimit => "turn_limit",
            ErrorCategory::Aborted => "aborted",
            ErrorCategory::Interrupted => "interrupted",
            ErrorCategory::ToolFailure => "tool_failure",
            ErrorCategory::Unknown => "unknown",
        }
    }
}

/// Whether the text holds one of the needles from `from` on.
pub open spec fn holds_one(s: Seq<char>, needles: Seq<Seq<char>>) -> bool {
    exists|k: int| 0 <= k < needles.len() && text::contains(s, #[trigger] needles[k])
}

/// Whether the text holds one of the needles.
pub fn contains_one(s: &Vec<char>, needles: &[&str]) -> (found: bool)
    ensures
        found == holds_one(s@, needles@.map_values(|n: &str| n@)),
{
    let ghost all = needles@.map_values(|n: &str| n@);
    let mut i: usize = 0;
    while i < needles.len()
        invariant
            i <= needles@.len(),
            all == needles@.map_values(|n: &str| n@),
            forall|k: int| 0 <= k < i ==> !text::contains(s@, #[trigger] all[k]),
        decreases needles@.len() - i,
    {
        assert(all[i as int] == needles@[i as int]@);
        if text::contains_chars(s, &text::chars_of(needles[i])) {
            return true;
        }
        i += 1;
    }
    false
}

/// The words that make a message one about authentication.
pub open spec fn authentication_words() -> Seq<Seq<char>> {
    seq![
        "auth"@,
        "credential"@,
        "sign-in"@,
        "sign in"@,
        "unauthorized"@,
        "forbidden"@,
        "token"@,
    ]
}

/// The category that the wording of a message, in capitals or not, points to.
pub open spec fn message_category(message: Seq<char>) -> ErrorCategory {
    let m = text::lower(message);
    if holds_one(m, authentication_words()) {
        ErrorCategory::Authentication
    } else if holds_one(m, seq!["rate limit"@, "too many requests"@, "429"@]) {
        ErrorCategory::RateLimit
    } else if holds_one(m, seq!["timeout"@, "timed out"@]) {
        ErrorCategory::Timeout
    } else if holds_one(m, seq!["connection"@, "socket"@]) {
        ErrorCategory::Connection
    } else if holds_one(m, seq!["not found"@, "404"@]) {
        ErrorCategory::NotFound
    } else if text::contains(m, "model"@) && holds_one(m, seq!["unavailable"@, "does not exist"@]) {
        ErrorCategory::ModelUnavailable
    } else if text::contains(m, "context limit"@) {
        ErrorCategory::ContextLimit
    } else if text::contains(m, "interrupt"@) {
        ErrorCategory::Interrupted
    } else {
        ErrorCategory::Unknown
    }
}

/// The category that the wording of a message points to.
pub fn classify_message(message: &str) -> (category: ErrorCategory)
    ensures
        category == message_category(message@),
{
    let m = text::lower_chars(&text::chars_of(message));
    let authentication: [&str; 7] = [
        "auth",
        "credential",
        "sign-in",
        "sign in",
        "unauthorized",
        "forbidden",
        "token",
    ];
    let rate: [&str; 3] = ["rate limit", "too many requests", "429"];
    let timeout: [&str; 2] = ["timeout", "timed out"];
    let connection: [&str; 2] = ["connection", "socket"];
    let missing: [&str; 2] = ["not found", "404"];
    let unavailable: [&str; 2] = ["unavailable", "does not exist"];
    assert(authentication@.map_values(|n: &str| n@) =~= authentication_words());
    assert(rate@.map_values(|n: &str| n@) =~= seq!["rate limit"@, "too many requests"@, "429"@]);
    assert(timeout@.map_values(|n: &str| n@) =~= seq!["timeout"@, "timed out"@]);
    assert(connection@.map_values(|n: &str| n@) =~= seq!["connection"@, "socket"@]);
    assert(missing@.map_values(|n: &str| n@) =~= seq!["not found"@, "404"@]);
    assert(unavailable@.map_values(|n: &str| n@) =~= seq!["unavailable"@, "does not exist"@]);
    if contains_one(&m, &authentication) {
        ErrorCategory::Authentication
    } else if contains_one(&m, &rate) {
        ErrorCategory::RateLimit
    } else if contains_one(&m, &timeout) {
        ErrorCategory::Timeout
    } else if contains_one(&m, &connection) {
        ErrorCategory::Connection
    } else if contains_one(&m, &missing) {
        ErrorCategory::NotFound
    } else if text::contains_chars(&m, &text::chars_of("model")) && contains_one(
        &m,
        &unavailable,
    ) {
        ErrorCategory::ModelUnavailable
    } else if text::contains_chars(&m, &text::chars_of("context limit")) {
        ErrorCategory::ContextLimit
    } else if text::contains_chars(&m, &text::chars_of("interrupt")) {
        ErrorCategory::Interrupted
    } else {
        ErrorCategory::Unknown
    }
}

/// The fixed wording that stands for an error where its own text may not be shown.
pub open spec fn public_wording(error: Seq<char>) -> Seq<char> {
    let m = text::lower(error);
    if holds_one(m, seq!["auth"@, "credential"@, "token"@, "unauthorized"@, "forbidden"@]) {
        "Authentication failed"@
    } else if text::contains(m, "fastmail email response is invalid"@) {
        "Fastmail email response is invalid"@
    } else if holds_one(m, seq!["rate limit"@, "too many requests"@]) {
        "Rate limited"@
    } else if holds_one(m, seq!["timeout"@, "timed out"@]) {
        "Request timed out"@
    } else if text::contains(m, "connection reset"@) {
        "Connection reset"@
    } else if holds_one(m, seq!["not found"@, "404"@]) {
        "Resource not found (404)"@
    } else if text::contains(m, "model"@) && text::contains(m, "unavailable"@) {
        "Model unavailable"@
    } else if text::contains(m, "interrupt"@) {
        "Triage interrupted"@
    } else {
        "Operation failed"@
    }
}

fn public_message(error: &str) -> (out: &'static str)
    ensures
        out@ == public_wording(error@),
{
    let m = text::lower_chars(&text::chars_of(error));
    let authentication: [&str; 5] = ["auth", "credential", "token", "unauthorized", "forbidden"];
    let rate: [&str; 2] = ["rate limit", "too many requests"];
    let timeout: [&str; 2] = ["timeout", "timed out"];
    let missing: [&str; 2] = ["not found", "404"];
    assert(authentication@.map_values(|n: &str| n@) =~= seq![
        "auth"@,
        "credential"@,
        "token"@,
        "unauthorized"@,
        "forbidden"@,
    ]);
    assert(rate@.map_values(|n: &str| n@) =~= seq!["rate limit"@, "too many requests"@]);
    assert(timeout@.map_values(|n: &str| n@) =~= seq!["timeout"@, "timed out"@]);
    assert(missing@.map_values(|n: &str| n@) =~= seq!["not found"@, "404"@]);
    if contains_one(&m, &authentication) {
        "Authentication failed"
    } else if text::contains_chars(&m, &text::chars_of("fastmail email response is invalid")) {
        "Fastmail email response is invalid"
    } else if contains_one(&m, &rate) {
        "Rate limited"
    } else if contains_one(&m, &timeout) {
        "Request timed out"
    } else if text::contains_chars(&m, &text::chars_of("connection reset")) {
        "Connection reset"
    } else if contains_one(&m, &missing) {
        "Resource not found (404)"
    } else if text::contains_chars(&m, &text::chars_of("model")) && text::contains_chars(
        &m,
        &text::chars_of("unavailable"),
    ) {
        "Model unavailable"
    } else if text::contains_chars(&m, &text::chars_of("interrupt")) {
        "Triage interrupted"
    } else {
        "Operation failed"
    }
}

/// The fixed wording that stands for an error, where there is one.
pub fn public_error(error: Option<&str>) -> (out: Option<String>)
    ensures
        text::opt_text(out) == (match error {
            Some(error) => Some(public_wording(error@)),
            None => None,
        }),
{
    match error {
        Some(error) => Some(public_message(error).to_owned()),
        None => None,
    }
}

/// The words that keep an error's own text from the terminal.
pub open spec fn guarded_words() -> Seq<Seq<char>> {
    seq![
        "auth"@,
        "bearer"@,
        "credential"@,
        "oauth"@,
        "password"@,
        "payload"@,
        "prompt"@,
        "secret"@,
        "token"@,
    ]
}

/// The text that the command line shows for an error: redacted, and replaced by a fixed
/// wording where it touches on credentials or content.
pub open spec fn cli_wording(error: Seq<char>) -> Seq<char> {
    let message = application_log::redacted(error);
    if holds_one(text::lower(message), guarded_words()) {
        public_wording(message)
    } else {
        message
    }
}

/// The text that the command line shows for an error.
pub fn public_cli_error(error: &str) -> (out: String)
    ensures
        out@ == cli_wording(error@),
{
    let message = application_log::redact_log_text(error);
    let words: [&str; 9] = [
        "auth",
        "bearer",
        "credential",
        "oauth",
        "password",
        "payload",
        "prompt",
        "secret",
        "token",
    ];
    assert(words@.map_values(|n: &str| n@) =~= guarded_words());
    if contains_one(&text::lower_chars(&text::chars_of(message.as_str())), &words) {
        public_message(message.as_str()).to_owned()
    } else {
        message
    }
}

/// The fixed wordings are the only texts that `public_error` gives.
pub open spec fn fixed_wordings() -> Seq<Seq<char>> {
    seq![
        "Authentication failed"@,
        "Fastmail email response is invalid"@,
        "Rate limited"@,
        "Request timed out"@,
        "Connection reset"@,
        "Resource not found (404)"@,
        "Model unavailable"@,
        "Triage interrupted"@,
        "Operation failed"@,
    ]
}

/// Whatever an error says, `public_error` shows one of nine fixed texts for it.
pub proof fn law_public_error_is_fixed(error: Seq<char>)
    ensures
        fixed_wordings().contains(public_wording(error)),
{
    let all = fixed_wordings();
    assert(all.contains(all[0]) && all.contains(all[1]) && all.contains(all[2]) && all.contains(
        all[3],
    ) && all.contains(all[4]) && all.contains(all[5]) && all.contains(all[6]) && all.contains(
        all[7],
    ) && all.contains(all[8]));
}

/// What the command line shows is one of the fixed texts, or it names none of the words that
/// guard credentials and content.
pub proof fn law_cli_error_is_guarded(error: Seq<char>)
    ensures
        fixed_wordings().contains(cli_wording(error)) || !holds_one(
            text::lower(cli_wording(error)),
            guarded_words(),
        ),
{
    law_public_error_is_fixed(application_log::redacted(error));
}

/// No message is put down to the limit of turns.
pub proof fn lemma_message_category_never_turn_limit(message: Seq<char>)
    ensures
        message_category(message) != ErrorCategory::TurnLimit,
{
}

/// A message about signing in, in capitals or not, is put down to authentication, whatever else it
/// says.
pub proof fn law_sign_in_messages(message: Seq<char>)
    ensures
        ({
            let m = text::lower(message);
            message_category(message) == ErrorCategory::Authentication <==> (text::contains(
                m,
                "auth"@,
            ) || text::contains(m, "credential"@) || text::contains(m, "sign-in"@)
                || text::contains(m, "sign in"@) || text::contains(m, "unauthorized"@)
                || text::contains(m, "forbidden"@) || text::contains(m, "token"@))
        }),
{
    let words = authentication_words();
    assert(words[0] == "auth"@ && words[1] == "credential"@ && words[2] == "sign-in"@ && words[3]
        == "sign in"@ && words[4] == "unauthorized"@ && words[5] == "forbidden"@ && words[6]
        == "token"@);
}

/// Of a message that is not about signing in the category follows from what it names, in this
/// order: a limit of the rate, a timeout, a connection, something not found, a model that is not
/// there, the limit of the context, an interruption. Otherwise it is unknown.
pub proof fn law_other_messages(message: Seq<char>)
    requires
        message_category(message) != ErrorCategory::Authentication,
    ensures
        ({
            let m = text::lower(message);
            let rate = text::contains(m, "rate limit"@) || text::contains(m, "too many requests"@)
                || text::contains(m, "429"@);
            let late = text::contains(m, "timeout"@) || text::contains(m, "timed out"@);
            let cut = text::contains(m, "connection"@) || text::contains(m, "socket"@);
            let missing = text::contains(m, "not found"@) || text::contains(m, "404"@);
            let model = text::contains(m, "model"@) && (text::contains(m, "unavailable"@)
                || text::contains(m, "does not exist"@));
            &&& message_category(message) == ErrorCategory::RateLimit <==> rate
            &&& message_category(message) == ErrorCategory::Timeout <==> !rate && late
            &&& message_category(message) == ErrorCategory::Connection <==> !rate && !late && cut
            &&& message_category(message) == ErrorCategory::NotFound <==> !rate && !late && !cut
                && missing
            &&& message_category(message) == ErrorCategory::ModelUnavailable <==> !rate && !late
                && !cut && !missing && model
            &&& message_category(message) == ErrorCategory::ContextLimit <==> !rate && !late && !cut
                && !missing && !model && text::contains(m, "context limit"@)
            &&& message_category(message) == ErrorCategory::Interrupted <==> !rate && !late && !cut
                && !missing && !model && !text::contains(m, "context limit"@) && text::contains(
                m,
                "interrupt"@,
            )
        }),
{
    let rate = seq!["rate limit"@, "too many requests"@, "429"@];
    assert(rate[0] == "rate limit"@ && rate[1] == "too many requests"@ && rate[2] == "429"@);
    let late = seq!["timeout"@, "timed out"@];
    assert(late[0] == "timeout"@ && late[1] == "timed out"@);
    let cut = seq!["connection"@, "socket"@];
    assert(cut[0] == "connection"@ && cut[1] == "socket"@);
    let missing = seq!["not found"@, "404"@];
    assert(missing[0] == "not found"@ && missing[1] == "404"@);
    let gone = seq!["unavailable"@, "does not exist"@];
    assert(gone[0] == "unavailable"@ && gone[1] == "does not exist"@);
}

/// What is shown of an error in public follows from what it names, and nothing of its own text is
/// shown.
pub proof fn law_public_wordings(error: Seq<char>)
    ensures
        ({
            let m = text::lower(error);
            let sign_in = text::contains(m, "auth"@) || text::contains(m, "credential"@)
                || text::contains(m, "token"@) || text::contains(m, "unauthorized"@)
                || text::contains(m, "forbidden"@);
            let mail = text::contains(m, "fastmail email response is invalid"@);
            let rate = text::contains(m, "rate limit"@) || text::contains(m, "too many requests"@);
            let late = text::contains(m, "timeout"@) || text::contains(m, "timed out"@);
            let reset = text::contains(m, "connection reset"@);
            let missing = text::contains(m, "not found"@) || text::contains(m, "404"@);
            let model = text::contains(m, "model"@) && text::contains(m, "unavailable"@);
            public_wording(error) == (match (sign_in, mail, rate, late, reset, missing, model) {
                (true, _, _, _, _, _, _) => "Authentication failed"@,
                (_, true, _, _, _, _, _) => "Fastmail email response is invalid"@,
                (_, _, true, _, _, _, _) => "Rate limited"@,
                (_, _, _, true, _, _, _) => "Request timed out"@,
                (_, _, _, _, true, _, _) => "Connection reset"@,
                (_, _, _, _, _, true, _) => "Resource not found (404)"@,
                (_, _, _, _, _, _, true) => "Model unavailable"@,
                _ => if text::contains(m, "interrupt"@) {
                    "Triage interrupted"@
                } else {
                    "Operation failed"@
                },
            })
        }),
{
    let sign_in = seq!["auth"@, "credential"@, "token"@, "unauthorized"@, "forbidden"@];
    assert(sign_in[0] == "auth"@ && sign_in[1] == "credential"@ && sign_in[2] == "token"@
        && sign_in[3] == "unauthorized"@ && sign_in[4] == "forbidden"@);
    let rate = seq!["rate limit"@, "too many requests"@];
    assert(rate[0] == "rate limit"@ && rate[1] == "too many requests"@);
    let late = seq!["timeout"@, "timed out"@];
    assert(late[0] == "timeout"@ && late[1] == "timed out"@);
    let missing = seq!["not found"@, "404"@];
    assert(missing[0] == "not found"@ && missing[1] == "404"@);
}

} // verus!
