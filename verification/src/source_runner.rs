//! Running a source: its request, its environment, and what its process leaves behind.
use vstd::prelude::*;

use crate::application_log::{self, APPLICATION_LOG_PATH_ENV};
use crate::config::{self, IntakeConfig, SourceConfig, SourceOption, Variable};
use crate::database::records::DatabaseError;
use crate::json;
use crate::protocol::{self, PollRequest, PollResponse, MAX_STANDARD_INPUT_BYTES, PROTOCOL_VERSION};
use crate::text;

verus! {

/// The most that a source may write to its standard output, in bytes.
pub const SOURCE_OUTPUT_LIMIT: usize = 8_388_608;

/// The most that a source may write to its standard error, in bytes.
pub const SOURCE_DIAGNOSTIC_LIMIT: usize = 65_536;

/// How long a process has to end once it was asked to, in milliseconds.
pub const TERMINATION_GRACE_MS: u64 = 1000;

/// Why a source could not be polled.
#[derive(Debug)]
pub enum SourceRunnerError {
    RequestTooLarge,
    Spawn(String),
    Timeout,
    Exit { status: String, diagnostics: String },
    OutputTooLarge { stream: &'static str, limit: usize },
    Stream(String),
    Utf8(String),
    Json(String),
    Schema(String),
    ItemLimit { actual: usize, limit: usize },
    Database(DatabaseError),
    Poll(String),
    FailureRecording { poll: String, database: String },
}

impl SourceRunnerError {
    /// The text shown for the error.
    pub open spec fn text(self) -> Seq<char> {
        match self {
            SourceRunnerError::RequestTooLarge => "source request exceeded 8388608 bytes"@,
            SourceRunnerError::Spawn(error) => "source failed to start: "@ + error@,
            SourceRunnerError::Timeout => "source poll timed out"@,
            SourceRunnerError::Exit { status, diagnostics } => "source exited "@ + status@ + ": "@
                + diagnostics@,
            SourceRunnerError::OutputTooLarge { stream, limit } => "source standard "@ + stream@
                + " exceeded "@ + text::decimal(limit as nat) + " bytes"@,
            SourceRunnerError::Stream(error) => "source standard stream error: "@ + error@,
            SourceRunnerError::Utf8(error) => "source stdout is not valid UTF-8: "@ + error@,
            SourceRunnerError::Json(error) => "source stdout is not one JSON response: "@ + error@,
            SourceRunnerError::Schema(error) => "source response failed validation: "@ + error@,
            SourceRunnerError::ItemLimit { actual, limit } => "source returned "@ + text::decimal(
                actual as nat,
            ) + " items for a limit of "@ + text::decimal(limit as nat),
            SourceRunnerError::Database(error) => "source database operation failed: "@
                + error.text(),
            SourceRunnerError::Poll(message) => message@,
            SourceRunnerError::FailureRecording { poll, database } =>
                "source poll failed and its failure could not be recorded: "@ + poll@ + "; "@
                + database@,
        }
    }

    /// The text shown for the error.
    pub fn message(&self) -> (out: String)
        ensures
            out@ == self.text(),
    {
        match self {
            SourceRunnerError::RequestTooLarge => {
                "source request exceeded 8388608 bytes".to_owned()
            },
            SourceRunnerError::Spawn(error) => {
                let mut out = "source failed to start: ".to_owned();
                out.append(error.as_str());
                out
            },
            SourceRunnerError::Timeout => "source poll timed out".to_owned(),
            SourceRunnerError::Exit { status, diagnostics } => {
                let mut out = "source exited ".to_owned();
                out.append(status.as_str());
                out.append(": ");
                out.append(diagnostics.as_str());
                out
            },
            SourceRunnerError::OutputTooLarge { stream, limit } => {
                let mut out = "source standard ".to_owned();
                out.append(stream);
                out.append(" exceeded ");
                out.append(text::decimal_of(*limit as u128).as_str());
                out.append(" bytes");
                out
            },
            SourceRunnerError::Stream(error) => {
                let mut out = "source standard stream error: ".to_owned();
                out.append(error.as_str());
                out
            },
            SourceRunnerError::Utf8(error) => {
                let mut out = "source stdout is not valid UTF-8: ".to_owned();
                out.append(error.as_str());
                out
            },
            SourceRunnerError::Json(error) => {
                let mut out = "source stdout is not one JSON response: ".to_owned();
                out.append(error.as_str());
                out
            },
            SourceRunnerError::Schema(error) => {
                let mut out = "source response failed validation: ".to_owned();
                out.append(error.as_str());
                out
            },
            SourceRunnerError::ItemLimit { actual, limit } => {
                let mut out = "source returned ".to_owned();
                out.append(text::decimal_of(*actual as u128).as_str());
                out.append(" items for a limit of ");
                out.append(text::decimal_of(*limit as u128).as_str());
                out
            },
            SourceRunnerError::Database(error) => {
                let mut out = "source database operation failed: ".to_owned();
                out.append(error.message().as_str());
                out
            },
            SourceRunnerError::Poll(message) => message.as_str().to_owned(),
            SourceRunnerError::FailureRecording { poll, database } => {
                let mut out =
                    "source poll failed and its failure could not be recorded: ".to_owned();
                out.append(poll.as_str());
                out.append("; ");
                out.append(database.as_str());
                out
            },
        }
    }
}

// ---------------------------------------------------------------------------------------------
// The request
// ---------------------------------------------------------------------------------------------

/// The options of a request, before they are written: the project roots, and the options of the
/// source, which come later and so count where they bear the same name.
pub open spec fn option_entries(roots_json: Seq<char>, options: Seq<SourceOption>) -> Seq<
    (Seq<char>, json::PartModel),
> {
    seq![("project_roots"@, json::PartModel::Json(roots_json))] + options.map_values(
        |option: SourceOption| (option.key@, json::PartModel::Json(option.value@)),
    )
}

/// The JSON text of the options of a request.
pub open spec fn options_json(source: SourceConfig, config: IntakeConfig) -> Result<
    Seq<char>,
    Seq<char>,
> {
    match json::list_json(text::texts(config.project_roots@)) {
        Ok(roots) => json::object_text(option_entries(roots, source.options@)),
        Err(error) => Err(error),
    }
}

/// The entries of the options of a request.
fn list_options(roots_json: &str, options: &Vec<SourceOption>) -> (list: Vec<json::Entry>)
    ensures
        json::entries(list@) == option_entries(roots_json@, options@),
{
    let mut list: Vec<json::Entry> = Vec::new();
    list.push(json::json_entry("project_roots", roots_json));
    let ghost all = option_entries(roots_json@, options@);
    let total: usize = options.len();
    let mut i: usize = 0;
    while i < total
        invariant
            i <= total == options@.len(),
            all == option_entries(roots_json@, options@),
            list@.len() == i + 1,
            forall|k: int|
                0 <= k < list@.len() ==> ((#[trigger] list@[k]).key@, list@[k].value@) == all[k],
        decreases total - i,
    {
        list.push(json::json_entry(options[i].key.as_str(), options[i].value.as_str()));
        i += 1;
    }
    assert(json::entries(list@) =~= all) by {
        assert forall|k: int| 0 <= k < list@.len() implies json::entries(list@)[k] == all[k] by {
            assert((list@[k].key@, list@[k].value@) == all[k]);
        }
    }
    list
}

/// The JSON text of the options of a request.
pub fn request_options(source: &SourceConfig, config: &IntakeConfig) -> (result: Result<
    String,
    String,
>)
    ensures
        json::written(result) == options_json(*source, *config),
{
    match json::write_list(&config.project_roots) {
        Ok(roots) => json::write_object(&list_options(roots.as_str(), &source.options)),
        Err(error) => Err(error),
    }
}

/// The request that is sent to a source. The checkpoint and the options are JSON texts.
pub fn poll_request(source: &SourceConfig, checkpoint: &str, now: &str, options: &str) -> (result:
    Result<PollRequest, SourceRunnerError>)
    ensures
        match protocol::asking_problem(
            PROTOCOL_VERSION,
            source.name@,
            now@,
            source.item_limit,
        ) {
            Some(problem) => result matches Err(SourceRunnerError::Schema(message)) && message@
                == "invalid poll request: "@ + problem,
            None => result matches Ok(request) && {
                &&& request.protocol_version == PROTOCOL_VERSION
                &&& request.source@ == source.name@
                &&& request.checkpoint@ == checkpoint@
                &&& request.now@ == now@
                &&& request.item_limit == source.item_limit
                &&& request.options@ == options@
            },
        },
{
    let request = PollRequest {
        protocol_version: PROTOCOL_VERSION,
        source: source.name.as_str().to_owned(),
        checkpoint: checkpoint.to_owned(),
        now: now.to_owned(),
        item_limit: source.item_limit,
        options: options.to_owned(),
    };
    match request.validate() {
        Ok(()) => Ok(request),
        Err(error) => Err(SourceRunnerError::Schema(error.message())),
    }
}

/// Whether a written request may be sent.
pub fn check_request(bytes: u64) -> (result: Result<(), SourceRunnerError>)
    ensures
        result is Ok <==> bytes <= MAX_STANDARD_INPUT_BYTES,
        result matches Err(error) ==> error is RequestTooLarge,
{
    if bytes > MAX_STANDARD_INPUT_BYTES {
        Err(SourceRunnerError::RequestTooLarge)
    } else {
        Ok(())
    }
}

// ---------------------------------------------------------------------------------------------
// The environment
// ---------------------------------------------------------------------------------------------

/// The value that a source finds in a variable: one that is set for every source, or else one
/// that the source asks for.
pub open spec fn source_variable(
    source: SourceConfig,
    config: IntakeConfig,
    environment: Seq<Variable>,
    current_directory: Seq<char>,
    name: Seq<char>,
) -> Option<Seq<char>> {
    let logs = config::expanded(config.state.logs@, environment, current_directory);
    if name == APPLICATION_LOG_PATH_ENV@ && logs is Some {
        Some(application_log::log_path(logs->0))
    } else if name == "NO_COLOR"@ {
        Some("1"@)
    } else if name == "LC_ALL"@ || name == "LANG"@ {
        Some("C.UTF-8"@)
    } else if name == "HOME"@ {
        match config::variable(environment, "HOME"@) {
            Some(home) => Some(home),
            None => Some(Seq::empty()),
        }
    } else if name == "PATH"@ {
        Some(text::join(text::texts(config.commands.path@), ":"@))
    } else if text::texts(source.environment@).contains(name) {
        config::variable(environment, name)
    } else {
        None
    }
}

/// Sets a variable.
fn set_variable(environment: &mut Vec<Variable>, name: &str, value: String)
    ensures
        forall|other: Seq<char>| #[trigger]
            config::variable(final(environment)@, other) == (if other == name@ {
                Some(value@)
            } else {
                config::variable(old(environment)@, other)
            }),
{
    environment.push(Variable { name: name.to_owned(), value });
    assert(environment@.drop_last() =~= old(environment)@);
}

/// The variables that the source asks for.
fn requested_variables(source: &SourceConfig, environment: &Vec<Variable>) -> (out: Vec<Variable>)
    ensures
        forall|name: Seq<char>| #[trigger]
            config::variable(out@, name) == (if text::texts(source.environment@).contains(name) {
                config::variable(environment@, name)
            } else {
                None
            }),
{
    let ghost asked = text::texts(source.environment@);
    let total: usize = source.environment.len();
    let mut out: Vec<Variable> = Vec::new();
    let mut i: usize = 0;
    while i < total
        invariant
            i <= total == source.environment@.len(),
            asked == text::texts(source.environment@),
            forall|name: Seq<char>| #[trigger]
                config::variable(out@, name) == (if asked.take(i as int).contains(name) {
                    config::variable(environment@, name)
                } else {
                    None
                }),
        decreases total - i,
    {
        let ghost before = out@;
        let ghost own = asked[i as int];
        assert(own == source.environment@[i as int]@);
        match config::lookup(environment, source.environment[i].as_str()) {
            Some(value) => set_variable(&mut out, source.environment[i].as_str(), value),
            None => {},
        }
        assert forall|name: Seq<char>| #[trigger]
            config::variable(out@, name) == (if asked.take(i + 1).contains(name) {
                config::variable(environment@, name)
            } else {
                None
            }) by {
            let longer = asked.take(i + 1);
            assert(longer =~= asked.take(i as int).push(own));
            assert(config::variable(before, name) == config::variable(before, name));
            if asked.take(i as int).contains(name) {
                let k = choose|k: int| 0 <= k < i && asked.take(i as int)[k] == name;
                assert(longer[k] == name);
            }
            assert(longer[i as int] == own);
            if longer.contains(name) && name != own {
                let k = choose|k: int| 0 <= k < longer.len() && longer[k] == name;
                assert(asked.take(i as int)[k] == name);
            }
        }
        i += 1;
    }
    assert(asked.take(i as int) =~= asked);
    out
}

/// The environment of a source's process.
pub fn source_environment(
    source: &SourceConfig,
    config: &IntakeConfig,
    environment: &Vec<Variable>,
    current_directory: &str,
) -> (out: Vec<Variable>)
    ensures
        forall|name: Seq<char>| #[trigger]
            config::variable(out@, name) == source_variable(
                *source,
                *config,
                environment@,
                current_directory@,
                name,
            ),
{
    proof {
        lemma_names_differ();
    }
    let mut out = requested_variables(source, environment);
    set_variable(&mut out, "PATH", text::join_strings(&config.commands.path, ":"));
    let home = match config::lookup(environment, "HOME") {
        Some(home) => home,
        None => String::new(),
    };
    set_variable(&mut out, "HOME", home);
    set_variable(&mut out, "LANG", "C.UTF-8".to_owned());
    set_variable(&mut out, "LC_ALL", "C.UTF-8".to_owned());
    set_variable(&mut out, "NO_COLOR", "1".to_owned());
    match config::expand_path_with_env(
        config.state.logs.as_str(),
        environment,
        current_directory,
    ) {
        Ok(logs) => {
            let path = application_log::application_log_path(logs.as_str());
            set_variable(&mut out, APPLICATION_LOG_PATH_ENV, path);
        },
        Err(_) => {},
    }
    out
}

proof fn lemma_names_differ()
    ensures
        "PATH"@ != "HOME"@,
        "PATH"@ != "LANG"@,
        "HOME"@ != "LANG"@,
        "PATH"@.len() == 4 && "HOME"@.len() == 4 && "LANG"@.len() == 4,
        "LC_ALL"@.len() == 6,
        "NO_COLOR"@.len() == 8,
        APPLICATION_LOG_PATH_ENV@.len() == 15,
{
    reveal_strlit("PATH");
    reveal_strlit("HOME");
    reveal_strlit("LANG");
    reveal_strlit("LC_ALL");
    reveal_strlit("NO_COLOR");
    reveal_strlit("INTAKE_LOG_PATH");
    assert("PATH"@[0] == 'P' && "HOME"@[0] == 'H' && "LANG"@[0] == 'L');
}

/// The values of the named variables, of those that are set.
pub open spec fn values_of(names: Seq<Seq<char>>, environment: Seq<Variable>) -> Seq<Seq<char>>
    decreases names.len(),
{
    if names.len() == 0 {
        Seq::empty()
    } else {
        let before = values_of(names.drop_last(), environment);
        match config::variable(environment, names.last()) {
            Some(value) => before.push(value),
            None => before,
        }
    }
}

/// The values that the source asked for: they are not shown in any error.
pub fn secret_values(source: &SourceConfig, environment: &Vec<Variable>) -> (values: Vec<String>)
    ensures
        text::texts(values@) == values_of(text::texts(source.environment@), environment@),
{
    let ghost names = text::texts(source.environment@);
    let total: usize = source.environment.len();
    let mut values: Vec<String> = Vec::new();
    let mut i: usize = 0;
    assert(text::texts(values@) =~= values_of(names.take(0), environment@));
    while i < total
        invariant
            i <= total == source.environment@.len(),
            names == text::texts(source.environment@),
            text::texts(values@) == values_of(names.take(i as int), environment@),
        decreases total - i,
    {
        assert(names.take(i + 1).drop_last() =~= names.take(i as int));
        assert(names.take(i + 1).last() == source.environment@[i as int]@);
        let ghost before = values@;
        match config::lookup(environment, source.environment[i].as_str()) {
            Some(value) => {
                values.push(value);
                assert(text::texts(values@) =~= text::texts(before).push(value@));
            },
            None => {},
        }
        i += 1;
    }
    assert(names.take(i as int) =~= names);
    values
}

// ---------------------------------------------------------------------------------------------
// What is shown of an error
// ---------------------------------------------------------------------------------------------

/// The list with the value behind every other that is as long in bytes or longer.
pub open spec fn placed(list: Seq<Seq<char>>, value: Seq<char>) -> Seq<Seq<char>>
    decreases list.len(),
{
    if list.len() == 0 || text::byte_len(list.last()) >= text::byte_len(value) {
        list.push(value)
    } else {
        placed(list.drop_last(), value).push(list.last())
    }
}

/// The values that are not empty, the longest in bytes first, and of the same length in their
/// order.
pub open spec fn longest_first(values: Seq<Seq<char>>) -> Seq<Seq<char>>
    decreases values.len(),
{
    if values.len() == 0 {
        Seq::empty()
    } else if values.last().len() == 0 {
        longest_first(values.drop_last())
    } else {
        placed(longest_first(values.drop_last()), values.last())
    }
}

/// The list without the texts that stand right behind an equal one.
pub open spec fn without_repeats(list: Seq<Seq<char>>) -> Seq<Seq<char>>
    decreases list.len(),
{
    if list.len() == 0 {
        Seq::empty()
    } else {
        let before = without_repeats(list.drop_last());
        if before.len() > 0 && before.last() == list.last() {
            before
        } else {
            before.push(list.last())
        }
    }
}

/// The text in which the mark stands for each of the values, in their order.
pub open spec fn without_secrets(message: Seq<char>, values: Seq<Seq<char>>) -> Seq<char>
    decreases values.len(),
{
    if values.len() == 0 {
        message
    } else {
        text::replaced(
            without_secrets(message, values.drop_last()),
            values.last(),
            application_log::mark(),
        )
    }
}

/// What is shown of an error of a source: without the values that the source asked for, and as
/// the log shows it.
pub open spec fn shown_error(message: Seq<char>, secrets: Seq<Seq<char>>) -> Seq<char> {
    application_log::redacted(without_secrets(message, without_repeats(longest_first(secrets))))
}

/// Puts a value in its place in a list that is ordered by length.
fn place(list: &mut Vec<String>, value: String)
    ensures
        text::texts(final(list)@) == placed(text::texts(old(list)@), value@),
{
    let ghost before = text::texts(list@);
    let size = text::byte_count(&text::chars_of(value.as_str()));
    let total: usize = list.len();
    let mut i: usize = total;
    assert(before.take(total as int) =~= before);
    assert(placed(before, value@) =~= placed(before.take(i as int), value@) + before.skip(
        i as int,
    ));
    while i > 0 && text::byte_count(&text::chars_of(list[i - 1].as_str())) < size
        invariant
            i <= total == list@.len(),
            before == text::texts(list@),
            before == text::texts(old(list)@),
            size == text::byte_len(value@),
            placed(before, value@) == placed(before.take(i as int), value@) + before.skip(
                i as int,
            ),
        decreases i,
    {
        let ghost prefix = before.take(i as int);
        assert(prefix.last() == list@[i - 1]@);
        assert(prefix.drop_last() =~= before.take(i - 1));
        assert(placed(prefix, value@) + before.skip(i as int) =~= placed(
            before.take(i - 1),
            value@,
        ) + before.skip(i - 1));
        i -= 1;
    }
    proof {
        let prefix = before.take(i as int);
        if i > 0 {
            assert(prefix.last() == list@[i - 1]@);
        }
        assert(placed(prefix, value@) == prefix.push(value@));
    }
    list.insert(i, value);
    assert(text::texts(list@) =~= before.take(i as int).push(value@) + before.skip(i as int));
}

/// The values that are not empty, the longest first.
fn order_values(values: &Vec<String>) -> (out: Vec<String>)
    ensures
        text::texts(out@) == longest_first(text::texts(values@)),
{
    let ghost all = text::texts(values@);
    let total: usize = values.len();
    let mut out: Vec<String> = Vec::new();
    let mut i: usize = 0;
    assert(text::texts(out@) =~= longest_first(all.take(0)));
    while i < total
        invariant
            i <= total == values@.len(),
            all == text::texts(values@),
            text::texts(out@) == longest_first(all.take(i as int)),
        decreases total - i,
    {
        assert(all.take(i + 1).drop_last() =~= all.take(i as int));
        assert(all.take(i + 1).last() == values@[i as int]@);
        if !values[i].as_str().is_empty() {
            place(&mut out, values[i].as_str().to_owned());
        }
        i += 1;
    }
    assert(all.take(i as int) =~= all);
    out
}

/// The list without the texts that stand right behind an equal one.
fn drop_repeats(list: &Vec<String>) -> (out: Vec<String>)
    ensures
        text::texts(out@) == without_repeats(text::texts(list@)),
{
    let ghost all = text::texts(list@);
    let total: usize = list.len();
    let mut out: Vec<String> = Vec::new();
    let mut i: usize = 0;
    assert(text::texts(out@) =~= without_repeats(all.take(0)));
    while i < total
        invariant
            i <= total == list@.len(),
            all == text::texts(list@),
            text::texts(out@) == without_repeats(all.take(i as int)),
        decreases total - i,
    {
        assert(all.take(i + 1).drop_last() =~= all.take(i as int));
        assert(all.take(i + 1).last() == list@[i as int]@);
        let ghost before = out@;
        assert(before.len() > 0 ==> text::texts(before).last() == before.last()@);
        let repeated = out.len() > 0 && text::same(out[out.len() - 1].as_str(), list[i].as_str());
        if !repeated {
            out.push(list[i].as_str().to_owned());
            assert(text::texts(out@) =~= text::texts(before).push(list@[i as int]@));
        }
        i += 1;
    }
    assert(all.take(i as int) =~= all);
    out
}

/// What is shown of an error of a source.
pub fn redact_source_error(message: &str, secrets: &Vec<String>) -> (out: String)
    ensures
        out@ == shown_error(message@, text::texts(secrets@)),
{
    let values = drop_repeats(&order_values(secrets));
    let ghost all = text::texts(values@);
    let total: usize = values.len();
    let mut redacted = message.to_owned();
    let mut i: usize = 0;
    assert(redacted@ == without_secrets(message@, all.take(0)));
    proof {
        lemma_ordered_values(text::texts(secrets@));
        lemma_repeats(longest_first(text::texts(secrets@)));
        assert forall|k: int| 0 <= k < all.len() implies (#[trigger] all[k]).len() > 0 by {
            assert(all.contains(all[k]));
        }
    }
    while i < total
        invariant
            i <= total == values@.len(),
            all == text::texts(values@),
            forall|k: int| 0 <= k < all.len() ==> (#[trigger] all[k]).len() > 0,
            redacted@ == without_secrets(message@, all.take(i as int)),
        decreases total - i,
    {
        assert(all.take(i + 1).drop_last() =~= all.take(i as int));
        assert(all[i as int] == values@[i as int]@);
        redacted = text::replace_all(redacted.as_str(), values[i].as_str(), "[REDACTED]");
        i += 1;
    }
    assert(all.take(i as int) =~= all);
    application_log::redact_log_text(redacted.as_str())
}

/// What is shown of a poll that failed. Where the failure could not be recorded either, both
/// are shown.
pub open spec fn reported_failure(
    poll: Seq<char>,
    recorded: Result<(), Seq<char>>,
    secrets: Seq<Seq<char>>,
) -> Seq<char> {
    match recorded {
        Ok(_) => shown_error(poll, secrets),
        Err(database) => "source poll failed and its failure could not be recorded: "@
            + shown_error(poll, secrets) + "; "@ + shown_error(database, secrets),
    }
}

/// The error that stands for a poll that failed, once its failure was recorded or not. `poll`
/// is what `redact_source_error` shows of it.
pub fn poll_failure(poll: String, recorded: Result<(), DatabaseError>, secrets: &Vec<String>) -> (error:
    SourceRunnerError)
    ensures
        match recorded {
            Ok(_) => error matches SourceRunnerError::Poll(message) && message@ == poll@,
            Err(cause) => error matches SourceRunnerError::FailureRecording {
                poll: shown,
                database,
            } && shown@ == poll@ && database@ == shown_error(
                cause.text(),
                text::texts(secrets@),
            ),
        },
        forall|message: Seq<char>|
            poll@ == #[trigger] shown_error(message, text::texts(secrets@)) ==> error.text()
                == reported_failure(
                message,
                match recorded {
                    Ok(_) => Ok(()),
                    Err(cause) => Err(cause.text()),
                },
                text::texts(secrets@),
            ),
{
    match recorded {
        Ok(()) => SourceRunnerError::Poll(poll),
        Err(cause) => SourceRunnerError::FailureRecording {
            poll,
            database: redact_source_error(cause.message().as_str(), secrets),
        },
    }
}

/// What a process wrote to its standard error, as it is shown.
pub open spec fn diagnostics_shown(bytes: Seq<u8>) -> Seq<char> {
    let trimmed = text::trim(text::lossy_text(bytes));
    if trimmed.len() == 0 {
        "no diagnostics"@
    } else {
        trimmed
    }
}

/// What a process wrote to its standard error, as it is shown.
pub fn diagnostic_text(bytes: &[u8]) -> (out: String)
    ensures
        out@ == diagnostics_shown(bytes@),
{
    let trimmed = text::trim_str(text::from_utf8_lossy(bytes).as_str());
    if trimmed.as_str().is_empty() {
        "no diagnostics".to_owned()
    } else {
        trimmed
    }
}

// ---------------------------------------------------------------------------------------------
// Supervision
// ---------------------------------------------------------------------------------------------

/// How a process ended. The text describes an end without an exit code.
#[derive(Clone, Debug)]
pub struct SourceExit {
    pub code: Option<i32>,
    pub description: String,
}

impl SourceExit {
    pub open spec fn succeeded(self) -> bool {
        self.code == Some(0i32)
    }

    /// The exit code, or else the description.
    pub open spec fn status(self) -> Seq<char> {
        match self.code {
            Some(code) => text::signed_decimal(code as int),
            None => self.description@,
        }
    }

    pub fn success(&self) -> (b: bool)
        ensures
            b == self.succeeded(),
    {
        match self.code {
            Some(code) => code == 0,
            None => false,
        }
    }
}

/// The exit code, or else the description.
pub fn exit_status(exit: &SourceExit) -> (out: String)
    ensures
        out@ == exit.status(),
{
    match exit.code {
        Some(code) => text::signed_decimal_of(code as i64),
        None => exit.description.as_str().to_owned(),
    }
}

/// What happened around the process of a source. Each text is the one of an error.
pub enum SourceEvent {
    Exited(Result<SourceExit, String>),
    /// The request was written, or could not be.
    InputWritten(Result<(), String>),
    /// The task that writes the request broke off.
    InputLost(String),
    Output(Result<Vec<u8>, SourceRunnerError>),
    Diagnostics(Result<Vec<u8>, SourceRunnerError>),
    TimedOut,
}

/// What a process left behind.
#[derive(Debug)]
pub struct SourceOutput {
    pub exit: SourceExit,
    pub stdout: Vec<u8>,
    pub stderr: Vec<u8>,
}

/// What is to be done next.
pub enum SourceStep {
    /// To wait for the next event.
    Wait,
    /// To stop the process and to report the error.
    Stop(SourceRunnerError),
    /// To go on with what the process left behind.
    Done(SourceOutput),
}

/// What is known of a process that runs.
pub struct SourceSupervision {
    pub exit: Option<SourceExit>,
    pub input: Option<Result<(), String>>,
    pub stdout: Option<Vec<u8>>,
    pub stderr: Option<Vec<u8>>,
}

impl SourceSupervision {
    /// Whether the process has ended and all its streams are closed.
    pub open spec fn complete(self) -> bool {
        self.exit is Some && self.input is Some && self.stdout is Some && self.stderr is Some
    }

    /// What is known once the event happened, or the error that ends the supervision.
    pub open spec fn with(self, event: SourceEvent) -> Result<SourceSupervision, SourceRunnerError> {
        match event {
            SourceEvent::Exited(Ok(exit)) => Ok(SourceSupervision { exit: Some(exit), ..self }),
            SourceEvent::Exited(Err(error)) => Err(SourceRunnerError::Stream(error)),
            SourceEvent::InputWritten(result) => Ok(
                SourceSupervision { input: Some(result), ..self },
            ),
            SourceEvent::InputLost(error) => Err(SourceRunnerError::Stream(error)),
            SourceEvent::Output(Ok(bytes)) => Ok(
                SourceSupervision { stdout: Some(bytes), ..self },
            ),
            SourceEvent::Output(Err(error)) => Err(error),
            SourceEvent::Diagnostics(Ok(bytes)) => Ok(
                SourceSupervision { stderr: Some(bytes), ..self },
            ),
            SourceEvent::Diagnostics(Err(error)) => Err(error),
            SourceEvent::TimedOut => Err(SourceRunnerError::Timeout),
        }
    }

    /// What is to be done with what is known. A request that could not be written counts only
    /// where the process succeeded all the same.
    pub open spec fn step(self) -> SourceStep {
        if !self.complete() {
            SourceStep::Wait
        } else {
            match self.input->0 {
                Err(error) if self.exit->0.succeeded() => SourceStep::Stop(
                    SourceRunnerError::Stream(error),
                ),
                _ => SourceStep::Done(
                    SourceOutput {
                        exit: self.exit->0,
                        stdout: self.stdout->0,
                        stderr: self.stderr->0,
                    },
                ),
            }
        }
    }

    /// A process that was just started.
    pub fn start() -> (state: Self)
        ensures
            state.exit is None,
            state.input is None,
            state.stdout is None,
            state.stderr is None,
    {
        SourceSupervision { exit: None, input: None, stdout: None, stderr: None }
    }

    /// Takes an event. What is to be done next follows; as long as it is to wait, the state is
    /// kept.
    pub fn supervise(self, event: SourceEvent) -> (out: (Option<SourceSupervision>, SourceStep))
        ensures
            match self.with(event) {
                Err(error) => out.0 is None && out.1 == SourceStep::Stop(error),
                Ok(next) => {
                    &&& out.1 == next.step()
                    &&& out.0 == (if next.complete() {
                        None
                    } else {
                        Some(next)
                    })
                },
            },
    {
        let mut next = self;
        match event {
            SourceEvent::Exited(Ok(exit)) => {
                next.exit = Some(exit);
            },
            SourceEvent::Exited(Err(error)) => {
                return (None, SourceStep::Stop(SourceRunnerError::Stream(error)));
            },
            SourceEvent::InputWritten(result) => {
                next.input = Some(result);
            },
            SourceEvent::InputLost(error) => {
                return (None, SourceStep::Stop(SourceRunnerError::Stream(error)));
            },
            SourceEvent::Output(Ok(bytes)) => {
                next.stdout = Some(bytes);
            },
            SourceEvent::Output(Err(error)) => {
                return (None, SourceStep::Stop(error));
            },
            SourceEvent::Diagnostics(Ok(bytes)) => {
                next.stderr = Some(bytes);
            },
            SourceEvent::Diagnostics(Err(error)) => {
                return (None, SourceStep::Stop(error));
            },
            SourceEvent::TimedOut => {
                return (None, SourceStep::Stop(SourceRunnerError::Timeout));
            },
        }
        match (next.exit, next.input, next.stdout, next.stderr) {
            (Some(exit), Some(input), Some(stdout), Some(stderr)) => {
                if exit.success() {
                    match input {
                        Err(error) => {
                            return (None, SourceStep::Stop(SourceRunnerError::Stream(error)));
                        },
                        Ok(()) => {},
                    }
                }
                (None, SourceStep::Done(SourceOutput { exit, stdout, stderr }))
            },
            (exit, input, stdout, stderr) => (
                Some(SourceSupervision { exit, input, stdout, stderr }),
                SourceStep::Wait,
            ),
        }
    }
}

/// What was read of a stream, of which one byte more than the limit is asked for.
pub fn accept_stream(bytes: Vec<u8>, limit: usize, stream: &'static str) -> (result: Result<
    Vec<u8>,
    SourceRunnerError,
>)
    ensures
        result == (if bytes@.len() > limit {
            Err::<Vec<u8>, SourceRunnerError>(SourceRunnerError::OutputTooLarge { stream, limit })
        } else {
            Ok(bytes)
        }),
{
    if bytes.len() > limit {
        Err(SourceRunnerError::OutputTooLarge { stream, limit })
    } else {
        Ok(bytes)
    }
}

// ---------------------------------------------------------------------------------------------
// The response
// ---------------------------------------------------------------------------------------------

/// The JSON text in what a process left behind, or the text of the error.
pub open spec fn output_json(output: SourceOutput) -> Result<Seq<char>, Seq<char>> {
    if !output.exit.succeeded() {
        Err(
            "source exited "@ + output.exit.status() + ": "@ + diagnostics_shown(output.stderr@),
        )
    } else if !vstd::utf8::valid_utf8(output.stdout@) {
        Err("source stdout is not valid UTF-8: "@ + text::utf8_problem(output.stdout@))
    } else {
        let content = text::trim(vstd::utf8::decode_utf8(output.stdout@));
        match json::json_problem(content) {
            Some(error) => Err("source stdout is not one JSON response: "@ + error),
            None => Ok(content),
        }
    }
}

/// The JSON text in what a process left behind.
pub fn accept_output(output: &SourceOutput) -> (result: Result<String, SourceRunnerError>)
    ensures
        output_json(*output) == (match result {
            Ok(content) => Ok(content@),
            Err(error) => Err(error.text()),
        }),
        result matches Err(error) ==> {
            &&& error is Exit <==> !output.exit.succeeded()
            &&& error is Utf8 <==> output.exit.succeeded() && !vstd::utf8::valid_utf8(
                output.stdout@,
            )
            &&& error is Exit || error is Utf8 || error is Json
        },
{
    if !output.exit.success() {
        return Err(
            SourceRunnerError::Exit {
                status: exit_status(&output.exit),
                diagnostics: diagnostic_text(&output.stderr),
            },
        );
    }
    let stdout = match text::read_utf8(&output.stdout) {
        Ok(stdout) => stdout,
        Err(error) => return Err(SourceRunnerError::Utf8(error)),
    };
    let content = text::trim_str(stdout.as_str());
    match json::check_json(content.as_str()) {
        Ok(()) => Ok(content),
        Err(error) => Err(SourceRunnerError::Json(error)),
    }
}

/// What is wrong with an answer to a request for so many items, given what reading it gave.
pub open spec fn reply_problem(
    parsed: Result<PollResponse, String>,
    item_limit: usize,
) -> Option<Seq<char>> {
    match protocol::answer_problem(parsed) {
        Some(problem) => Some(
            "source response failed validation: "@ + ("invalid poll response: "@ + problem),
        ),
        None => {
            let count = parsed->Ok_0.items@.len();
            if count > item_limit {
                Some(
                    "source returned "@ + text::decimal(count) + " items for a limit of "@
                        + text::decimal(item_limit as nat),
                )
            } else {
                None
            }
        },
    }
}

/// Takes an answer to a request for so many items, given what reading it as JSON gave or why
/// that failed.
pub fn accept_response(parsed: Result<PollResponse, String>, item_limit: usize) -> (result: Result<
    PollResponse,
    SourceRunnerError,
>)
    ensures
        match result {
            Ok(response) => reply_problem(parsed, item_limit) is None && response == parsed->Ok_0,
            Err(error) => {
                &&& reply_problem(parsed, item_limit) == Some(error.text())
                &&& error is Schema <==> protocol::answer_problem(parsed) is Some
                &&& error is Schema || error is ItemLimit
            },
        },
{
    let response = match protocol::parse_poll_response(parsed) {
        Ok(response) => response,
        Err(error) => return Err(SourceRunnerError::Schema(error.message())),
    };
    let actual: usize = response.items.len();
    if actual > item_limit {
        return Err(SourceRunnerError::ItemLimit { actual, limit: item_limit });
    }
    Ok(response)
}

// ---------------------------------------------------------------------------------------------
// Laws
// ---------------------------------------------------------------------------------------------

/// None of the values that are looked for is empty.
proof fn lemma_ordered_values(values: Seq<Seq<char>>)
    ensures
        forall|k: int|
            0 <= k < longest_first(values).len() ==> (#[trigger] longest_first(values)[k]).len()
                > 0,
    decreases values.len(),
{
    if values.len() > 0 {
        lemma_ordered_values(values.drop_last());
        if values.last().len() > 0 {
            lemma_placed(longest_first(values.drop_last()), values.last());
        }
    }
}

proof fn lemma_placed(list: Seq<Seq<char>>, value: Seq<char>)
    ensures
        placed(list, value).len() == list.len() + 1,
        placed(list, value).contains(value),
        forall|k: int|
            0 <= k < placed(list, value).len() ==> (#[trigger] placed(list, value)[k]) == value
                || list.contains(placed(list, value)[k]),
        forall|other: Seq<char>|
            list.contains(other) ==> #[trigger] placed(list, value).contains(other),
    decreases list.len(),
{
    let out = placed(list, value);
    if list.len() == 0 || text::byte_len(list.last()) >= text::byte_len(value) {
        assert(out[list.len() as int] == value);
        assert forall|k: int| 0 <= k < out.len() implies (#[trigger] out[k]) == value
            || list.contains(out[k]) by {
            if k < list.len() {
                assert(list[k] == out[k]);
            }
        }
        assert forall|other: Seq<char>| list.contains(other) implies #[trigger] out.contains(
            other,
        ) by {
            let k = choose|k: int| 0 <= k < list.len() && list[k] == other;
            assert(out[k] == other);
        }
    } else {
        let shorter = list.drop_last();
        let inner = placed(shorter, value);
        lemma_placed(shorter, value);
        let w = choose|w: int| 0 <= w < inner.len() && inner[w] == value;
        assert(out[w] == value);
        assert forall|k: int| 0 <= k < out.len() implies (#[trigger] out[k]) == value
            || list.contains(out[k]) by {
            if k < inner.len() {
                assert(inner[k] == out[k]);
                if inner[k] != value {
                    let j = choose|j: int| 0 <= j < shorter.len() && shorter[j] == inner[k];
                    assert(list[j] == out[k]);
                }
            } else {
                assert(list[list.len() - 1] == out[k]);
            }
        }
        assert forall|other: Seq<char>| list.contains(other) implies #[trigger] out.contains(
            other,
        ) by {
            let k = choose|k: int| 0 <= k < list.len() && list[k] == other;
            if k < shorter.len() {
                assert(shorter[k] == other);
                assert(inner.contains(other));
                let j = choose|j: int| 0 <= j < inner.len() && inner[j] == other;
                assert(out[j] == other);
            } else {
                assert(out[inner.len() as int] == other);
            }
        }
    }
}

/// A list loses no text with its repetitions, and gains none.
proof fn lemma_repeats(list: Seq<Seq<char>>)
    ensures
        forall|value: Seq<char>|
            #[trigger] without_repeats(list).contains(value) <==> list.contains(value),
    decreases list.len(),
{
    if list.len() > 0 {
        let shorter = list.drop_last();
        let last = list.last();
        let before = without_repeats(shorter);
        let after = without_repeats(list);
        lemma_repeats(shorter);
        assert forall|value: Seq<char>| #[trigger]
            after.contains(value) <==> list.contains(value) by {
            assert(list =~= shorter.push(last));
            assert(list[list.len() - 1] == last);
            if after == before {
                assert(before[before.len() - 1] == last);
            } else {
                assert(after[before.len() as int] == last);
            }
            if list.contains(value) && value != last {
                let k = choose|k: int| 0 <= k < list.len() && list[k] == value;
                assert(shorter[k] == value);
                assert(before.contains(value));
                let j = choose|j: int| 0 <= j < before.len() && before[j] == value;
                assert(after[j] == value);
            }
            if after.contains(value) && value != last {
                let k = choose|k: int| 0 <= k < after.len() && after[k] == value;
                assert(before[k] == value);
                assert(before.contains(value));
                let j = choose|j: int| 0 <= j < shorter.len() && shorter[j] == value;
                assert(list[j] == value);
            }
        }
    }
}

/// What is placed by length are the values that are not empty.
proof fn lemma_longest_first(values: Seq<Seq<char>>, value: Seq<char>)
    requires
        values.contains(value),
        value.len() > 0,
    ensures
        longest_first(values).contains(value),
    decreases values.len(),
{
    let shorter = values.drop_last();
    let k = choose|k: int| 0 <= k < values.len() && values[k] == value;
    if values.last().len() > 0 {
        lemma_placed(longest_first(shorter), values.last());
    }
    if k < shorter.len() {
        assert(shorter[k] == value);
        lemma_longest_first(shorter, value);
    }
}

/// Once a value was replaced, replacing others does not bring it back.
proof fn lemma_secret_gone(message: Seq<char>, values: Seq<Seq<char>>, value: Seq<char>)
    requires
        application_log::hideable(value),
        values.contains(value),
    ensures
        !text::contains(without_secrets(message, values), value),
    decreases values.len(),
{
    let shorter = values.drop_last();
    let before = without_secrets(message, shorter);
    if values.last() == value {
        application_log::lemma_replaced_is_gone(before, value);
    } else {
        let k = choose|k: int| 0 <= k < values.len() && values[k] == value;
        assert(shorter[k] == value);
        lemma_secret_gone(message, shorter, value);
        application_log::lemma_replacing_reveals_nothing(before, values.last(), value);
    }
}

/// No value that a source asked for is left in what is shown of an error, as long as the value
/// has none of the brackets of the mark and is not part of the mark itself.
pub proof fn law_secrets_are_hidden(message: Seq<char>, secrets: Seq<Seq<char>>, value: Seq<char>)
    requires
        secrets.contains(value),
        application_log::hideable(value),
    ensures
        !text::contains(shown_error(message, secrets), value),
{
    let ordered = longest_first(secrets);
    lemma_longest_first(secrets, value);
    lemma_repeats(ordered);
    assert(without_repeats(ordered).contains(value));
    lemma_secret_gone(message, without_repeats(ordered), value);
    application_log::law_redaction_reveals_nothing(
        without_secrets(message, without_repeats(ordered)),
        value,
    );
}

/// A process is done only once it has ended, and its output is the one that was read.
pub proof fn law_finished_processes_are_complete(state: SourceSupervision)
    ensures
        state.step() matches SourceStep::Done(output) ==> {
            &&& state.exit == Some(output.exit)
            &&& state.stdout == Some(output.stdout)
            &&& state.stderr == Some(output.stderr)
            &&& state.input is Some
            &&& output.exit.succeeded() ==> state.input->0 is Ok
        },
{
}

/// A source sees the variables that it asks for as they are, a plain terminal, the search path of
/// the configuration, and no other variable.
pub proof fn law_sources_see_what_they_ask_for(
    source: SourceConfig,
    config: IntakeConfig,
    environment: Seq<Variable>,
    current_directory: Seq<char>,
    name: Seq<char>,
)
    requires
        name != APPLICATION_LOG_PATH_ENV@,
    ensures
        ({
            let value = source_variable(source, config, environment, current_directory, name);
            &&& name == "NO_COLOR"@ ==> value == Some("1"@)
            &&& name == "LANG"@ || name == "LC_ALL"@ ==> value == Some("C.UTF-8"@)
            &&& name == "PATH"@ ==> value == Some(
                text::join(text::texts(config.commands.path@), ":"@),
            )
            &&& name == "HOME"@ && config::variable(environment, name) is Some ==> value
                == config::variable(environment, name)
            &&& name != "NO_COLOR"@ && name != "LANG"@ && name != "LC_ALL"@ && name != "PATH"@
                && name != "HOME"@ ==> {
                &&& (exists|i: int|
                    0 <= i < source.environment@.len() && (#[trigger] source.environment@[i])@
                        == name) ==> value == config::variable(environment, name)
                &&& (forall|i: int|
                    0 <= i < source.environment@.len() ==> (#[trigger] source.environment@[i])@
                        != name) ==> value is None
            }
        }),
{
    reveal_strlit("NO_COLOR");
    reveal_strlit("LANG");
    reveal_strlit("LC_ALL");
    reveal_strlit("PATH");
    reveal_strlit("HOME");
    assert("NO_COLOR"@.len() == 8 && "LANG"@.len() == 4 && "LC_ALL"@.len() == 6 && "PATH"@.len()
        == 4 && "HOME"@.len() == 4);
    assert("LANG"@[0] == 'L' && "PATH"@[0] == 'P' && "HOME"@[0] == 'H');
    let asked = text::texts(source.environment@);
    assert forall|i: int| 0 <= i < source.environment@.len() implies asked[i] == (
    #[trigger] source.environment@[i])@ by {}
    if asked.contains(name) {
        let i = choose|i: int| 0 <= i < asked.len() && asked[i] == name;
        assert(source.environment@[i]@ == name);
    }
    if exists|i: int|
        0 <= i < source.environment@.len() && (#[trigger] source.environment@[i])@ == name {
        let i = choose|i: int|
            0 <= i < source.environment@.len() && (#[trigger] source.environment@[i])@ == name;
        assert(asked[i] == name);
    }
}

/// The output of a process counts exactly if it ended with zero and wrote one JSON value, which is
/// then read without the white space around it. A process that failed is reported with its status
/// and what it wrote to its standard error.
pub proof fn law_only_successful_output_counts(output: SourceOutput)
    ensures
        output_json(output) is Ok <==> output.exit.code == Some(0i32) && vstd::utf8::valid_utf8(
            output.stdout@,
        ) && json::json_problem(text::trim(vstd::utf8::decode_utf8(output.stdout@))) is None,
        output_json(output) matches Ok(content) ==> content == text::trim(
            vstd::utf8::decode_utf8(output.stdout@),
        ),
        output.exit.code matches Some(code) && code != 0 ==> output_json(output) == Err::<
            Seq<char>,
            Seq<char>,
        >("source exited "@ + text::signed_decimal(output.exit.code->0 as int) + ": "@
            + diagnostics_shown(output.stderr@)),
{
}

} // verus!
