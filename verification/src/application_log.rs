//! The application log: where it lives, how much it records, and what it never shows.
use vstd::prelude::*;

use crate::config;
use crate::paths;
use crate::text;

verus! {

pub const APPLICATION_LOG_FILE: &'static str = "application.log";

pub const APPLICATION_LOG_PATH_ENV: &'static str = "INTAKE_LOG_PATH";

/// What starting the log gives: the file it writes to, and what went wrong.
#[derive(Clone, Debug)]
pub struct TracingInit {
    pub path: Option<String>,
    pub warning: Option<String>,
}

#[derive(Clone, Copy, Debug, PartialEq, Eq, Structural)]
pub enum TracingInitError {
    AlreadyInitialized,
}

impl TracingInitError {
    pub fn message(&self) -> (out: String)
        ensures
            out@ == "tracing is already initialized"@,
    {
        "tracing is already initialized".to_owned()
    }
}

/// How much is logged.
#[derive(Clone, Copy, Debug, PartialEq, Eq, Structural)]
pub enum LogLevel {
    Off,
    Error,
    Warn,
    Info,
    Debug,
    Trace,
}

/// What kept the log file from being opened.
#[derive(Clone, Copy, Debug, PartialEq, Eq, Structural)]
pub enum FileProblem {
    NotFound,
    PermissionDenied,
    AlreadyExists,
    InvalidInput,
    ReadOnlyFilesystem,
    Other,
}

/// The log file in a directory of logs.
pub open spec fn log_path(logs: Seq<char>) -> Seq<char> {
    paths::joined(logs, "application.log"@)
}

/// The log file in a directory of logs.
pub fn application_log_path(logs: &str) -> (out: String)
    ensures
        out@ == log_path(logs@),
{
    paths::join(logs, "application.log")
}

/// The log file of a source process: the one it was told, or else the one in the state
/// directory, or none where no state directory is known.
pub open spec fn source_log_path(
    environment: Seq<config::Variable>,
    current_directory: Seq<char>,
) -> Option<Seq<char>> {
    match config::variable(environment, "INTAKE_LOG_PATH"@) {
        Some(path) => Some(path),
        None => match config::state_path_of(environment, current_directory) {
            Some(state) => Some(log_path(paths::joined(state, "logs"@))),
            None => None,
        },
    }
}

/// The log file of a source process.
pub fn source_application_log_path(
    environment: &Vec<config::Variable>,
    current_directory: &str,
) -> (out: Option<String>)
    ensures
        text::opt_text(out) == source_log_path(environment@, current_directory@),
{
    match config::lookup(environment, "INTAKE_LOG_PATH") {
        Some(path) => Some(path),
        None => match config::state_directory_with_env(environment, current_directory) {
            Ok(state) => Some(
                application_log_path(paths::join(state.as_str(), "logs").as_str()),
            ),
            Err(_) => None,
        },
    }
}

/// The level that a name stands for, in capitals or not.
pub open spec fn level_named(value: Seq<char>) -> Option<LogLevel> {
    let name = text::lower(value);
    if name == "off"@ {
        Some(LogLevel::Off)
    } else if name == "error"@ {
        Some(LogLevel::Error)
    } else if name == "warn"@ {
        Some(LogLevel::Warn)
    } else if name == "info"@ {
        Some(LogLevel::Info)
    } else if name == "debug"@ {
        Some(LogLevel::Debug)
    } else if name == "trace"@ {
        Some(LogLevel::Trace)
    } else {
        None
    }
}

/// The level that the setting asks for. Without a setting, and with one that names no level,
/// it is `Info`; the latter comes with a warning.
pub fn configured_level(setting: Option<&str>) -> (out: (LogLevel, Option<String>))
    ensures
        match setting {
            None => out.0 == LogLevel::Info && out.1 is None,
            Some(value) => match level_named(value@) {
                Some(level) => out.0 == level && out.1 is None,
                None => out.0 == LogLevel::Info && text::opt_text(out.1) == Some(
                    "ignoring invalid INTAKE_LOG value; expected off, error, warn, info, debug, or trace"@,
                ),
            },
        },
{
    let value = match setting {
        Some(value) => value,
        None => {
            return (LogLevel::Info, None);
        },
    };
    let lowered = text::lower_str(value);
    let name = lowered.as_str();
    if text::same(name, "off") {
        (LogLevel::Off, None)
    } else if text::same(name, "error") {
        (LogLevel::Error, None)
    } else if text::same(name, "warn") {
        (LogLevel::Warn, None)
    } else if text::same(name, "info") {
        (LogLevel::Info, None)
    } else if text::same(name, "debug") {
        (LogLevel::Debug, None)
    } else if text::same(name, "trace") {
        (LogLevel::Trace, None)
    } else {
        (
            LogLevel::Info,
            Some(
                "ignoring invalid INTAKE_LOG value; expected off, error, warn, info, debug, or trace".to_owned(),
            ),
        )
    }
}

/// What is said of a file that could not be opened.
pub open spec fn problem_text(problem: FileProblem) -> Seq<char> {
    match problem {
        FileProblem::NotFound => "path not found"@,
        FileProblem::PermissionDenied => "permission denied"@,
        FileProblem::AlreadyExists => "path already exists"@,
        FileProblem::InvalidInput => "invalid path"@,
        FileProblem::ReadOnlyFilesystem => "read-only filesystem"@,
        FileProblem::Other => "I/O error"@,
    }
}

pub fn safe_io_error(problem: FileProblem) -> (out: &'static str)
    ensures
        out@ == problem_text(problem),
{
    match problem {
        FileProblem::NotFound => "path not found",
        FileProblem::PermissionDenied => "permission denied",
        FileProblem::AlreadyExists => "path already exists",
        FileProblem::InvalidInput => "invalid path",
        FileProblem::ReadOnlyFilesystem => "read-only filesystem",
        FileProblem::Other => "I/O error",
    }
}

/// What starting the log reports, given what opening its file came to.
pub fn tracing_outcome(
    path: Option<&str>,
    opened: Option<FileProblem>,
    level_warning: Option<String>,
) -> (init: TracingInit)
    ensures
        text::opt_text(init.path) == (if opened is None {
            text::opt_str(path)
        } else {
            None
        }),
        text::opt_text(init.warning) == (match (path, opened) {
            (Some(path), Some(problem)) => Some(
                "application logging is unavailable for "@ + path@ + ": "@ + problem_text(problem),
            ),
            _ => text::opt_text(level_warning),
        }),
{
    match (path, opened) {
        (Some(path), Some(problem)) => {
            let mut warning = "application logging is unavailable for ".to_owned();
            warning.append(path);
            warning.append(": ");
            warning.append(safe_io_error(problem));
            TracingInit { path: None, warning: Some(warning) }
        },
        (Some(path), None) => TracingInit { path: Some(path.to_owned()), warning: level_warning },
        (None, _) => TracingInit { path: None, warning: level_warning },
    }
}

// ---------------------------------------------------------------------------------------------
// Redaction
// ---------------------------------------------------------------------------------------------

/// What stands in the place of a value that is not shown.
pub open spec fn mark() -> Seq<char> {
    "[REDACTED]"@
}

pub open spec fn ascii_space(c: char) -> bool {
    c == ' ' || c == '\t' || c == '\n' || c == '\r' || c == '\u{c}'
}

/// The sets of characters that the redaction runs over.
#[derive(Clone, Copy)]
pub enum Run {
    /// The rest of a key.
    Key,
    /// White space.
    Space,
    /// A value without quotes.
    Plain,
    /// A value in double quotes.
    Double,
    /// A value in single quotes.
    Single,
    /// What follows `bearer`.
    Bearer,
}

impl Run {
    pub open spec fn has(self, c: char) -> bool {
        match self {
            Run::Key => text::ascii_alphanumeric(c) || c == '_' || c == '-',
            Run::Space => ascii_space(c),
            Run::Plain => !(ascii_space(c) || c == ',' || c == '}' || c == ']'),
            Run::Double => c != '"',
            Run::Single => c != '\'',
            Run::Bearer => !(ascii_space(c) || c == '"' || c == '\'' || c == ',' || c == '}'),
        }
    }

    fn holds(self, c: char) -> (b: bool)
        ensures
            b == self.has(c),
    {
        let space = c == ' ' || c == '\t' || c == '\n' || c == '\r' || c == '\u{c}';
        match self {
            Run::Key => text::is_ascii_alphanumeric(c) || c == '_' || c == '-',
            Run::Space => space,
            Run::Plain => !(space || c == ',' || c == '}' || c == ']'),
            Run::Double => c != '"',
            Run::Single => c != '\'',
            Run::Bearer => !(space || c == '"' || c == '\'' || c == ',' || c == '}'),
        }
    }
}

/// Where the run of characters of the set that begins at `from` ends.
pub open spec fn run_end(s: Seq<char>, from: int, run: Run) -> int
    decreases s.len() - from,
{
    if 0 <= from < s.len() && run.has(s[from]) {
        run_end(s, from + 1, run)
    } else {
        from
    }
}

/// A run ends inside the text, and at a character that is not of the set or at the end.
pub proof fn lemma_run_end(s: Seq<char>, from: int, run: Run)
    requires
        0 <= from <= s.len(),
    ensures
        from <= run_end(s, from, run) <= s.len(),
        forall|i: int| from <= i < run_end(s, from, run) ==> run.has(#[trigger] s[i]),
        run_end(s, from, run) < s.len() ==> !run.has(s[run_end(s, from, run)]),
    decreases s.len() - from,
{
    if from < s.len() && run.has(s[from]) {
        lemma_run_end(s, from + 1, run);
    }
}

fn skip_run(s: &Vec<char>, from: usize, run: Run) -> (end: usize)
    requires
        from <= s@.len(),
    ensures
        end == run_end(s@, from as int, run),
        from <= end <= s@.len(),
{
    let mut i: usize = from;
    while i < s.len() && run.holds(s[i])
        invariant
            from <= i <= s@.len(),
            run_end(s@, i as int, run) == run_end(s@, from as int, run),
        decreases s@.len() - i,
    {
        i += 1;
    }
    i
}

/// The text with the characters `start..end` replaced by the mark.
pub open spec fn marked(s: Seq<char>, start: int, end: int) -> Seq<char> {
    s.take(start) + mark() + s.skip(end)
}

fn put_mark(s: &Vec<char>, start: usize, end: usize) -> (out: Vec<char>)
    requires
        start <= end <= s@.len(),
    ensures
        out@ == marked(s@, start as int, end as int),
        mark().len() == 10,
{
    proof {
        reveal_strlit("[REDACTED]");
    }
    let word = text::chars_of("[REDACTED]");
    let mut out: Vec<char> = Vec::new();
    let mut i: usize = 0;
    while i < start
        invariant
            i <= start <= s@.len(),
            out@ == s@.take(i as int),
        decreases start - i,
    {
        out.push(s[i]);
        i += 1;
    }
    let mut i: usize = 0;
    while i < word.len()
        invariant
            i <= word@.len(),
            start <= s@.len(),
            out@ == s@.take(start as int) + word@.take(i as int),
        decreases word@.len() - i,
    {
        out.push(word[i]);
        assert(out@ =~= s@.take(start as int) + word@.take(i + 1));
        i += 1;
    }
    assert(word@.take(i as int) =~= mark());
    let mut i: usize = end;
    while i < s.len()
        invariant
            end <= i <= s@.len(),
            start <= s@.len(),
            out@ == s@.take(start as int) + mark() + s@.subrange(end as int, i as int),
        decreases s@.len() - i,
    {
        out.push(s[i]);
        assert(out@ =~= s@.take(start as int) + mark() + s@.subrange(end as int, i + 1));
        i += 1;
    }
    assert(s@.subrange(end as int, i as int) =~= s@.skip(end as int));
    out
}

/// Where the value begins that belongs to the key found at `start`: behind the rest of the
/// key, a `:` or `=`, white space around it, and an opening quote. None where the key is part
/// of a longer word or no value follows.
pub open spec fn value_start(s: Seq<char>, key_length: int, start: int) -> Option<int> {
    if start > 0 && text::ascii_alphanumeric(s[start - 1]) {
        None
    } else {
        let sign = run_end(s, run_end(s, start + key_length, Run::Key), Run::Space);
        if sign < s.len() && (s[sign] == ':' || s[sign] == '=') {
            let open = run_end(s, sign + 1, Run::Space);
            if open < s.len() && (s[open] == '"' || s[open] == '\'') {
                Some(open + 1)
            } else {
                Some(open)
            }
        } else {
            None
        }
    }
}

/// Where the value that begins at `start` ends.
pub open spec fn value_end(s: Seq<char>, key_length: int, key: int, start: int) -> int {
    let sign = run_end(s, run_end(s, key + key_length, Run::Key), Run::Space);
    let open = run_end(s, sign + 1, Run::Space);
    if start == open {
        run_end(s, start, Run::Plain)
    } else if s[open] == '"' {
        run_end(s, start, Run::Double)
    } else {
        run_end(s, start, Run::Single)
    }
}

/// The text from which, from `offset` on, the values of the keyword are removed.
pub open spec fn without_values(s: Seq<char>, keyword: Seq<char>, offset: int) -> Seq<char>
    decreases s.len() - offset,
{
    if keyword.len() == 0 || offset < 0 || offset > s.len() {
        s
    } else {
        match text::find_from(text::lower(s), keyword, offset) {
            None => s,
            Some(start) => {
                let key_end = start + keyword.len();
                proof {
                    text::lemma_find(text::lower(s), keyword, offset);
                    lemma_value_bounds(s, keyword.len() as int, start);
                    reveal_strlit("[REDACTED]");
                }
                match value_start(s, keyword.len() as int, start) {
                    None => without_values(s, keyword, key_end),
                    Some(value) => {
                        let end = value_end(s, keyword.len() as int, start, value);
                        if end == value {
                            without_values(s, keyword, value)
                        } else {
                            without_values(
                                marked(s, value, end),
                                keyword,
                                value + mark().len(),
                            )
                        }
                    },
                }
            },
        }
    }
}

/// The value of a key begins behind the key and ends inside the text.
pub proof fn lemma_value_bounds(s: Seq<char>, key_length: int, start: int)
    requires
        0 <= start,
        0 < key_length,
        start + key_length <= s.len(),
    ensures
        value_start(s, key_length, start) matches Some(value) ==> {
            &&& start + key_length < value <= s.len()
            &&& value <= value_end(s, key_length, start, value) <= s.len()
        },
{
    let tail = run_end(s, start + key_length, Run::Key);
    lemma_run_end(s, start + key_length, Run::Key);
    lemma_run_end(s, tail, Run::Space);
    let sign = run_end(s, tail, Run::Space);
    if sign < s.len() {
        lemma_run_end(s, sign + 1, Run::Space);
        let open = run_end(s, sign + 1, Run::Space);
        lemma_run_end(s, open, Run::Plain);
        if open < s.len() {
            lemma_run_end(s, open + 1, Run::Double);
            lemma_run_end(s, open + 1, Run::Single);
        }
    }
}

/// The bounds of the value of the key at `start`.
fn find_value(s: &Vec<char>, key_length: usize, start: usize) -> (bounds: Option<(usize, usize)>)
    requires
        0 < key_length,
        start + key_length <= s@.len(),
    ensures
        match bounds {
            None => value_start(s@, key_length as int, start as int) is None,
            Some((value, end)) => value_start(s@, key_length as int, start as int) == Some(
                value as int,
            ) && value_end(s@, key_length as int, start as int, value as int) == end && value
                <= end <= s@.len() && start + key_length < value,
        },
{
    if start > 0 && text::is_ascii_alphanumeric(s[start - 1]) {
        return None;
    }
    let total: usize = s.len();
    let tail = skip_run(s, start + key_length, Run::Key);
    let sign = skip_run(s, tail, Run::Space);
    if sign < s.len() && (s[sign] == ':' || s[sign] == '=') {
        let open = skip_run(s, sign + 1, Run::Space);
        if open < s.len() && s[open] == '"' {
            Some((open + 1, skip_run(s, open + 1, Run::Double)))
        } else if open < s.len() && s[open] == '\'' {
            Some((open + 1, skip_run(s, open + 1, Run::Single)))
        } else {
            Some((open, skip_run(s, open, Run::Plain)))
        }
    } else {
        None
    }
}

fn redact_named_chars(value: Vec<char>, keyword: &str) -> (output: Vec<char>)
    requires
        keyword@.len() > 0,
    ensures
        output@ == without_values(value@, keyword@, 0),
{
    let key = text::chars_of(keyword);
    let ghost original = value@;
    let mut output = value;
    let mut offset: usize = 0;
    loop
        invariant
            key@ == keyword@,
            original == value@,
            key@.len() > 0,
            offset <= output@.len(),
            without_values(output@, key@, offset as int) == without_values(original, keyword@, 0),
        decreases output@.len() - offset,
    {
        let lowercase = text::lower_chars(&output);
        let start = match text::find_in(&lowercase, &key, offset) {
            Some(start) => start,
            None => {
                return output;
            },
        };
        assert(start + key@.len() <= output@.len());
        let total: usize = output.len();
        match find_value(&output, key.len(), start) {
            None => {
                offset = start + key.len();
            },
            Some((value, end)) => {
                if end == value {
                    offset = value;
                } else {
                    let ghost before = output@;
                    output = put_mark(&output, value, end);
                    proof {
                        reveal_strlit("[REDACTED]");
                        assert(output@.len() == value + 10 + (before.len() - end));
                    }
                    let grown: usize = output.len();
                    offset = value + 10;
                }
            },
        }
    }
}

/// Removes the values that follow the keyword.
pub fn redact_named_value(value: &str, keyword: &str) -> (out: String)
    requires
        keyword@.len() > 0,
    ensures
        out@ == without_values(value@, keyword@, 0),
{
    text::collect(&redact_named_chars(text::chars_of(value), keyword))
}

/// The text from which, from `offset` on, what follows `bearer` is removed.
pub open spec fn without_bearers(s: Seq<char>, offset: int) -> Seq<char>
    decreases s.len() - offset,
{
    if offset < 0 || offset > s.len() {
        s
    } else {
        match text::find_from(text::lower(s), "bearer "@, offset) {
            None => s,
            Some(found) => {
                let start = found + "bearer "@.len();
                let end = run_end(s, start, Run::Bearer);
                proof {
                    text::lemma_find(text::lower(s), "bearer "@, offset);
                    reveal_strlit("bearer ");
                    reveal_strlit("[REDACTED]");
                    lemma_run_end(s, start, Run::Bearer);
                }
                without_bearers(marked(s, start, end), start + mark().len())
            },
        }
    }
}

fn redact_bearer_chars(value: Vec<char>) -> (output: Vec<char>)
    ensures
        output@ == without_bearers(value@, 0),
{
    let key = text::chars_of("bearer ");
    proof {
        reveal_strlit("bearer ");
        reveal_strlit("[REDACTED]");
    }
    let ghost original = value@;
    let mut output = value;
    let mut offset: usize = 0;
    loop
        invariant
            key@ == "bearer "@,
            original == value@,
            key@.len() == 7,
            mark().len() == 10,
            offset <= output@.len(),
            without_bearers(output@, offset as int) == without_bearers(original, 0),
        decreases output@.len() - offset,
    {
        let lowercase = text::lower_chars(&output);
        let found = match text::find_in(&lowercase, &key, offset) {
            Some(found) => found,
            None => {
                return output;
            },
        };
        let total: usize = output.len();
        let start: usize = found + 7;
        let end = skip_run(&output, start, Run::Bearer);
        let ghost before = output@;
        output = put_mark(&output, start, end);
        assert(output@.len() == start + 10 + (before.len() - end));
        let grown: usize = output.len();
        offset = start + 10;
    }
}

/// Removes what follows `bearer`.
pub fn redact_bearer(value: &str) -> (out: String)
    ensures
        out@ == without_bearers(value@, 0),
{
    text::collect(&redact_bearer_chars(text::chars_of(value)))
}

/// The keywords whose values are never shown, in the order in which they are looked for.
pub open spec fn keywords() -> Seq<Seq<char>> {
    seq![
        "authorization"@,
        "command_output"@,
        "cookie"@,
        "oauth"@,
        "password"@,
        "payload"@,
        "prompt"@,
        "secret"@,
        "token"@,
    ]
}

/// The text from which the values of the first `count` keywords are removed.
pub open spec fn without_keywords(s: Seq<char>, count: int) -> Seq<char>
    decreases count,
{
    if count <= 0 {
        s
    } else {
        without_values(without_keywords(s, count - 1), keywords()[count - 1], 0)
    }
}

/// The text as the log shows it.
pub open spec fn redacted(s: Seq<char>) -> Seq<char> {
    without_keywords(without_bearers(s, 0), 9)
}

/// The text as the log shows it: without what follows `bearer`, and without the values of the
/// keywords.
pub fn redact_log_text(value: &str) -> (out: String)
    ensures
        out@ == redacted(value@),
{
    let words: [&str; 9] = [
        "authorization",
        "command_output",
        "cookie",
        "oauth",
        "password",
        "payload",
        "prompt",
        "secret",
        "token",
    ];
    proof {
        lemma_keywords_not_empty();
    }
    let ghost bare = without_bearers(value@, 0);
    let mut output = redact_bearer_chars(text::chars_of(value));
    let mut i: usize = 0;
    while i < 9
        invariant
            i <= 9,
            words@.len() == 9,
            forall|k: int| 0 <= k < 9 ==> (#[trigger] words@[k])@ == keywords()[k],
            forall|k: int| 0 <= k < 9 ==> (#[trigger] keywords()[k]).len() > 0,
            output@ == without_keywords(bare, i as int),
        decreases 9 - i,
    {
        assert(words@[i as int]@ == keywords()[i as int]);
        output = redact_named_chars(output, words[i]);
        i += 1;
    }
    text::collect(&output)
}

proof fn lemma_keywords_not_empty()
    ensures
        forall|k: int| 0 <= k < 9 ==> (#[trigger] keywords()[k]).len() > 0,
{
    reveal_strlit("authorization");
    reveal_strlit("command_output");
    reveal_strlit("cookie");
    reveal_strlit("oauth");
    reveal_strlit("password");
    reveal_strlit("payload");
    reveal_strlit("prompt");
    reveal_strlit("secret");
    reveal_strlit("token");
}

// ---------------------------------------------------------------------------------------------
// Laws
// ---------------------------------------------------------------------------------------------

/// Every `bearer ` that begins before `limit` is followed by the mark.
spec fn bearers_marked(s: Seq<char>, limit: int) -> bool {
    forall|i: int|
        0 <= i < limit && #[trigger] text::occurs_at(text::lower(s), "bearer "@, i)
            ==> text::occurs_at(s, mark(), i + 7)
}

proof fn lemma_bearers(s: Seq<char>, offset: int)
    requires
        0 <= offset <= s.len(),
        bearers_marked(s, offset),
    ensures
        bearers_marked(without_bearers(s, offset), without_bearers(s, offset).len() as int),
    decreases s.len() - offset,
{
    reveal_strlit("bearer ");
    reveal_strlit("[REDACTED]");
    let key = "bearer "@;
    text::lemma_find(text::lower(s), key, offset);
    match text::find_from(text::lower(s), key, offset) {
        None => {},
        Some(found) => {
            let start = found + 7;
            let end = run_end(s, start, Run::Bearer);
            lemma_run_end(s, start, Run::Bearer);
            let next = marked(s, start, end);
            let limit = start + 10;
            assert(bearers_marked(next, limit)) by {
                assert forall|i: int|
                    0 <= i < limit && #[trigger] text::occurs_at(
                        text::lower(next),
                        key,
                        i,
                    ) implies text::occurs_at(next, mark(), i + 7) by {
                    let low = text::lower(next);
                    assert(low.subrange(i, i + 7) == key);
                    assert(low.subrange(i, i + 7)[0] == 'b');
                    assert(low.subrange(i, i + 7)[6] == ' ');
                    if i + 7 <= start {
                        assert(text::lower(s).subrange(i, i + 7) =~= low.subrange(i, i + 7));
                        assert(text::occurs_at(text::lower(s), key, i));
                        if i < offset {
                            assert(s.subrange(i + 7, i + 17) == mark());
                            assert(s.subrange(i + 7, i + 17)[0] == '[');
                            // The marks before this place end before the word found here.
                            assert(i + 17 <= found) by {
                                if i + 17 > found {
                                    assert(text::lower(s).subrange(found, found + 7)[0] == 'b');
                                    assert(text::lower(s)[found] == 'b');
                                    if i + 7 <= found {
                                        let k = found - (i + 7);
                                        assert(s.subrange(i + 7, i + 17)[k] == s[found]);
                                        assert(mark()[k] != 'b' && mark()[k] != 'B');
                                    } else {
                                        let k = found - i;
                                        assert(text::lower(s).subrange(i, i + 7)[k]
                                            == text::lower(s)[found]);
                                        assert(key[k] != 'b');
                                    }
                                }
                            }
                            assert(next.subrange(i + 7, i + 17) =~= s.subrange(i + 7, i + 17));
                        } else {
                            assert(i == found);
                            assert(next.subrange(i + 7, i + 17) =~= mark());
                        }
                    } else if i < start {
                        // The word would reach into the mark, which holds none of its letters.
                        let k = start - i;
                        assert(low.subrange(i, i + 7)[k] == low[start]);
                        assert(next[start] == '[');
                        assert(false);
                    } else {
                        let k = i - start;
                        assert(next[i] == mark()[k]);
                        assert(mark()[k] != 'b' && mark()[k] != 'B');
                        assert(low[i] == text::lowered(next[i]));
                        assert(low.subrange(i, i + 7)[0] == low[i]);
                        assert(false);
                    }
                }
            }
            lemma_bearers(next, limit);
        },
    }
}

/// In a text that went through `redact_bearer` the mark follows every `bearer `, in capitals
/// or not: no credential that was announced by that word is left.
pub proof fn law_bearer_values_are_marked(value: Seq<char>, i: int)
    requires
        text::occurs_at(text::lower(without_bearers(value, 0)), "bearer "@, i),
    ensures
        text::occurs_at(without_bearers(value, 0), mark(), i + 7),
{
    reveal_strlit("bearer ");
    lemma_bearers(value, 0);
}

/// Whether the word can be a key: it is made of characters of keys, begins anew nowhere inside
/// itself, and the mark does not hold it.
pub open spec fn is_keyword(word: Seq<char>) -> bool {
    &&& word.len() > 0
    &&& forall|j: int| 0 <= j < word.len() ==> Run::Key.has(#[trigger] word[j])
    &&& forall|j: int|
        0 < j < word.len() && #[trigger] word[j] == word[0] ==> j + 1 < word.len() && word[j + 1]
            != word[1]
    &&& exists|j: int| 0 <= j < word.len() && !text::lower(mark()).contains(#[trigger] word[j])
}

/// Whether the key at `i` has no value, an empty one, or the mark in its place.
pub open spec fn hidden_at(s: Seq<char>, key_length: int, i: int) -> bool {
    value_start(s, key_length, i) matches Some(value) ==> value_end(s, key_length, i, value)
        == value || text::occurs_at(s, mark(), value)
}

/// Every key that begins before `limit` is hidden.
spec fn values_hidden(s: Seq<char>, word: Seq<char>, limit: int) -> bool {
    forall|i: int|
        0 <= i < limit && #[trigger] text::occurs_at(text::lower(s), word, i) ==> hidden_at(
            s,
            word.len() as int,
            i,
        )
}

/// Where the `:` or `=` of the key stands, if there is one.
spec fn sign_of(s: Seq<char>, key_length: int, i: int) -> int {
    run_end(s, run_end(s, i + key_length, Run::Key), Run::Space)
}

proof fn lemma_occurrence(s: Seq<char>, word: Seq<char>, i: int)
    requires
        is_keyword(word),
        text::occurs_at(text::lower(s), word, i),
    ensures
        0 <= i,
        i + word.len() <= s.len(),
        forall|j: int| i <= j < i + word.len() ==> Run::Key.has(#[trigger] s[j]),
        forall|j: int|
            0 <= j < word.len() ==> text::lowered(s[i + j]) == #[trigger] word[j],
{
    let low = text::lower(s);
    assert forall|j: int| 0 <= j < word.len() implies text::lowered(s[i + j])
        == #[trigger] word[j] by {
        assert(low.subrange(i, i + word.len())[j] == low[i + j]);
    }
    assert forall|j: int| i <= j < i + word.len() implies Run::Key.has(#[trigger] s[j]) by {
        assert(Run::Key.has(word[j - i]));
        assert(text::lowered(s[i + (j - i)]) == word[j - i]);
    }
}

proof fn lemma_same_run(s: Seq<char>, from: int, inside: int, run: Run)
    requires
        0 <= from <= inside <= run_end(s, from, run),
    ensures
        run_end(s, inside, run) == run_end(s, from, run),
    decreases inside - from,
{
    if from < inside {
        lemma_same_run(s, from + 1, inside, run);
    }
}

/// A run that ends in front of a place is the same in a text that agrees up to there.
proof fn lemma_run_kept(s: Seq<char>, t: Seq<char>, from: int, run: Run, limit: int)
    requires
        0 <= from <= s.len(),
        run_end(s, from, run) < limit <= s.len(),
        limit <= t.len(),
        forall|j: int| 0 <= j < limit ==> #[trigger] s[j] == t[j],
    ensures
        run_end(t, from, run) == run_end(s, from, run),
    decreases s.len() - from,
{
    lemma_run_end(s, from, run);
    assert(s[from] == t[from]);
    if run.has(s[from]) {
        lemma_run_kept(s, t, from + 1, run, limit);
    }
}

/// Two keys share their sign, or the sign of the first stands in front of the second.
proof fn lemma_signs(s: Seq<char>, word: Seq<char>, i: int, k: int)
    requires
        is_keyword(word),
        i <= k,
        text::occurs_at(text::lower(s), word, i),
        text::occurs_at(text::lower(s), word, k),
    ensures
        i + word.len() <= sign_of(s, word.len() as int, i) <= s.len(),
        sign_of(s, word.len() as int, i) == sign_of(s, word.len() as int, k) || sign_of(
            s,
            word.len() as int,
            i,
        ) <= k,
        k < i + word.len() ==> sign_of(s, word.len() as int, i) == sign_of(
            s,
            word.len() as int,
            k,
        ),
{
    let n = word.len() as int;
    lemma_occurrence(s, word, i);
    lemma_occurrence(s, word, k);
    let tail = run_end(s, i + n, Run::Key);
    lemma_run_end(s, i + n, Run::Key);
    lemma_run_end(s, tail, Run::Space);
    if k + n <= tail {
        lemma_same_run(s, i + n, k + n, Run::Key);
    } else {
        if k <= tail {
            assert(Run::Key.has(s[tail]));
        }
        let sign = run_end(s, tail, Run::Space);
        if sign > k {
            assert(Run::Space.has(s[k]));
            assert(Run::Key.has(s[k]));
        }
    }
}

/// A run ends at the first character that is not of its set.
proof fn lemma_run_is(s: Seq<char>, from: int, end: int, run: Run)
    requires
        0 <= from <= end < s.len(),
        forall|j: int| from <= j < end ==> run.has(#[trigger] s[j]),
        !run.has(s[end]),
    ensures
        run_end(s, from, run) == end,
    decreases end - from,
{
    if from < end {
        lemma_run_is(s, from + 1, end, run);
    }
}

/// No second key begins between the sign of a key and its value.
proof fn lemma_no_key_between(s: Seq<char>, word: Seq<char>, k: int, value: int, i: int)
    requires
        is_keyword(word),
        text::occurs_at(text::lower(s), word, k),
        text::occurs_at(text::lower(s), word, i),
        value_start(s, word.len() as int, k) == Some(value),
        k <= i < value,
    ensures
        sign_of(s, word.len() as int, i) == sign_of(s, word.len() as int, k),
{
    let n = word.len() as int;
    lemma_occurrence(s, word, i);
    lemma_signs(s, word, k, i);
    let sign = sign_of(s, n, k);
    if sign <= i {
        lemma_run_end(s, sign + 1, Run::Space);
        let open = run_end(s, sign + 1, Run::Space);
        assert(Run::Key.has(s[i]));
        if i < open && i > sign {
            assert(Run::Space.has(s[i]));
        }
    }
}

/// Putting the mark in the place of the value of a key leaves every key in front of the value
/// hidden.
#[verifier::spinoff_prover]
#[verifier::rlimit(40)]
proof fn lemma_still_hidden(s: Seq<char>, word: Seq<char>, k: int, value: int, end: int, i: int)
    requires
        is_keyword(word),
        text::occurs_at(text::lower(s), word, k),
        text::occurs_at(text::lower(s), word, i),
        value_start(s, word.len() as int, k) == Some(value),
        value <= end <= s.len(),
        i + word.len() <= value,
        i < k ==> hidden_at(s, word.len() as int, i),
    ensures
        hidden_at(marked(s, value, end), word.len() as int, i),
{
    reveal_strlit("[REDACTED]");
    let n = word.len() as int;
    let next = marked(s, value, end);
    lemma_occurrence(s, word, i);
    lemma_occurrence(s, word, k);
    lemma_value_bounds(s, n, k);
    assert forall|j: int| 0 <= j < value implies #[trigger] s[j] == next[j] by {}
    assert(next[value] == '[');
    if i < k {
        lemma_signs(s, word, i, k);
    } else {
        lemma_no_key_between(s, word, k, value, i);
        lemma_signs(s, word, k, k);
        lemma_signs(s, word, i, i);
    }
    let tail = run_end(s, i + n, Run::Key);
    lemma_run_end(s, i + n, Run::Key);
    lemma_run_end(s, tail, Run::Space);
    let sign = sign_of(s, n, i);
    let sign_k = sign_of(s, n, k);
    lemma_run_end(s, sign_k + 1, Run::Space);
    assert(sign < value);
    assert(tail <= sign);
    if sign < s.len() {
        lemma_run_kept(s, next, i + n, Run::Key, value);
        lemma_run_kept(s, next, tail, Run::Space, value);
    }
    assert(sign_of(next, n, i) == sign);
    if i > 0 && text::ascii_alphanumeric(s[i - 1]) {
        assert(next[i - 1] == s[i - 1]);
    } else if sign == sign_k {
        let open = run_end(s, sign + 1, Run::Space);
        if value == open {
            assert forall|j: int| sign + 1 <= j < open implies Run::Space.has(
                #[trigger] next[j],
            ) by {
                assert(Run::Space.has(s[j]));
            }
            lemma_run_is(next, sign + 1, open, Run::Space);
        } else {
            lemma_run_kept(s, next, sign + 1, Run::Space, value);
        }
        assert(value_start(next, n, i) == Some(value));
        assert(next.subrange(value, value + 10) =~= mark());
    } else if s[sign] == ':' || s[sign] == '=' {
        lemma_earlier_hidden(s, next, word, i, k, value);
    }
}

/// A key whose sign stands in front of another key reads the same where the text agrees up to
/// a place behind that.
#[verifier::spinoff_prover]
#[verifier::rlimit(40)]
proof fn lemma_earlier_hidden(
    s: Seq<char>,
    next: Seq<char>,
    word: Seq<char>,
    i: int,
    k: int,
    limit: int,
)
    requires
        is_keyword(word),
        text::occurs_at(text::lower(s), word, i),
        text::occurs_at(text::lower(s), word, k),
        k < limit <= s.len(),
        limit <= next.len(),
        forall|j: int| 0 <= j < limit ==> #[trigger] s[j] == next[j],
        i == 0 || !text::ascii_alphanumeric(s[i - 1]),
        i <= k,
        sign_of(next, word.len() as int, i) == sign_of(s, word.len() as int, i),
        0 <= sign_of(s, word.len() as int, i) <= k,
        s[sign_of(s, word.len() as int, i)] == ':' || s[sign_of(s, word.len() as int, i)] == '=',
        hidden_at(s, word.len() as int, i),
    ensures
        hidden_at(next, word.len() as int, i),
{
    reveal_strlit("[REDACTED]");
    let n = word.len() as int;
    lemma_occurrence(s, word, i);
    lemma_occurrence(s, word, k);
    let sign = sign_of(s, n, i);
    if i > 0 {
        assert(next[i - 1] == s[i - 1]);
    }
    assert(next[sign] == s[sign]);
    lemma_run_end(s, sign + 1, Run::Space);
    let open = run_end(s, sign + 1, Run::Space);
    assert(sign < k);
    assert(open <= k) by {
        if open > k {
            assert(Run::Space.has(s[k]));
        }
    }
    lemma_run_kept(s, next, sign + 1, Run::Space, limit);
    let quoted = s[open] == '"' || s[open] == '\'';
    let start = if quoted {
        open + 1
    } else {
        open
    };
    assert(Run::Key.has(s[k]));
    assert(start <= k);
    assert(value_start(s, n, i) == Some(start));
    assert(value_start(next, n, i) == Some(start));
    let run = if !quoted {
        Run::Plain
    } else if s[open] == '"' {
        Run::Double
    } else {
        Run::Single
    };
    assert(value_end(s, n, i, start) == run_end(s, start, run));
    assert(value_end(next, n, i, start) == run_end(next, start, run));
    lemma_run_end(s, start, run);
    if run_end(s, start, run) == start {
        assert(!run.has(s[start]));
        assert(next[start] == s[start]);
    } else {
        assert(text::occurs_at(s, mark(), start));
        lemma_key_not_in_mark(s, word, k, start);
        assert(next.subrange(start, start + 10) =~= s.subrange(start, start + 10));
    }
}

/// A key behind the beginning of a mark begins behind the mark.
proof fn lemma_key_not_in_mark(s: Seq<char>, word: Seq<char>, k: int, start: int)
    requires
        is_keyword(word),
        text::occurs_at(text::lower(s), word, k),
        text::occurs_at(s, mark(), start),
        start <= k || start < k + word.len(),
    ensures
        start + 10 <= k,
{
    reveal_strlit("[REDACTED]");
    lemma_occurrence(s, word, k);
    assert forall|j: int| 0 <= j < 10 implies s[start + j] == #[trigger] mark()[j] by {
        assert(s.subrange(start, start + 10)[j] == s[start + j]);
    }
    if k < start {
        assert(Run::Key.has(s[start]));
        assert(s[start + 0] == mark()[0]);
    } else if k < start + 10 {
        let j = choose|j: int| 0 <= j < word.len() && !text::lower(mark()).contains(
            #[trigger] word[j],
        );
        if k + j < start + 10 {
            let m = k + j - start;
            assert(s[start + m] == mark()[m]);
            assert(text::lower(mark())[m] == text::lowered(s[k + j]));
            assert(text::lower(mark()).contains(word[j]));
        } else {
            assert(Run::Key.has(s[start + 9]));
            assert(s[start + 9] == mark()[9]);
        }
    }
}

#[verifier::spinoff_prover]
#[verifier::rlimit(40)]
proof fn lemma_values_hidden(s: Seq<char>, word: Seq<char>, offset: int)
    requires
        is_keyword(word),
        0 <= offset <= s.len(),
        values_hidden(s, word, offset),
    ensures
        values_hidden(
            without_values(s, word, offset),
            word,
            without_values(s, word, offset).len() as int,
        ),
    decreases s.len() - offset,
{
    reveal_strlit("[REDACTED]");
    let n = word.len() as int;
    let low = text::lower(s);
    text::lemma_find(low, word, offset);
    match text::find_from(low, word, offset) {
        None => {},
        Some(k) => {
            lemma_occurrence(s, word, k);
            lemma_value_bounds(s, n, k);
            match value_start(s, n, k) {
                None => {
                    assert forall|i: int|
                        0 <= i < k + n && #[trigger] text::occurs_at(
                            low,
                            word,
                            i,
                        ) implies hidden_at(s, n, i) by {
                        if k < i {
                            lemma_occurrence(s, word, i);
                            lemma_signs(s, word, k, i);
                            if k > 0 && text::ascii_alphanumeric(s[k - 1]) {
                                let j = i - k;
                                assert(text::lowered(s[k + j]) == word[j]);
                                assert(text::lowered(s[i + 0]) == word[0]);
                                assert(text::lowered(s[k + (j + 1)]) == word[j + 1]);
                                assert(text::lowered(s[i + 1]) == word[1]);
                            }
                        }
                    }
                    lemma_values_hidden(s, word, k + n);
                },
                Some(value) => {
                    let end = value_end(s, n, k, value);
                    if end == value {
                        assert forall|i: int|
                            0 <= i < value && #[trigger] text::occurs_at(
                                low,
                                word,
                                i,
                            ) implies hidden_at(s, n, i) by {
                            if k < i {
                                lemma_no_key_between(s, word, k, value, i);
                            }
                        }
                        lemma_values_hidden(s, word, value);
                    } else {
                        let next = marked(s, value, end);
                        let limit = value + 10;
                        assert forall|i: int|
                            0 <= i < limit && #[trigger] text::occurs_at(
                                text::lower(next),
                                word,
                                i,
                            ) implies hidden_at(next, n, i) by {
                            lemma_occurrence(next, word, i);
                            assert(next.subrange(value, value + 10) =~= mark());
                            if i + n <= value {
                                assert(text::lower(s).subrange(i, i + n) =~= text::lower(
                                    next,
                                ).subrange(i, i + n));
                                assert(text::occurs_at(low, word, i));
                                lemma_still_hidden(s, word, k, value, end, i);
                            } else {
                                lemma_key_not_in_mark(next, word, i, value);
                            }
                        }
                        lemma_values_hidden(next, word, limit);
                    }
                },
            }
        },
    }
}

proof fn lemma_keywords_are_keys(k: int)
    requires
        0 <= k < 9,
    ensures
        is_keyword(keywords()[k]),
{
    reveal_strlit("authorization");
    reveal_strlit("command_output");
    reveal_strlit("cookie");
    reveal_strlit("oauth");
    reveal_strlit("password");
    reveal_strlit("payload");
    reveal_strlit("prompt");
    reveal_strlit("secret");
    reveal_strlit("token");
    reveal_strlit("[REDACTED]");
    let word = keywords()[k];
    let strange = |j: int| !text::lower(mark()).contains(word[j]);
    if k == 0 || k == 1 || k == 2 || k == 8 {
        assert(strange(1));
    } else {
        assert(strange(0));
    }
}

/// In a text from which the values of a keyword were taken, no key that is made of it has a value
/// but the mark: the value is empty, or the mark stands where it begins.
pub proof fn law_named_values_are_hidden(value: Seq<char>, keyword: int, i: int)
    requires
        0 <= keyword < 9,
        text::occurs_at(
            text::lower(without_values(value, keywords()[keyword], 0)),
            keywords()[keyword],
            i,
        ),
    ensures
        hidden_at(
            without_values(value, keywords()[keyword], 0),
            keywords()[keyword].len() as int,
            i,
        ),
{
    lemma_keywords_are_keys(keyword);
    lemma_values_hidden(value, keywords()[keyword], 0);
}

/// A value that the mark can hide: not empty, without the brackets of the mark, and no part of
/// the mark.
pub open spec fn hideable(value: Seq<char>) -> bool {
    &&& value.len() > 0
    &&& forall|k: int| 0 <= k < value.len() ==> #[trigger] value[k] != '[' && value[k] != ']'
    &&& !text::contains(mark(), value)
}

/// Two texts without the value hold it no more once the mark stands between them.
proof fn lemma_mark_between(a: Seq<char>, b: Seq<char>, value: Seq<char>)
    requires
        hideable(value),
        !text::contains(a, value),
        !text::contains(b, value),
    ensures
        !text::contains(a + mark() + b, value),
{
    reveal_strlit("[REDACTED]");
    let all = a + mark() + b;
    let n = value.len() as int;
    let m = a.len() as int;
    if text::contains(all, value) {
        let i = choose|i: int| #[trigger] text::occurs_at(all, value, i);
        assert(all.subrange(i, i + n) == value);
        if i + n <= m {
            assert(a.subrange(i, i + n) =~= value);
            assert(text::occurs_at(a, value, i));
        } else if i >= m + 10 {
            assert(b.subrange(i - m - 10, i - m - 10 + n) =~= value);
            assert(text::occurs_at(b, value, i - m - 10));
        } else if i <= m {
            assert(value[m - i] == all[m]);
            assert(all[m] == '[');
        } else if i + n > m + 9 {
            assert(value[m + 9 - i] == all[m + 9]);
            assert(all[m + 9] == ']');
        } else {
            assert(mark().subrange(i - m, i - m + n) =~= value);
            assert(text::occurs_at(mark(), value, i - m));
        }
    }
}

/// A part of a text holds no value that the text does not hold.
proof fn lemma_parts_hold_less(s: Seq<char>, from: int, to: int, value: Seq<char>)
    requires
        0 <= from <= to <= s.len(),
        !text::contains(s, value),
    ensures
        !text::contains(s.take(from), value),
        !text::contains(s.skip(to), value),
{
    let n = value.len() as int;
    if text::contains(s.take(from), value) {
        let i = choose|i: int| #[trigger] text::occurs_at(s.take(from), value, i);
        assert(s.subrange(i, i + n) =~= s.take(from).subrange(i, i + n));
        assert(text::occurs_at(s, value, i));
    }
    if text::contains(s.skip(to), value) {
        let i = choose|i: int| #[trigger] text::occurs_at(s.skip(to), value, i);
        assert(s.subrange(to + i, to + i + n) =~= s.skip(to).subrange(i, i + n));
        assert(text::occurs_at(s, value, to + i));
    }
}

proof fn lemma_marking_reveals_nothing(s: Seq<char>, start: int, end: int, value: Seq<char>)
    requires
        0 <= start <= end <= s.len(),
        hideable(value),
        !text::contains(s, value),
    ensures
        !text::contains(marked(s, start, end), value),
{
    lemma_parts_hold_less(s, start, end, value);
    lemma_mark_between(s.take(start), s.skip(end), value);
}

/// Replacing a value by the mark leaves none of it.
pub proof fn lemma_replaced_is_gone(s: Seq<char>, value: Seq<char>)
    requires
        hideable(value),
    ensures
        !text::contains(text::replaced(s, value, mark()), value),
    decreases s.len(),
{
    text::lemma_find(s, value, 0);
    match text::find_from(s, value, 0) {
        None => {
            if text::contains(s, value) {
                let i = choose|i: int| #[trigger] text::occurs_at(s, value, i);
                assert(false);
            }
        },
        Some(i) => {
            let n = value.len() as int;
            if text::contains(s.take(i), value) {
                let j = choose|j: int| #[trigger] text::occurs_at(s.take(i), value, j);
                assert(s.subrange(j, j + n) =~= s.take(i).subrange(j, j + n));
                assert(text::occurs_at(s, value, j));
            }
            lemma_replaced_is_gone(s.skip(i + n), value);
            lemma_mark_between(s.take(i), text::replaced(s.skip(i + n), value, mark()), value);
        },
    }
}

/// Replacing one value by the mark brings no other to light.
pub proof fn lemma_replacing_reveals_nothing(s: Seq<char>, other: Seq<char>, value: Seq<char>)
    requires
        hideable(value),
        !text::contains(s, value),
    ensures
        !text::contains(text::replaced(s, other, mark()), value),
    decreases s.len(),
{
    if other.len() > 0 {
        text::lemma_find(s, other, 0);
        match text::find_from(s, other, 0) {
            None => {},
            Some(i) => {
                let end = i + other.len() as int;
                lemma_parts_hold_less(s, i, end, value);
                lemma_replacing_reveals_nothing(s.skip(end), other, value);
                lemma_mark_between(
                    s.take(i),
                    text::replaced(s.skip(end), other, mark()),
                    value,
                );
            },
        }
    }
}

proof fn lemma_bearers_reveal_nothing(s: Seq<char>, offset: int, value: Seq<char>)
    requires
        hideable(value),
        !text::contains(s, value),
    ensures
        !text::contains(without_bearers(s, offset), value),
    decreases s.len() - offset,
{
    if 0 <= offset <= s.len() {
        text::lemma_find(text::lower(s), "bearer "@, offset);
        match text::find_from(text::lower(s), "bearer "@, offset) {
            None => {},
            Some(found) => {
                reveal_strlit("bearer ");
                reveal_strlit("[REDACTED]");
                let start = found + "bearer "@.len();
                let end = run_end(s, start, Run::Bearer);
                lemma_run_end(s, start, Run::Bearer);
                lemma_marking_reveals_nothing(s, start, end, value);
                lemma_bearers_reveal_nothing(
                    marked(s, start, end),
                    start + mark().len(),
                    value,
                );
            },
        }
    }
}

proof fn lemma_values_reveal_nothing(
    s: Seq<char>,
    keyword: Seq<char>,
    offset: int,
    value: Seq<char>,
)
    requires
        hideable(value),
        !text::contains(s, value),
    ensures
        !text::contains(without_values(s, keyword, offset), value),
    decreases s.len() - offset,
{
    if keyword.len() > 0 && 0 <= offset <= s.len() {
        text::lemma_find(text::lower(s), keyword, offset);
        match text::find_from(text::lower(s), keyword, offset) {
            None => {},
            Some(found) => {
                reveal_strlit("[REDACTED]");
                let n = keyword.len() as int;
                lemma_value_bounds(s, n, found);
                match value_start(s, n, found) {
                    None => {
                        lemma_values_reveal_nothing(s, keyword, found + n, value);
                    },
                    Some(start) => {
                        let end = value_end(s, n, found, start);
                        if end == start {
                            lemma_values_reveal_nothing(s, keyword, start, value);
                        } else {
                            lemma_marking_reveals_nothing(s, start, end, value);
                            lemma_values_reveal_nothing(
                                marked(s, start, end),
                                keyword,
                                start + mark().len(),
                                value,
                            );
                        }
                    },
                }
            },
        }
    }
}

proof fn lemma_keywords_reveal_nothing(s: Seq<char>, count: int, value: Seq<char>)
    requires
        hideable(value),
        !text::contains(s, value),
    ensures
        !text::contains(without_keywords(s, count), value),
    decreases count,
{
    if count > 0 {
        lemma_keywords_reveal_nothing(s, count - 1, value);
        lemma_values_reveal_nothing(
            without_keywords(s, count - 1),
            keywords()[count - 1],
            0,
            value,
        );
    }
}

/// Redaction puts nothing into a text but its mark: a value that a text does not hold is not in
/// what the log shows of it either.
pub proof fn law_redaction_reveals_nothing(s: Seq<char>, value: Seq<char>)
    requires
        hideable(value),
        !text::contains(s, value),
    ensures
        !text::contains(redacted(s), value),
{
    lemma_bearers_reveal_nothing(s, 0, value);
    lemma_keywords_reveal_nothing(without_bearers(s, 0), 9, value);
}

/// A text in which no key of the keyword has a value stays as it is.
proof fn lemma_no_values(s: Seq<char>, keyword: Seq<char>, offset: int)
    requires
        keyword.len() > 0,
        0 <= offset,
        forall|i: int|
            offset <= i && #[trigger] text::occurs_at(text::lower(s), keyword, i) ==> value_start(
                s,
                keyword.len() as int,
                i,
            ) is None,
    ensures
        without_values(s, keyword, offset) == s,
    decreases s.len() - offset,
{
    if offset <= s.len() {
        text::lemma_find(text::lower(s), keyword, offset);
        if let Some(found) = text::find_from(text::lower(s), keyword, offset) {
            assert(text::occurs_at(text::lower(s), keyword, found));
            lemma_no_values(s, keyword, found + keyword.len());
        }
    }
}

/// No keyword stands inside another one.
#[verifier::spinoff_prover]
#[verifier::rlimit(60)]
proof fn lemma_keywords_apart(inner: int, outer: int, i: int)
    requires
        0 <= inner < 9,
        0 <= outer < 9,
        text::occurs_at(keywords()[outer], keywords()[inner], i),
    ensures
        inner == outer,
{
    reveal_strlit("authorization");
    reveal_strlit("command_output");
    reveal_strlit("cookie");
    reveal_strlit("oauth");
    reveal_strlit("password");
    reveal_strlit("payload");
    reveal_strlit("prompt");
    reveal_strlit("secret");
    reveal_strlit("token");
    let s = keywords()[outer];
    let word = keywords()[inner];
    assert forall|j: int| 0 <= j < word.len() implies s[i + j] == #[trigger] word[j] by {
        assert(s.subrange(i, i + word.len())[j] == s[i + j]);
    }
    if inner == 0 {
        assert(s[i + 7] == word[7]);
    } else if inner == 1 {
        assert(s[i + 7] == word[7]);
    } else if inner == 2 {
        assert(s[i + 0] == word[0]);
        assert(s[i + 3] == word[3]);
    } else if inner == 3 {
        assert(s[i + 4] == word[4]);
    } else if inner == 4 {
        assert(s[i + 4] == word[4]);
    } else if inner == 5 {
        assert(s[i + 2] == word[2]);
    } else if inner == 6 {
        assert(s[i + 1] == word[1]);
        assert(s[i + 3] == word[3]);
    } else if inner == 7 {
        assert(s[i + 0] == word[0]);
        assert(s[i + 2] == word[2]);
    } else {
        assert(s[i + 0] == word[0]);
        assert(s[i + 2] == word[2]);
    }
}

/// A keyword in a line of a key, `=` and a rest stands at the front, as the key itself, or in
/// the rest.
proof fn lemma_keyword_in_line(
    key: Seq<char>,
    rest: Seq<char>,
    keyword: int,
    other: int,
    i: int,
)
    requires
        0 <= keyword < 9,
        0 <= other < 9,
        text::lower(key) == keywords()[keyword],
        text::occurs_at(text::lower(key + seq!['='] + rest), keywords()[other], i),
    ensures
        i > key.len() || (i == 0 && other == keyword),
{
    let line = key + seq!['='] + rest;
    let word = keywords()[other];
    let n = word.len() as int;
    lemma_keywords_are_keys(other);
    lemma_occurrence(line, word, i);
    if i <= key.len() {
        if key.len() < i + n {
            assert(Run::Key.has(line[key.len() as int]));
        }
        assert(text::lower(key).subrange(i, i + n) =~= text::lower(line).subrange(i, i + n));
        lemma_keywords_apart(other, keyword, i);
    }
}

/// The values of a keyword in a line of a key, `=` and a value of letters and digits.
proof fn lemma_line_step(key: Seq<char>, value: Seq<char>, keyword: int, other: int)
    requires
        0 <= keyword < 9,
        0 <= other < 9,
        text::lower(key) == keywords()[keyword],
        value.len() > 0,
        forall|j: int| 0 <= j < value.len() ==> text::ascii_alphanumeric(#[trigger] value[j]),
    ensures
        other != keyword ==> without_values(key + seq!['='] + value, keywords()[other], 0) == key
            + seq!['='] + value,
        other == keyword ==> without_values(key + seq!['='] + value, keywords()[other], 0) == key
            + seq!['='] + mark(),
        other != keyword ==> without_values(key + seq!['='] + mark(), keywords()[other], 0) == key
            + seq!['='] + mark(),
{
    reveal_strlit("[REDACTED]");
    let line = key + seq!['='] + value;
    let shown = key + seq!['='] + mark();
    let word = keywords()[other];
    let n = key.len() as int;
    lemma_keywords_are_keys(other);
    assert(text::lower(key).len() == n);
    if other != keyword {
        assert forall|i: int|
            0 <= i && #[trigger] text::occurs_at(text::lower(line), word, i) implies value_start(
            line,
            word.len() as int,
            i,
        ) is None by {
            lemma_keyword_in_line(key, value, keyword, other, i);
            lemma_run_end(line, i + word.len(), Run::Key);
            let tail = run_end(line, i + word.len(), Run::Key);
            if tail < line.len() {
                assert(line[tail] == value[tail - n - 1]);
            }
        }
        lemma_no_values(line, word, 0);
        assert(shown.subrange(n + 1, n + 11) =~= mark());
        assert forall|i: int|
            0 <= i && #[trigger] text::occurs_at(text::lower(shown), word, i) implies value_start(
            shown,
            word.len() as int,
            i,
        ) is None by {
            lemma_keyword_in_line(key, mark(), keyword, other, i);
            lemma_key_not_in_mark(shown, word, i, n + 1);
        }
        lemma_no_values(shown, word, 0);
    } else {
        assert(text::lower(line).subrange(0, n) =~= text::lower(key));
        assert(text::occurs_at(text::lower(line), word, 0));
        text::lemma_find(text::lower(line), word, 0);
        let found = text::find_from(text::lower(line), word, 0);
        assert(found == Some(0int));
        assert(line[n] == '=');
        assert(line[n + 1] == value[0]);
        assert(value_start(line, n, 0) == Some(n + 1));
        lemma_run_end(line, n + 1, Run::Plain);
        let end = run_end(line, n + 1, Run::Plain);
        if end < line.len() {
            assert(line[end] == value[end - n - 1]);
        }
        assert(marked(line, n + 1, line.len() as int) =~= shown);
        lemma_no_values(shown, word, n + 11);
    }
}

proof fn lemma_line_keywords(key: Seq<char>, value: Seq<char>, keyword: int, count: int)
    requires
        0 <= keyword < 9,
        0 <= count <= 9,
        text::lower(key) == keywords()[keyword],
        value.len() > 0,
        forall|j: int| 0 <= j < value.len() ==> text::ascii_alphanumeric(#[trigger] value[j]),
    ensures
        without_keywords(key + seq!['='] + value, count) == (if count <= keyword {
            key + seq!['='] + value
        } else {
            key + seq!['='] + mark()
        }),
    decreases count,
{
    if count > 0 {
        lemma_line_keywords(key, value, keyword, count - 1);
        lemma_line_step(key, value, keyword, count - 1);
    }
}

proof fn lemma_line_without_bearer(key: Seq<char>, value: Seq<char>, keyword: int)
    requires
        0 <= keyword < 9,
        text::lower(key) == keywords()[keyword],
        forall|j: int| 0 <= j < value.len() ==> text::ascii_alphanumeric(#[trigger] value[j]),
    ensures
        without_bearers(key + seq!['='] + value, 0) == key + seq!['='] + value,
{
    reveal_strlit("bearer ");
    let line = key + seq!['='] + value;
    let low = text::lower(line);
    let word = "bearer "@;
    lemma_keywords_are_keys(keyword);
    text::lemma_find(low, word, 0);
    if let Some(found) = text::find_from(low, word, 0) {
        let at = found + 6;
        assert(low.subrange(found, found + 7)[6] == low[at]);
        if at < key.len() {
            assert(text::lower(key)[at] == low[at]);
            assert(Run::Key.has(keywords()[keyword][at]));
        } else if at > key.len() {
            assert(text::ascii_alphanumeric(value[at - key.len() - 1]));
        }
    }
}

/// Of a key, `=` and a value the log shows the key and the mark, in whatever case the key is
/// written: two values of the same key cannot be told apart.
pub proof fn law_values_look_alike(
    key: Seq<char>,
    keyword: int,
    value: Seq<char>,
    other: Seq<char>,
)
    requires
        0 <= keyword < 9,
        text::lower(key) == keywords()[keyword],
        value.len() > 0,
        forall|j: int| 0 <= j < value.len() ==> text::ascii_alphanumeric(#[trigger] value[j]),
        other.len() > 0,
        forall|j: int| 0 <= j < other.len() ==> text::ascii_alphanumeric(#[trigger] other[j]),
    ensures
        redacted(key + seq!['='] + value) == key + seq!['='] + mark(),
        redacted(key + seq!['='] + value) == redacted(key + seq!['='] + other),
{
    lemma_line_without_bearer(key, value, keyword);
    lemma_line_keywords(key, value, keyword, 9);
    lemma_line_without_bearer(key, other, keyword);
    lemma_line_keywords(key, other, keyword, 9);
}

/// Of each of these words, in capitals or not, followed by `=` and a value, the log shows the word
/// and the mark.
pub proof fn law_secret_words(key: Seq<char>, value: Seq<char>)
    requires
        text::lower(key) == "authorization"@ || text::lower(key) == "command_output"@
            || text::lower(key) == "cookie"@ || text::lower(key) == "oauth"@ || text::lower(key)
            == "password"@ || text::lower(key) == "payload"@ || text::lower(key) == "prompt"@
            || text::lower(key) == "secret"@ || text::lower(key) == "token"@,
        value.len() > 0,
        forall|j: int|
            0 <= j < value.len() ==> ('a' <= #[trigger] value[j] <= 'z' || 'A' <= value[j] <= 'Z'
                || '0' <= value[j] <= '9'),
    ensures
        redacted(key + seq!['='] + value) == key + seq!['='] + "[REDACTED]"@,
{
    let words = keywords();
    assert(words[0] == "authorization"@ && words[1] == "command_output"@ && words[2] == "cookie"@
        && words[3] == "oauth"@ && words[4] == "password"@ && words[5] == "payload"@ && words[6]
        == "prompt"@ && words[7] == "secret"@ && words[8] == "token"@);
    let keyword = choose|k: int| 0 <= k < 9 && text::lower(key) == #[trigger] words[k];
    law_values_look_alike(key, keyword, value, value);
}

/// A level is found by its name in any case, and there are no others.
pub proof fn law_levels_are_named(value: Seq<char>)
    ensures
        level_named(value) == Some(LogLevel::Off) <==> text::lower(value) == "off"@,
        level_named(value) == Some(LogLevel::Error) <==> text::lower(value) == "error"@,
        level_named(value) == Some(LogLevel::Warn) <==> text::lower(value) == "warn"@,
        level_named(value) == Some(LogLevel::Info) <==> text::lower(value) == "info"@,
        level_named(value) == Some(LogLevel::Debug) <==> text::lower(value) == "debug"@,
        level_named(value) == Some(LogLevel::Trace) <==> text::lower(value) == "trace"@,
{
    reveal_strlit("off");
    reveal_strlit("error");
    reveal_strlit("warn");
    reveal_strlit("info");
    reveal_strlit("debug");
    reveal_strlit("trace");
    assert("off"@[0] == 'o' && "error"@[0] == 'e' && "warn"@[0] == 'w' && "info"@[0] == 'i'
        && "debug"@[0] == 'd' && "trace"@[0] == 't');
}

} // verus!
