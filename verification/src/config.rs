//! The configuration of the intake queue: its shape, its rules, and where its files live.
use vstd::prelude::*;

use crate::errors::stated;
use crate::paths;
use crate::text;

verus! {

/// The largest integer that every reader of the configuration represents exactly.
pub const MAX_SAFE_INTEGER: u64 = 9007199254740991;

/// Why a configuration could not be read, checked or written.
#[derive(Debug)]
pub enum ConfigError {
    Read { path: String, source: String },
    Yaml { path: String, message: String },
    Validation { path: String, message: String },
    Initialize(String),
    Emit(String),
    MissingHome,
    MissingExecutableDirectory,
}

impl ConfigError {
    /// The text shown for the error.
    pub open spec fn text(self) -> Seq<char> {
        match self {
            ConfigError::Read { path, source } => "Cannot read configuration at "@ + path@ + ": "@
                + source@,
            ConfigError::Yaml { path, message } => "Invalid YAML in "@ + path@ + ": "@ + message@,
            ConfigError::Validation { path, message } => "Invalid configuration at "@ + path@
                + ": "@ + message@,
            ConfigError::Initialize(source) => "Cannot initialize private configuration: "@
                + source@,
            ConfigError::Emit(message) => "Cannot emit YAML: "@ + message@,
            ConfigError::MissingHome => "HOME is not set"@,
            ConfigError::MissingExecutableDirectory => "Cannot locate the intake executable"@,
        }
    }

    /// The text shown for the error.
    pub fn message(&self) -> (out: String)
        ensures
            out@ == self.text(),
    {
        match self {
            ConfigError::Read { path, source } => {
                let mut out = "Cannot read configuration at ".to_owned();
                out.append(path.as_str());
                out.append(": ");
                out.append(source.as_str());
                out
            },
            ConfigError::Yaml { path, message } => {
                let mut out = "Invalid YAML in ".to_owned();
                out.append(path.as_str());
                out.append(": ");
                out.append(message.as_str());
                out
            },
            ConfigError::Validation { path, message } => {
                let mut out = "Invalid configuration at ".to_owned();
                out.append(path.as_str());
                out.append(": ");
                out.append(message.as_str());
                out
            },
            ConfigError::Initialize(source) => {
                let mut out = "Cannot initialize private configuration: ".to_owned();
                out.append(source.as_str());
                out
            },
            ConfigError::Emit(message) => {
                let mut out = "Cannot emit YAML: ".to_owned();
                out.append(message.as_str());
                out
            },
            ConfigError::MissingHome => "HOME is not set".to_owned(),
            ConfigError::MissingExecutableDirectory => {
                "Cannot locate the intake executable".to_owned()
            },
        }
    }
}

#[derive(Clone, Debug)]
pub struct IntakeConfig {
    pub version: u8,
    pub project_roots: Vec<String>,
    pub state: StateConfig,
    pub skills: SkillsConfig,
    pub sources: Vec<SourceConfig>,
    pub triage: TriageConfig,
    pub commands: CommandsConfig,
}

#[derive(Clone, Debug)]
pub struct StateConfig {
    pub database: String,
    pub logs: String,
}

impl Default for StateConfig {
    fn default() -> (state: Self)
        ensures
            state.database@ == "~/.local/state/intake/intake.sqlite"@,
            state.logs@ == "~/.local/state/intake/logs"@,
    {
        StateConfig {
            database: "~/.local/state/intake/intake.sqlite".to_owned(),
            logs: "~/.local/state/intake/logs".to_owned(),
        }
    }
}

#[derive(Clone, Debug)]
pub struct SkillsConfig {
    pub directories: Vec<String>,
    pub approved_roots: Vec<String>,
}

/// One option of a source: its key, and its value as JSON text.
#[derive(Clone, Debug)]
pub struct SourceOption {
    pub key: String,
    pub value: String,
}

#[derive(Clone, Debug)]
pub struct SourceConfig {
    pub name: String,
    pub command: String,
    pub args: Vec<String>,
    pub interval_seconds: u64,
    pub timeout_seconds: u64,
    pub item_limit: usize,
    pub environment: Vec<String>,
    pub options: Vec<SourceOption>,
}

/// How much reasoning the model is asked for.
#[derive(Clone, Copy, Debug, PartialEq, Eq, Structural)]
pub enum ThinkingLevel {
    Off,
    Minimal,
    Low,
    Medium,
    High,
    Xhigh,
    Max,
}

impl Default for ThinkingLevel {
    fn default() -> (level: Self)
        ensures
            level == ThinkingLevel::Max,
    {
        ThinkingLevel::Max
    }
}

#[derive(Clone, Debug)]
pub struct TriageConfig {
    pub model: String,
    pub thinking_level: ThinkingLevel,
    pub max_turns: usize,
    pub timeout_minutes: u64,
    pub max_attempts: usize,
    pub retry_base_seconds: u64,
    pub compaction_trigger_tokens: u64,
    pub compaction_keep_recent_messages: usize,
}

impl TriageConfig {
    /// The triage settings of a configuration that states none.
    pub open spec fn is_default(self) -> bool {
        &&& self.model@ == "gpt-5.6-luna"@
        &&& self.thinking_level == ThinkingLevel::Max
        &&& self.max_turns == 50
        &&& self.timeout_minutes == 30
        &&& self.max_attempts == 3
        &&& self.retry_base_seconds == 60
        &&& self.compaction_trigger_tokens == 100_000
        &&& self.compaction_keep_recent_messages == 12
    }
}

impl Default for TriageConfig {
    fn default() -> (triage: Self)
        ensures
            triage.is_default(),
    {
        TriageConfig {
            model: "gpt-5.6-luna".to_owned(),
            thinking_level: ThinkingLevel::Max,
            max_turns: 50,
            timeout_minutes: 30,
            max_attempts: 3,
            retry_base_seconds: 60,
            compaction_trigger_tokens: 100_000,
            compaction_keep_recent_messages: 12,
        }
    }
}

#[derive(Clone, Debug)]
pub struct CommandsConfig {
    pub path: Vec<String>,
    pub timeout_seconds: u64,
    pub max_output_bytes: usize,
    pub sensitive_patterns: Vec<String>,
    pub rules: Vec<CommandRule>,
}

#[derive(Clone, Debug)]
pub struct CommandRule {
    pub executable: String,
}

/// What `initialize_private_config` leaves behind.
#[derive(Clone, Debug)]
pub struct InitializeResult {
    pub config_path: String,
    pub created: Vec<String>,
}

/// The executables that the rules name.
pub open spec fn executables(rules: Seq<CommandRule>) -> Seq<Seq<char>> {
    rules.map_values(|rule: CommandRule| rule.executable@)
}

// ---------------------------------------------------------------------------------------------
// Validation
// ---------------------------------------------------------------------------------------------

/// `^[a-z0-9][a-z0-9-]*$`
pub open spec fn source_name_ok(value: Seq<char>) -> bool {
    &&& value.len() > 0
    &&& value[0] != '-'
    &&& forall|i: int|
        0 <= i < value.len() ==> text::ascii_lower(#[trigger] value[i]) || text::ascii_digit(
            value[i],
        ) || value[i] == '-'
}

/// `^[A-Z][A-Z0-9_]*$`
pub open spec fn environment_name_ok(value: Seq<char>) -> bool {
    &&& value.len() > 0
    &&& text::ascii_upper(value[0])
    &&& forall|i: int|
        0 <= i < value.len() ==> text::ascii_upper(#[trigger] value[i]) || text::ascii_digit(
            value[i],
        ) || value[i] == '_'
}

/// `^[a-z][a-z0-9]*$`
pub open spec fn key_segment_ok(value: Seq<char>) -> bool {
    &&& value.len() > 0
    &&& text::ascii_lower(value[0])
    &&& forall|i: int|
        0 <= i < value.len() ==> text::ascii_lower(#[trigger] value[i]) || text::ascii_digit(
            value[i],
        )
}

/// Segments of lower-case letters and digits that begin with a letter, with `_` between them.
pub open spec fn configuration_key_ok(value: Seq<char>) -> bool {
    forall|k: int|
        0 <= k < text::split_on(value, '_').len() ==> key_segment_ok(
            #[trigger] text::split_on(value, '_')[k],
        )
}

/// `^[A-Za-z0-9._+-]+$`
pub open spec fn executable_name_ok(value: Seq<char>) -> bool {
    &&& value.len() > 0
    &&& forall|i: int|
        0 <= i < value.len() ==> text::ascii_alphanumeric(#[trigger] value[i]) || value[i] == '.'
            || value[i] == '_' || value[i] == '+' || value[i] == '-'
}

pub fn valid_source_name(value: &str) -> (b: bool)
    ensures
        b == source_name_ok(value@),
{
    let chars = text::chars_of(value);
    if chars.len() == 0 {
        return false;
    }
    let mut i: usize = 0;
    while i < chars.len()
        invariant
            i <= chars@.len(),
            chars@ == value@,
            forall|k: int|
                0 <= k < i ==> text::ascii_lower(#[trigger] value@[k]) || text::ascii_digit(
                    value@[k],
                ) || value@[k] == '-',
        decreases chars@.len() - i,
    {
        let c = chars[i];
        if !(text::is_ascii_lower(c) || text::is_ascii_digit(c) || c == '-') {
            return false;
        }
        i += 1;
    }
    text::is_ascii_alphanumeric(chars[0])
}

pub fn valid_environment_name(value: &str) -> (b: bool)
    ensures
        b == environment_name_ok(value@),
{
    let chars = text::chars_of(value);
    if chars.len() == 0 || !text::is_ascii_upper(chars[0]) {
        return false;
    }
    let mut i: usize = 0;
    while i < chars.len()
        invariant
            i <= chars@.len(),
            chars@ == value@,
            forall|k: int|
                0 <= k < i ==> text::ascii_upper(#[trigger] value@[k]) || text::ascii_digit(
                    value@[k],
                ) || value@[k] == '_',
        decreases chars@.len() - i,
    {
        let c = chars[i];
        if !(text::is_ascii_upper(c) || text::is_ascii_digit(c) || c == '_') {
            return false;
        }
        i += 1;
    }
    true
}

fn valid_key_segment(chars: &Vec<char>) -> (b: bool)
    ensures
        b == key_segment_ok(chars@),
{
    if chars.len() == 0 || !text::is_ascii_lower(chars[0]) {
        return false;
    }
    let mut i: usize = 0;
    while i < chars.len()
        invariant
            i <= chars@.len(),
            forall|k: int|
                0 <= k < i ==> text::ascii_lower(#[trigger] chars@[k]) || text::ascii_digit(
                    chars@[k],
                ),
        decreases chars@.len() - i,
    {
        if !(text::is_ascii_lower(chars[i]) || text::is_ascii_digit(chars[i])) {
            return false;
        }
        i += 1;
    }
    true
}

pub fn valid_configuration_key(value: &str) -> (b: bool)
    ensures
        b == configuration_key_ok(value@),
{
    let segments = text::split_chars(&text::chars_of(value), '_');
    let ghost all = text::split_on(value@, '_');
    let mut i: usize = 0;
    while i < segments.len()
        invariant
            i <= segments@.len() == all.len(),
            all == text::split_on(value@, '_'),
            forall|k: int| 0 <= k < segments@.len() ==> (#[trigger] segments@[k])@ == all[k],
            forall|k: int| 0 <= k < i ==> key_segment_ok(#[trigger] all[k]),
        decreases segments@.len() - i,
    {
        if !valid_key_segment(&segments[i]) {
            assert(!key_segment_ok(all[i as int]));
            return false;
        }
        i += 1;
    }
    true
}

pub fn valid_executable_name(value: &str) -> (b: bool)
    ensures
        b == executable_name_ok(value@),
{
    let chars = text::chars_of(value);
    let mut i: usize = 0;
    while i < chars.len()
        invariant
            i <= chars@.len(),
            chars@ == value@,
            forall|k: int|
                0 <= k < i ==> text::ascii_alphanumeric(#[trigger] value@[k]) || value@[k] == '.'
                    || value@[k] == '_' || value@[k] == '+' || value@[k] == '-',
        decreases chars@.len() - i,
    {
        let c = chars[i];
        if !(text::is_ascii_alphanumeric(c) || c == '.' || c == '_' || c == '+' || c == '-') {
            return false;
        }
        i += 1;
    }
    chars.len() > 0
}

/// What is wrong with a list that must hold something.
pub open spec fn empty_problem(name: Seq<char>, length: nat) -> Option<Seq<char>> {
    if length == 0 {
        Some(name + ": must contain at least one item"@)
    } else {
        None
    }
}

/// What is wrong with a number that must lie in a range.
pub open spec fn range_problem(
    name: Seq<char>,
    value: nat,
    minimum: nat,
    maximum: nat,
) -> Option<Seq<char>> {
    if minimum <= value <= maximum {
        None
    } else {
        Some(
            name + ": must be between "@ + text::decimal(minimum) + " and "@ + text::decimal(
                maximum,
            ),
        )
    }
}

/// The first of two problems.
pub open spec fn either(first: Option<Seq<char>>, second: Option<Seq<char>>) -> Option<Seq<char>> {
    if first is Some {
        first
    } else {
        second
    }
}

pub fn require_nonempty<T>(name: &str, values: &[T]) -> (result: Result<(), String>)
    ensures
        stated(result) == empty_problem(name@, values@.len()),
{
    if values.len() == 0 {
        let mut out = name.to_owned();
        out.append(": must contain at least one item");
        Err(out)
    } else {
        Ok(())
    }
}

pub fn check_range(name: &str, value: u64, minimum: u64, maximum: u64) -> (result: Result<
    (),
    String,
>)
    ensures
        stated(result) == range_problem(name@, value as nat, minimum as nat, maximum as nat),
{
    if minimum <= value && value <= maximum {
        Ok(())
    } else {
        let mut out = name.to_owned();
        out.append(": must be between ");
        out.append(text::decimal_of(minimum as u128).as_str());
        out.append(" and ");
        out.append(text::decimal_of(maximum as u128).as_str());
        Err(out)
    }
}

/// The path of a field of the source at this place of the list.
pub open spec fn source_field(index: nat, field: Seq<char>) -> Seq<char> {
    "sources."@ + text::decimal(index) + field
}

fn source_field_text(index: usize, field: &str) -> (out: String)
    ensures
        out@ == source_field(index as nat, field@),
{
    let mut out = "sources.".to_owned();
    out.append(text::decimal_of(index as u128).as_str());
    out.append(field);
    out
}

/// The first problem of the environment names from `from` on.
pub open spec fn environment_problem(
    index: nat,
    environment: Seq<Seq<char>>,
    from: int,
) -> Option<Seq<char>>
    decreases environment.len() - from,
{
    if from < 0 || from >= environment.len() {
        None
    } else if !environment_name_ok(environment[from]) {
        Some(
            source_field(index, ".environment."@) + text::decimal(from as nat)
                + ": invalid environment name"@,
        )
    } else {
        environment_problem(index, environment, from + 1)
    }
}

/// The keys of the options.
pub open spec fn option_keys(options: Seq<SourceOption>) -> Seq<Seq<char>> {
    options.map_values(|option: SourceOption| option.key@)
}

/// The first problem of the option keys from `from` on.
pub open spec fn options_problem(
    index: nat,
    keys: Seq<Seq<char>>,
    from: int,
) -> Option<Seq<char>>
    decreases keys.len() - from,
{
    if from < 0 || from >= keys.len() {
        None
    } else if !configuration_key_ok(keys[from]) {
        Some(source_field(index, ".options."@) + keys[from] + ": invalid option key"@)
    } else {
        options_problem(index, keys, from + 1)
    }
}

/// The names of the sources.
pub open spec fn source_names(sources: Seq<SourceConfig>) -> Seq<Seq<char>> {
    sources.map_values(|source: SourceConfig| source.name@)
}

/// What is wrong with the source at this place of the list.
pub open spec fn source_problem(sources: Seq<SourceConfig>, index: int) -> Option<Seq<char>> {
    let source = sources[index];
    if !source_name_ok(source.name@) {
        Some(source_field(index as nat, ".name: must match ^[a-z0-9][a-z0-9-]*$"@))
    } else if source_names(sources).take(index).contains(source.name@) {
        Some("duplicate source name: "@ + source.name@)
    } else if source.command@.len() == 0 {
        Some(source_field(index as nat, ".command: must not be empty"@))
    } else {
        either(
            range_problem(
                source_field(index as nat, ".interval_seconds"@),
                source.interval_seconds as nat,
                10,
                MAX_SAFE_INTEGER as nat,
            ),
            either(
                range_problem(
                    source_field(index as nat, ".timeout_seconds"@),
                    source.timeout_seconds as nat,
                    1,
                    300,
                ),
                either(
                    range_problem(
                        source_field(index as nat, ".item_limit"@),
                        source.item_limit as nat,
                        1,
                        1000,
                    ),
                    either(
                        environment_problem(
                            index as nat,
                            text::texts(source.environment@),
                            0,
                        ),
                        options_problem(index as nat, option_keys(source.options@), 0),
                    ),
                ),
            ),
        )
    }
}

/// The first problem of the sources from `from` on.
pub open spec fn sources_problem(sources: Seq<SourceConfig>, from: int) -> Option<Seq<char>>
    decreases sources.len() - from,
{
    if from < 0 || from >= sources.len() {
        None
    } else {
        either(source_problem(sources, from), sources_problem(sources, from + 1))
    }
}

/// What is wrong with the triage settings.
pub open spec fn triage_problem(triage: TriageConfig) -> Option<Seq<char>> {
    if triage.model@.len() == 0 {
        Some("triage.model: must not be empty"@)
    } else {
        either(
            range_problem("triage.max_turns"@, triage.max_turns as nat, 1, 50),
            either(
                range_problem("triage.timeout_minutes"@, triage.timeout_minutes as nat, 1, 30),
                either(
                    range_problem("triage.max_attempts"@, triage.max_attempts as nat, 1, 3),
                    either(
                        range_problem(
                            "triage.retry_base_seconds"@,
                            triage.retry_base_seconds as nat,
                            1,
                            3600,
                        ),
                        either(
                            range_problem(
                                "triage.compaction_trigger_tokens"@,
                                triage.compaction_trigger_tokens as nat,
                                1,
                                MAX_SAFE_INTEGER as nat,
                            ),
                            range_problem(
                                "triage.compaction_keep_recent_messages"@,
                                triage.compaction_keep_recent_messages as nat,
                                1,
                                MAX_SAFE_INTEGER as nat,
                            ),
                        ),
                    ),
                ),
            ),
        )
    }
}

/// What is wrong with the command rule at this place of the list.
pub open spec fn rule_problem(rules: Seq<CommandRule>, index: int) -> Option<Seq<char>> {
    let executable = rules[index].executable@;
    if !executable_name_ok(executable) {
        Some(
            "commands.rules."@ + text::decimal(index as nat)
                + ".executable: invalid executable name"@,
        )
    } else if executables(rules).take(index).contains(executable) {
        Some("duplicate command rule: "@ + executable)
    } else {
        None
    }
}

/// The first problem of the command rules from `from` on.
pub open spec fn rules_problem(rules: Seq<CommandRule>, from: int) -> Option<Seq<char>>
    decreases rules.len() - from,
{
    if from < 0 || from >= rules.len() {
        None
    } else {
        either(rule_problem(rules, from), rules_problem(rules, from + 1))
    }
}

/// What is wrong with the lists that must hold something.
pub open spec fn lists_problem(config: IntakeConfig) -> Option<Seq<char>> {
    either(
        empty_problem("project_roots"@, config.project_roots@.len()),
        either(
            empty_problem("skills.directories"@, config.skills.directories@.len()),
            either(
                empty_problem("skills.approved_roots"@, config.skills.approved_roots@.len()),
                either(
                    empty_problem("commands.path"@, config.commands.path@.len()),
                    empty_problem("commands.rules"@, config.commands.rules@.len()),
                ),
            ),
        ),
    )
}

/// The first problem of a configuration; none where it may be used.
pub open spec fn config_problem(config: IntakeConfig) -> Option<Seq<char>> {
    if config.version != 1 {
        Some("version: expected 1"@)
    } else {
        either(
            lists_problem(config),
            either(
                sources_problem(config.sources@, 0),
                either(
                    triage_problem(config.triage),
                    either(
                        range_problem(
                            "commands.timeout_seconds"@,
                            config.commands.timeout_seconds as nat,
                            1,
                            300,
                        ),
                        either(
                            range_problem(
                                "commands.max_output_bytes"@,
                                config.commands.max_output_bytes as nat,
                                1024,
                                1_000_000,
                            ),
                            rules_problem(config.commands.rules@, 0),
                        ),
                    ),
                ),
            ),
        )
    }
}

fn validate_environment(index: usize, environment: &Vec<String>) -> (result: Result<(), String>)
    ensures
        stated(result) == environment_problem(index as nat, text::texts(environment@), 0),
{
    let ghost all = text::texts(environment@);
    let mut i: usize = 0;
    while i < environment.len()
        invariant
            i <= environment@.len(),
            all == text::texts(environment@),
            environment_problem(index as nat, all, 0) == environment_problem(
                index as nat,
                all,
                i as int,
            ),
        decreases environment@.len() - i,
    {
        assert(all[i as int] == environment@[i as int]@);
        if !valid_environment_name(environment[i].as_str()) {
            let mut out = source_field_text(index, ".environment.");
            out.append(text::decimal_of(i as u128).as_str());
            out.append(": invalid environment name");
            return Err(out);
        }
        i += 1;
    }
    Ok(())
}

fn validate_options(index: usize, options: &Vec<SourceOption>) -> (result: Result<(), String>)
    ensures
        stated(result) == options_problem(index as nat, option_keys(options@), 0),
{
    let ghost keys = option_keys(options@);
    let mut i: usize = 0;
    while i < options.len()
        invariant
            i <= options@.len(),
            keys == option_keys(options@),
            options_problem(index as nat, keys, 0) == options_problem(
                index as nat,
                keys,
                i as int,
            ),
        decreases options@.len() - i,
    {
        assert(keys[i as int] == options@[i as int].key@);
        if !valid_configuration_key(options[i].key.as_str()) {
            let mut out = source_field_text(index, ".options.");
            out.append(options[i].key.as_str());
            out.append(": invalid option key");
            return Err(out);
        }
        i += 1;
    }
    Ok(())
}

fn named_before(sources: &Vec<SourceConfig>, index: usize) -> (found: bool)
    requires
        index < sources@.len(),
    ensures
        found == source_names(sources@).take(index as int).contains(sources@[index as int].name@),
{
    let ghost before = source_names(sources@).take(index as int);
    let mut i: usize = 0;
    while i < index
        invariant
            i <= index < sources@.len(),
            before == source_names(sources@).take(index as int),
            forall|k: int| 0 <= k < i ==> before[k] != sources@[index as int].name@,
        decreases index - i,
    {
        assert(before[i as int] == sources@[i as int].name@);
        if text::same(sources[i].name.as_str(), sources[index].name.as_str()) {
            return true;
        }
        i += 1;
    }
    false
}

fn validate_source(sources: &Vec<SourceConfig>, index: usize) -> (result: Result<(), String>)
    requires
        index < sources@.len(),
    ensures
        stated(result) == source_problem(sources@, index as int),
{
    let source = &sources[index];
    if !valid_source_name(source.name.as_str()) {
        return Err(source_field_text(index, ".name: must match ^[a-z0-9][a-z0-9-]*$"));
    }
    if named_before(sources, index) {
        let mut out = "duplicate source name: ".to_owned();
        out.append(source.name.as_str());
        return Err(out);
    }
    if source.command.as_str().is_empty() {
        return Err(source_field_text(index, ".command: must not be empty"));
    }
    if let Err(message) = check_range(
        source_field_text(index, ".interval_seconds").as_str(),
        source.interval_seconds,
        10,
        MAX_SAFE_INTEGER,
    ) {
        return Err(message);
    }
    if let Err(message) = check_range(
        source_field_text(index, ".timeout_seconds").as_str(),
        source.timeout_seconds,
        1,
        300,
    ) {
        return Err(message);
    }
    if let Err(message) = check_range(
        source_field_text(index, ".item_limit").as_str(),
        source.item_limit as u64,
        1,
        1000,
    ) {
        return Err(message);
    }
    if let Err(message) = validate_environment(index, &source.environment) {
        return Err(message);
    }
    validate_options(index, &source.options)
}

fn validate_triage(triage: &TriageConfig) -> (result: Result<(), String>)
    ensures
        stated(result) == triage_problem(*triage),
{
    if triage.model.as_str().is_empty() {
        return Err("triage.model: must not be empty".to_owned());
    }
    if let Err(message) = check_range("triage.max_turns", triage.max_turns as u64, 1, 50) {
        return Err(message);
    }
    if let Err(message) = check_range("triage.timeout_minutes", triage.timeout_minutes, 1, 30) {
        return Err(message);
    }
    if let Err(message) = check_range("triage.max_attempts", triage.max_attempts as u64, 1, 3) {
        return Err(message);
    }
    if let Err(message) = check_range(
        "triage.retry_base_seconds",
        triage.retry_base_seconds,
        1,
        3600,
    ) {
        return Err(message);
    }
    if let Err(message) = check_range(
        "triage.compaction_trigger_tokens",
        triage.compaction_trigger_tokens,
        1,
        MAX_SAFE_INTEGER,
    ) {
        return Err(message);
    }
    check_range(
        "triage.compaction_keep_recent_messages",
        triage.compaction_keep_recent_messages as u64,
        1,
        MAX_SAFE_INTEGER,
    )
}

fn ruled_before(rules: &Vec<CommandRule>, index: usize) -> (found: bool)
    requires
        index < rules@.len(),
    ensures
        found == executables(rules@).take(index as int).contains(
            rules@[index as int].executable@,
        ),
{
    let ghost before = executables(rules@).take(index as int);
    let mut i: usize = 0;
    while i < index
        invariant
            i <= index < rules@.len(),
            before == executables(rules@).take(index as int),
            forall|k: int| 0 <= k < i ==> before[k] != rules@[index as int].executable@,
        decreases index - i,
    {
        assert(before[i as int] == rules@[i as int].executable@);
        if text::same(rules[i].executable.as_str(), rules[index].executable.as_str()) {
            return true;
        }
        i += 1;
    }
    false
}

fn validate_rule(rules: &Vec<CommandRule>, index: usize) -> (result: Result<(), String>)
    requires
        index < rules@.len(),
    ensures
        stated(result) == rule_problem(rules@, index as int),
{
    let executable = &rules[index].executable;
    if !valid_executable_name(executable.as_str()) {
        let mut out = "commands.rules.".to_owned();
        out.append(text::decimal_of(index as u128).as_str());
        out.append(".executable: invalid executable name");
        return Err(out);
    }
    if ruled_before(rules, index) {
        let mut out = "duplicate command rule: ".to_owned();
        out.append(executable.as_str());
        return Err(out);
    }
    Ok(())
}

impl IntakeConfig {
    /// Checks every rule of the configuration, and states the first one that is broken.
    pub fn validate(&self) -> (result: Result<(), String>)
        ensures
            stated(result) == config_problem(*self),
    {
        if self.version != 1 {
            return Err("version: expected 1".to_owned());
        }
        if let Err(message) = require_nonempty("project_roots", &self.project_roots) {
            return Err(message);
        }
        if let Err(message) = require_nonempty("skills.directories", &self.skills.directories) {
            return Err(message);
        }
        if let Err(message) = require_nonempty(
            "skills.approved_roots",
            &self.skills.approved_roots,
        ) {
            return Err(message);
        }
        if let Err(message) = require_nonempty("commands.path", &self.commands.path) {
            return Err(message);
        }
        if let Err(message) = require_nonempty("commands.rules", &self.commands.rules) {
            return Err(message);
        }
        let mut i: usize = 0;
        while i < self.sources.len()
            invariant
                i <= self.sources@.len(),
                self.version == 1,
                lists_problem(*self) is None,
                sources_problem(self.sources@, 0) == sources_problem(self.sources@, i as int),
            decreases self.sources@.len() - i,
        {
            if let Err(message) = validate_source(&self.sources, i) {
                return Err(message);
            }
            i += 1;
        }
        if let Err(message) = validate_triage(&self.triage) {
            return Err(message);
        }
        if let Err(message) = check_range(
            "commands.timeout_seconds",
            self.commands.timeout_seconds,
            1,
            300,
        ) {
            return Err(message);
        }
        if let Err(message) = check_range(
            "commands.max_output_bytes",
            self.commands.max_output_bytes as u64,
            1024,
            1_000_000,
        ) {
            return Err(message);
        }
        let ghost problem = config_problem(*self);
        assert(problem == rules_problem(self.commands.rules@, 0));
        let mut i: usize = 0;
        while i < self.commands.rules.len()
            invariant
                i <= self.commands.rules@.len(),
                problem == config_problem(*self),
                problem == rules_problem(self.commands.rules@, i as int),
            decreases self.commands.rules@.len() - i,
        {
            if let Err(message) = validate_rule(&self.commands.rules, i) {
                return Err(message);
            }
            i += 1;
        }
        Ok(())
    }
}

// ---------------------------------------------------------------------------------------------
// YAML
// ---------------------------------------------------------------------------------------------

/// What `serde_saphyr::from_str_with_options` reads from a YAML text, as the JSON text that
/// `serde_json` writes for it, or the text of its error. A key that occurs twice and a merge key
/// are errors.
pub uninterp spec fn yaml_json(raw: Seq<char>, strict_booleans: bool, alias_expansions: nat) -> Result<
    Seq<char>,
    Seq<char>,
>;

/// `serde_saphyr::from_str_with_options`, with `DuplicateKeyPolicy::Error` and
/// `MergeKeyPolicy::Error`, and the JSON text of the `serde_json::Value` that it reads.
#[verifier::external_body]
fn read_yaml(raw: &str, strict_booleans: bool, alias_expansions: usize) -> (result: Result<
    String,
    String,
>)
    ensures
        crate::json::written(result) == yaml_json(raw@, strict_booleans, alias_expansions as nat),
{
    let mut options = serde_saphyr::Options::default();
    options.duplicate_keys = serde_saphyr::DuplicateKeyPolicy::Error;
    options.merge_keys = serde_saphyr::MergeKeyPolicy::Error;
    options.strict_booleans = strict_booleans;
    options.alias_limits.max_alias_expansions_per_anchor = alias_expansions;
    let value: Result<serde_json::Value, serde_saphyr::Error> =
        serde_saphyr::from_str_with_options(raw, options);
    value.map(|value| value.to_string()).map_err(|error| error.to_string())
}

/// The JSON text of the value that a YAML text holds. Booleans are `true` and `false` alone, and
/// no alias is expanded.
pub fn parse_yaml_value(raw: &str) -> (result: Result<String, String>)
    ensures
        crate::json::written(result) == yaml_json(raw@, true, 0),
{
    read_yaml(raw, true, 0)
}

// ---------------------------------------------------------------------------------------------
// Environment and paths
// ---------------------------------------------------------------------------------------------

/// One environment variable.
#[derive(Clone, Debug)]
pub struct Variable {
    pub name: String,
    pub value: String,
}

/// The value of the variable. Of two entries with its name the later one counts.
pub open spec fn variable(environment: Seq<Variable>, name: Seq<char>) -> Option<Seq<char>>
    decreases environment.len(),
{
    if environment.len() == 0 {
        None
    } else if environment.last().name@ == name {
        Some(environment.last().value@)
    } else {
        variable(environment.drop_last(), name)
    }
}

/// The value of the variable.
pub fn lookup(environment: &Vec<Variable>, name: &str) -> (value: Option<String>)
    ensures
        text::opt_text(value) == variable(environment@, name@),
{
    let mut i: usize = environment.len();
    assert(environment@.take(i as int) =~= environment@);
    while i > 0
        invariant
            i <= environment@.len(),
            variable(environment@.take(i as int), name@) == variable(environment@, name@),
        decreases i,
    {
        i -= 1;
        assert(environment@.take(i + 1).drop_last() =~= environment@.take(i as int));
        assert(environment@.take(i + 1).last() == environment@[i as int]);
        if text::same(environment[i].name.as_str(), name) {
            return Some(environment[i].value.clone());
        }
    }
    None
}

/// The home directory that the environment names.
pub fn home_directory(environment: &Vec<Variable>) -> (result: Result<String, ConfigError>)
    ensures
        match result {
            Ok(home) => variable(environment@, "HOME"@) == Some(home@),
            Err(error) => error is MissingHome && variable(environment@, "HOME"@) is None,
        },
{
    match lookup(environment, "HOME") {
        Some(home) => Ok(home),
        None => Err(ConfigError::MissingHome),
    }
}

/// The directory below the base that the variable names, or else below the home directory.
/// None where neither is known.
pub open spec fn application_path(
    environment: Seq<Variable>,
    variable_name: Seq<char>,
    below_home: Seq<char>,
    current_directory: Seq<char>,
) -> Option<Seq<char>> {
    match variable(environment, variable_name) {
        Some(base) => Some(
            paths::absolute_form(paths::joined(base, "intake"@), current_directory),
        ),
        None => match variable(environment, "HOME"@) {
            Some(home) => Some(
                paths::absolute_form(paths::joined(home, below_home), current_directory),
            ),
            None => None,
        },
    }
}

/// Where the application keeps files of one sort.
pub fn application_directory(
    environment: &Vec<Variable>,
    variable_name: &str,
    below_home: &str,
    current_directory: &str,
) -> (result: Result<String, ConfigError>)
    ensures
        match result {
            Ok(path) => application_path(
                environment@,
                variable_name@,
                below_home@,
                current_directory@,
            ) == Some(path@),
            Err(error) => error is MissingHome && application_path(
                environment@,
                variable_name@,
                below_home@,
                current_directory@,
            ) is None,
        },
{
    match lookup(environment, variable_name) {
        Some(base) => Ok(
            paths::absolute_path(
                paths::join(base.as_str(), "intake").as_str(),
                current_directory,
            ),
        ),
        None => match home_directory(environment) {
            Ok(home) => Ok(
                paths::absolute_path(
                    paths::join(home.as_str(), below_home).as_str(),
                    current_directory,
                ),
            ),
            Err(error) => Err(error),
        },
    }
}

/// Where the configuration lives.
pub open spec fn config_path_of(
    environment: Seq<Variable>,
    current_directory: Seq<char>,
) -> Option<Seq<char>> {
    application_path(environment, "XDG_CONFIG_HOME"@, ".config/intake"@, current_directory)
}

/// Where the state lives.
pub open spec fn state_path_of(
    environment: Seq<Variable>,
    current_directory: Seq<char>,
) -> Option<Seq<char>> {
    application_path(environment, "XDG_STATE_HOME"@, ".local/state/intake"@, current_directory)
}

/// The directory of the configuration.
pub fn config_directory_with_env(
    environment: &Vec<Variable>,
    current_directory: &str,
) -> (result: Result<String, ConfigError>)
    ensures
        match result {
            Ok(path) => config_path_of(environment@, current_directory@) == Some(path@),
            Err(error) => error is MissingHome && config_path_of(
                environment@,
                current_directory@,
            ) is None,
        },
{
    application_directory(environment, "XDG_CONFIG_HOME", ".config/intake", current_directory)
}

/// The directory of the state.
pub fn state_directory_with_env(
    environment: &Vec<Variable>,
    current_directory: &str,
) -> (result: Result<String, ConfigError>)
    ensures
        match result {
            Ok(path) => state_path_of(environment@, current_directory@) == Some(path@),
            Err(error) => error is MissingHome && state_path_of(
                environment@,
                current_directory@,
            ) is None,
        },
{
    application_directory(environment, "XDG_STATE_HOME", ".local/state/intake", current_directory)
}

/// The file that lists the projects.
pub fn project_registry_path(
    environment: &Vec<Variable>,
    current_directory: &str,
) -> (result: Result<String, ConfigError>)
    ensures
        match result {
            Ok(path) => config_path_of(environment@, current_directory@) matches Some(directory)
                && path@ == paths::joined(directory, "projects.yaml"@),
            Err(error) => error is MissingHome && config_path_of(
                environment@,
                current_directory@,
            ) is None,
        },
{
    match config_directory_with_env(environment, current_directory) {
        Ok(directory) => Ok(paths::join(directory.as_str(), "projects.yaml")),
        Err(error) => Err(error),
    }
}

/// The configuration file that is used where none is named.
pub fn default_config_path(
    environment: &Vec<Variable>,
    current_directory: &str,
) -> (result: Result<String, ConfigError>)
    ensures
        match result {
            Ok(path) => config_path_of(environment@, current_directory@) matches Some(directory)
                && path@ == paths::joined(directory, "config.yaml"@),
            Err(error) => error is MissingHome && config_path_of(
                environment@,
                current_directory@,
            ) is None,
        },
{
    match config_directory_with_env(environment, current_directory) {
        Ok(directory) => Ok(paths::join(directory.as_str(), "config.yaml")),
        Err(error) => Err(error),
    }
}

/// The text without its leading separators.
pub open spec fn without_leading_slashes(path: Seq<char>) -> Seq<char>
    decreases path.len(),
{
    if path.len() > 0 && path[0] == '/' {
        without_leading_slashes(path.drop_first())
    } else {
        path
    }
}

/// Whether the path begins with the component `~`.
pub open spec fn names_home(path: Seq<char>) -> bool {
    path.len() > 0 && path[0] == '~' && (path.len() == 1 || path[1] == '/')
}

/// The path with a leading `~` replaced by the home directory.
pub open spec fn with_home(path: Seq<char>, home: Seq<char>) -> Seq<char> {
    let rest = without_leading_slashes(path.drop_first());
    if rest.len() == 0 {
        home
    } else {
        paths::joined(home, rest)
    }
}

/// The absolute path that the text stands for. None where it needs an unknown home directory.
pub open spec fn expanded(
    path: Seq<char>,
    environment: Seq<Variable>,
    current_directory: Seq<char>,
) -> Option<Seq<char>> {
    if names_home(path) {
        match variable(environment, "HOME"@) {
            Some(home) => Some(paths::absolute_form(with_home(path, home), current_directory)),
            None => None,
        }
    } else {
        Some(paths::absolute_form(path, current_directory))
    }
}

fn replace_home(path: &str, home: &str) -> (out: String)
    requires
        names_home(path@),
    ensures
        out@ == with_home(path@, home@),
{
    let chars = text::chars_of(path);
    let mut start: usize = 1;
    assert(chars@.skip(1) =~= path@.drop_first());
    while start < chars.len() && chars[start] == '/'
        invariant
            1 <= start <= chars@.len(),
            without_leading_slashes(path@.drop_first()) == without_leading_slashes(
                chars@.skip(start as int),
            ),
        decreases chars@.len() - start,
    {
        assert(chars@.skip(start as int).drop_first() =~= chars@.skip(start + 1));
        start += 1;
    }
    assert(start < chars@.len() ==> chars@.skip(start as int)[0] == chars@[start as int]);
    if start == chars.len() {
        home.to_owned()
    } else {
        let rest = text::string_of(&chars, start, chars.len());
        assert(rest@ =~= chars@.skip(start as int));
        paths::join(home, rest.as_str())
    }
}

/// The absolute path that the text stands for.
pub fn expand_path_with_env(
    path: &str,
    environment: &Vec<Variable>,
    current_directory: &str,
) -> (result: Result<String, ConfigError>)
    ensures
        match result {
            Ok(out) => expanded(path@, environment@, current_directory@) == Some(out@),
            Err(error) => error is MissingHome && expanded(
                path@,
                environment@,
                current_directory@,
            ) is None,
        },
{
    let chars = text::chars_of(path);
    if chars.len() > 0 && chars[0] == '~' && (chars.len() == 1 || chars[1] == '/') {
        match home_directory(environment) {
            Ok(home) => Ok(
                paths::absolute_path(
                    replace_home(path, home.as_str()).as_str(),
                    current_directory,
                ),
            ),
            Err(error) => Err(error),
        }
    } else {
        Ok(paths::absolute_path(path, current_directory))
    }
}

/// Whether the path is one of the roots or lies below one of them.
pub fn is_within(path: &str, roots: &Vec<String>, current_directory: &str) -> (b: bool)
    ensures
        b == paths::within(path@, text::texts(roots@), current_directory@),
{
    paths::is_within(path, roots, current_directory)
}

// ---------------------------------------------------------------------------------------------
// Defaults
// ---------------------------------------------------------------------------------------------

/// The commands that a new configuration allows.
pub fn default_command_rules() -> (rules: Vec<CommandRule>)
    ensures
        executables(rules@) == seq!["git"@, "rg"@, "fd"@],
{
    let mut rules: Vec<CommandRule> = Vec::new();
    rules.push(CommandRule { executable: "git".to_owned() });
    rules.push(CommandRule { executable: "rg".to_owned() });
    rules.push(CommandRule { executable: "fd".to_owned() });
    assert(executables(rules@) =~= seq!["git"@, "rg"@, "fd"@]);
    rules
}

pub fn default_project_roots() -> (roots: Vec<String>)
    ensures
        text::texts(roots@) == seq!["~/code"@],
{
    let mut roots: Vec<String> = Vec::new();
    roots.push("~/code".to_owned());
    assert(text::texts(roots@) =~= seq!["~/code"@]);
    roots
}

pub fn default_source_interval() -> (seconds: u64)
    ensures
        seconds == 60,
{
    60
}

pub fn default_source_timeout() -> (seconds: u64)
    ensures
        seconds == 60,
{
    60
}

pub fn default_item_limit() -> (items: usize)
    ensures
        items == 100,
{
    100
}

pub fn default_command_timeout() -> (seconds: u64)
    ensures
        seconds == 60,
{
    60
}

pub fn default_max_output_bytes() -> (bytes: usize)
    ensures
        bytes == 65_536,
{
    65_536
}

/// What a new installation is made of.
#[derive(Clone, Debug)]
pub struct InitialLayout {
    /// The file that the configuration is written to.
    pub config_path: String,
    /// The file that the empty list of projects is written to.
    pub projects_path: String,
    /// The configuration itself.
    pub config: IntakeConfig,
}

/// The steps of a new installation.
#[derive(Debug)]
pub struct InitialPlan {
    /// The private directories that are created first, in order.
    pub directories: Vec<String>,
    /// What is written then, or the error with which the installation ends there.
    pub layout: Result<InitialLayout, ConfigError>,
}

/// The layout of a new installation whose configuration stands at the path.
pub open spec fn is_initial_layout(
    layout: InitialLayout,
    path: Seq<char>,
    directory: Seq<char>,
    state: Seq<char>,
    home: Seq<char>,
    personal_skills: Seq<char>,
) -> bool {
    let skills = paths::joined(directory, "skills"@);
    let config = layout.config;
    &&& layout.config_path@ == path
    &&& layout.projects_path@ == paths::joined(directory, "projects.yaml"@)
    &&& config.version == 1
    &&& text::texts(config.project_roots@) == seq!["~/code"@]
    &&& config.state.database@ == paths::joined(state, "intake.sqlite"@)
    &&& config.state.logs@ == paths::joined(state, "logs"@)
    &&& text::texts(config.skills.directories@) == seq![skills]
    &&& text::texts(config.skills.approved_roots@) == seq![
        skills,
        paths::joined(home, personal_skills),
    ]
    &&& config.sources@.len() == 0
    &&& config.triage.is_default()
    &&& text::texts(config.commands.path@) == seq![
        "/opt/homebrew/bin"@,
        "/usr/local/bin"@,
        "/usr/bin"@,
        "/bin"@,
    ]
    &&& config.commands.timeout_seconds == 60
    &&& config.commands.max_output_bytes == 65_536
    &&& config.commands.sensitive_patterns@.len() == 0
    &&& executables(config.commands.rules@) == seq!["git"@, "rg"@, "fd"@]
}

/// The private directories of a new installation.
pub open spec fn initial_directories(directory: Seq<char>, state: Seq<char>) -> Seq<Seq<char>> {
    seq![directory, paths::joined(directory, "skills"@), state]
}

/// Plans a new installation. The directory of the path and the state directory have to be known
/// for anything to be done. The private directories are then created, and only what is written
/// after that needs the home directory. `personal_skills` is where the user keeps skills of their
/// own, below the home directory.
pub fn initialize_private_config(
    path: &str,
    personal_skills: &str,
    environment: &Vec<Variable>,
    current_directory: &str,
) -> (result: Result<InitialPlan, ConfigError>)
    ensures
        ({
            let target = paths::absolute_form(path@, current_directory@);
            let state = state_path_of(environment@, current_directory@);
            let home = variable(environment@, "HOME"@);
            match result {
                Ok(plan) => {
                    &&& paths::parent_of(target) is Some
                    &&& state is Some
                    &&& text::texts(plan.directories@) == initial_directories(
                        paths::parent_of(target)->0,
                        state->0,
                    )
                    &&& match plan.layout {
                        Ok(layout) => home is Some && is_initial_layout(
                            layout,
                            target,
                            paths::parent_of(target)->0,
                            state->0,
                            home->0,
                            personal_skills@,
                        ),
                        Err(error) => error is MissingHome && home is None,
                    }
                },
                Err(error) => {
                    ||| error is MissingExecutableDirectory && paths::parent_of(target) is None
                    ||| error is MissingHome && paths::parent_of(target) is Some && state is None
                },
            }
        }),
{
    let target = paths::absolute_path(path, current_directory);
    let directory = match paths::parent(target.as_str()) {
        Some(directory) => directory,
        None => {
            return Err(ConfigError::MissingExecutableDirectory);
        },
    };
    let state = match state_directory_with_env(environment, current_directory) {
        Ok(state) => state,
        Err(error) => {
            return Err(error);
        },
    };
    let skills = paths::join(directory.as_str(), "skills");
    let mut directories: Vec<String> = Vec::new();
    directories.push(directory.clone());
    directories.push(skills.clone());
    directories.push(state.clone());
    assert(text::texts(directories@) =~= initial_directories(directory@, state@));
    let home = match home_directory(environment) {
        Ok(home) => home,
        Err(error) => {
            return Ok(InitialPlan { directories, layout: Err(error) });
        },
    };
    let mut skill_directories: Vec<String> = Vec::new();
    skill_directories.push(skills.clone());
    assert(text::texts(skill_directories@) =~= seq![skills@]);
    let personal = paths::join(home.as_str(), personal_skills);
    let mut approved_roots: Vec<String> = Vec::new();
    approved_roots.push(skills.clone());
    approved_roots.push(personal.clone());
    assert(text::texts(approved_roots@) =~= seq![skills@, personal@]);
    let mut search: Vec<String> = Vec::new();
    search.push("/opt/homebrew/bin".to_owned());
    search.push("/usr/local/bin".to_owned());
    search.push("/usr/bin".to_owned());
    search.push("/bin".to_owned());
    assert(text::texts(search@) =~= seq![
        "/opt/homebrew/bin"@,
        "/usr/local/bin"@,
        "/usr/bin"@,
        "/bin"@,
    ]);
    let config = IntakeConfig {
        version: 1,
        project_roots: default_project_roots(),
        state: StateConfig {
            database: paths::join(state.as_str(), "intake.sqlite"),
            logs: paths::join(state.as_str(), "logs"),
        },
        skills: SkillsConfig { directories: skill_directories, approved_roots },
        sources: Vec::new(),
        triage: TriageConfig::default(),
        commands: CommandsConfig {
            path: search,
            timeout_seconds: default_command_timeout(),
            max_output_bytes: default_max_output_bytes(),
            sensitive_patterns: Vec::new(),
            rules: default_command_rules(),
        },
    };
    let layout = InitialLayout {
        config_path: target,
        projects_path: paths::join(directory.as_str(), "projects.yaml"),
        config,
    };
    Ok(InitialPlan { directories, layout: Ok(layout) })
}

/// The files once this one was created, where no file stood at its path.
pub open spec fn with_new_file(
    files: Map<Seq<char>, Seq<char>>,
    path: Seq<char>,
    contents: Seq<char>,
) -> Map<Seq<char>, Seq<char>> {
    if files.contains_key(path) {
        files
    } else {
        files.insert(path, contents)
    }
}

/// The paths that were created: that of the configuration first.
pub open spec fn created_paths(
    config_path: Seq<char>,
    projects_path: Seq<char>,
    config_created: bool,
    projects_created: bool,
) -> Seq<Seq<char>> {
    let first = if config_created {
        seq![config_path]
    } else {
        Seq::empty()
    };
    let second = if projects_created {
        seq![projects_path]
    } else {
        Seq::empty()
    };
    first + second
}

/// The files that an installation leaves behind.
pub open spec fn installed(
    files: Map<Seq<char>, Seq<char>>,
    layout: InitialLayout,
    config_text: Seq<char>,
    projects_text: Seq<char>,
) -> Map<Seq<char>, Seq<char>> {
    with_new_file(
        with_new_file(files, layout.config_path@, config_text),
        layout.projects_path@,
        projects_text,
    )
}

/// The paths that an installation creates.
pub open spec fn newly_created(
    files: Map<Seq<char>, Seq<char>>,
    layout: InitialLayout,
    config_text: Seq<char>,
) -> Seq<Seq<char>> {
    let between = with_new_file(files, layout.config_path@, config_text);
    created_paths(
        layout.config_path@,
        layout.projects_path@,
        !files.contains_key(layout.config_path@),
        !between.contains_key(layout.projects_path@),
    )
}

impl InitialLayout {
    /// What the installation reports, given which of its two files were created rather than
    /// found.
    pub fn into_result(self, config_created: bool, projects_created: bool) -> (result:
        InitializeResult)
        ensures
            result.config_path@ == self.config_path@,
            text::texts(result.created@) == created_paths(
                self.config_path@,
                self.projects_path@,
                config_created,
                projects_created,
            ),
    {
        let mut created: Vec<String> = Vec::new();
        if config_created {
            created.push(self.config_path.clone());
        }
        if projects_created {
            created.push(self.projects_path);
        }
        assert(text::texts(created@) =~= created_paths(
            self.config_path@,
            self.projects_path@,
            config_created,
            projects_created,
        ));
        InitializeResult { config_path: self.config_path, created }
    }
}

// ---------------------------------------------------------------------------------------------
// Laws
// ---------------------------------------------------------------------------------------------

proof fn lemma_sources_clear(sources: Seq<SourceConfig>, from: int, index: int)
    requires
        0 <= from <= index < sources.len(),
        sources_problem(sources, from) is None,
    ensures
        source_problem(sources, index) is None,
    decreases index - from,
{
    if from < index {
        lemma_sources_clear(sources, from + 1, index);
    }
}

proof fn lemma_rules_clear(rules: Seq<CommandRule>, from: int, index: int)
    requires
        0 <= from <= index < rules.len(),
        rules_problem(rules, from) is None,
    ensures
        rule_problem(rules, index) is None,
    decreases index - from,
{
    if from < index {
        lemma_rules_clear(rules, from + 1, index);
    }
}

/// In a configuration that passes validation no two sources share a name, and no two command
/// rules name the same executable.
pub proof fn law_valid_names_are_distinct(config: IntakeConfig)
    requires
        config_problem(config) is None,
    ensures
        forall|i: int, j: int|
            0 <= i < j < config.sources@.len() ==> (#[trigger] config.sources@[i]).name@ != (
            #[trigger] config.sources@[j]).name@,
        forall|i: int, j: int|
            0 <= i < j < config.commands.rules@.len() ==> (
            #[trigger] config.commands.rules@[i]).executable@ != (
            #[trigger] config.commands.rules@[j]).executable@,
{
    assert forall|i: int, j: int| 0 <= i < j < config.sources@.len() implies (
    #[trigger] config.sources@[i]).name@ != (#[trigger] config.sources@[j]).name@ by {
        lemma_sources_clear(config.sources@, 0, j);
        let before = source_names(config.sources@).take(j);
        assert(before[i] == config.sources@[i].name@);
    }
    let rules = config.commands.rules@;
    assert forall|i: int, j: int| 0 <= i < j < rules.len() implies (
    #[trigger] rules[i]).executable@ != (#[trigger] rules[j]).executable@ by {
        lemma_rules_clear(rules, 0, j);
        let before = executables(rules).take(j);
        assert(before[i] == rules[i].executable@);
    }
}

/// In a configuration that passes validation every limit lies in its documented range.
pub proof fn law_valid_limits(config: IntakeConfig)
    requires
        config_problem(config) is None,
    ensures
        1 <= config.triage.max_turns <= 50,
        1 <= config.triage.timeout_minutes <= 30,
        1 <= config.triage.max_attempts <= 3,
        1 <= config.triage.retry_base_seconds <= 3600,
        1 <= config.commands.timeout_seconds <= 300,
        1024 <= config.commands.max_output_bytes <= 1_000_000,
        forall|i: int|
            0 <= i < config.sources@.len() ==> 10 <= (
            #[trigger] config.sources@[i]).interval_seconds && 1
                <= config.sources@[i].timeout_seconds <= 300 && 1 <= config.sources@[i].item_limit
                <= 1000,
{
    assert forall|i: int| 0 <= i < config.sources@.len() implies 10 <= (
    #[trigger] config.sources@[i]).interval_seconds && 1 <= config.sources@[i].timeout_seconds
        <= 300 && 1 <= config.sources@[i].item_limit <= 1000 by {
        lemma_sources_clear(config.sources@, 0, i);
    }
}

/// A new installation starts from a configuration that passes validation.
pub proof fn law_initial_layout_is_valid(
    layout: InitialLayout,
    path: Seq<char>,
    directory: Seq<char>,
    state: Seq<char>,
    home: Seq<char>,
    personal_skills: Seq<char>,
)
    requires
        is_initial_layout(layout, path, directory, state, home, personal_skills),
    ensures
        config_problem(layout.config) is None,
{
    let config = layout.config;
    reveal_strlit("gpt-5.6-luna");
    reveal_strlit("git");
    reveal_strlit("rg");
    reveal_strlit("fd");
    let rules = config.commands.rules@;
    let listed = executables(rules);
    assert(text::texts(config.project_roots@).len() == 1);
    assert(text::texts(config.skills.directories@).len() == 1);
    assert(text::texts(config.skills.approved_roots@).len() == 2);
    assert(text::texts(config.commands.path@).len() == 4);
    assert(listed.len() == 3);
    assert(rules[0].executable@ == listed[0] && rules[1].executable@ == listed[1]
        && rules[2].executable@ == listed[2]);
    assert(rule_problem(rules, 0) is None);
    assert(rule_problem(rules, 1) is None) by {
        assert(listed.take(1) =~= seq!["git"@]);
        assert("rg"@.len() != "git"@.len());
    }
    assert(rule_problem(rules, 2) is None) by {
        assert(listed.take(2) =~= seq!["git"@, "rg"@]);
        assert("fd"@[0] != "rg"@[0]);
        assert("fd"@.len() != "git"@.len());
    }
    assert(rules_problem(rules, 3) is None);
    assert(rules_problem(rules, 2) is None);
    assert(rules_problem(rules, 1) is None);
    assert(rules_problem(rules, 0) is None);
}

/// A file that stands is left as it is, an installation leaves both of its files behind, and a
/// second one creates nothing and changes nothing, whatever it would write.
pub proof fn law_second_installation_creates_nothing(
    files: Map<Seq<char>, Seq<char>>,
    layout: InitialLayout,
    config_text: Seq<char>,
    projects_text: Seq<char>,
    other_config: Seq<char>,
    other_projects: Seq<char>,
)
    ensures
        ({
            let after = installed(files, layout, config_text, projects_text);
            &&& forall|path: Seq<char>|
                #![trigger after[path]]
                #![trigger files[path]]
                files.contains_key(path) ==> after.contains_key(path) && after[path] == files[path]
            &&& after.contains_key(layout.config_path@)
            &&& after.contains_key(layout.projects_path@)
            &&& newly_created(after, layout, other_config) == Seq::<Seq<char>>::empty()
            &&& installed(after, layout, other_config, other_projects) == after
        }),
{
    let after = installed(files, layout, config_text, projects_text);
    assert(newly_created(after, layout, other_config) =~= Seq::<Seq<char>>::empty());
}

/// An expanded path is absolute and holds only plain names, and to expand it again, in any
/// environment and from any directory, leaves it as it is.
pub proof fn law_expanded_paths_are_final(
    path: Seq<char>,
    environment: Seq<Variable>,
    current_directory: Seq<char>,
    other_environment: Seq<Variable>,
    other_directory: Seq<char>,
)
    requires
        paths::absolute(current_directory),
        expanded(path, environment, current_directory) is Some,
    ensures
        ({
            let out = expanded(path, environment, current_directory)->0;
            &&& paths::absolute(out)
            &&& out == paths::path_text(true, paths::names(out))
            &&& forall|k: int|
                0 <= k < paths::names(out).len() ==> paths::plain_name(
                    #[trigger] paths::names(out)[k],
                )
            &&& expanded(out, other_environment, other_directory) == Some(out)
        }),
{
    let out = expanded(path, environment, current_directory)->0;
    let named = if names_home(path) {
        with_home(path, variable(environment, "HOME"@)->0)
    } else {
        path
    };
    let seen = paths::joined(current_directory, named);
    assert(out == paths::normal(seen));
    assert(paths::absolute(seen));
    paths::law_normal_is_stable(seen);
    paths::law_names_are_plain(out);
    assert(!names_home(out));
    assert(paths::joined(other_directory, out) == out);
}

proof fn lemma_all_sources_clear(sources: Seq<SourceConfig>, from: int)
    requires
        0 <= from,
        forall|i: int|
            from <= i < sources.len() ==> source_problem(sources, i) is None && #[trigger] sources[i]
                == sources[i],
    ensures
        sources_problem(sources, from) is None,
    decreases sources.len() - from,
{
    if from < sources.len() {
        assert(sources[from] == sources[from]);
        lemma_all_sources_clear(sources, from + 1);
    }
}

proof fn lemma_all_rules_clear(rules: Seq<CommandRule>, from: int)
    requires
        0 <= from,
        forall|i: int|
            from <= i < rules.len() ==> rule_problem(rules, i) is None && #[trigger] rules[i]
                == rules[i],
    ensures
        rules_problem(rules, from) is None,
    decreases rules.len() - from,
{
    if from < rules.len() {
        assert(rules[from] == rules[from]);
        lemma_all_rules_clear(rules, from + 1);
    }
}

proof fn lemma_environment_clear(index: nat, environment: Seq<Seq<char>>, from: int)
    requires
        0 <= from <= environment.len(),
    ensures
        environment_problem(index, environment, from) is None <==> forall|k: int|
            from <= k < environment.len() ==> environment_name_ok(#[trigger] environment[k]),
    decreases environment.len() - from,
{
    if from < environment.len() {
        lemma_environment_clear(index, environment, from + 1);
        if environment_problem(index, environment, from) is None {
            assert forall|k: int|
                from <= k < environment.len() implies environment_name_ok(
                #[trigger] environment[k],
            ) by {
                if k > from {
                    assert(from + 1 <= k);
                }
            }
        } else if environment_name_ok(environment[from]) {
            let k = choose|k: int|
                from + 1 <= k < environment.len() && !environment_name_ok(
                    #[trigger] environment[k],
                );
            assert(!environment_name_ok(environment[k]));
        }
    }
}

proof fn lemma_options_clear(index: nat, keys: Seq<Seq<char>>, from: int)
    requires
        0 <= from <= keys.len(),
    ensures
        options_problem(index, keys, from) is None <==> forall|k: int|
            from <= k < keys.len() ==> configuration_key_ok(#[trigger] keys[k]),
    decreases keys.len() - from,
{
    if from < keys.len() {
        lemma_options_clear(index, keys, from + 1);
        if options_problem(index, keys, from) is None {
            assert forall|k: int| from <= k < keys.len() implies configuration_key_ok(
                #[trigger] keys[k],
            ) by {
                if k > from {
                    assert(from + 1 <= k);
                }
            }
        } else if configuration_key_ok(keys[from]) {
            let k = choose|k: int|
                from + 1 <= k < keys.len() && !configuration_key_ok(#[trigger] keys[k]);
            assert(!configuration_key_ok(keys[k]));
        }
    }
}

/// Whether the source may stand at its place of the list: a plain name that no source before it
/// has, a command, limits in their ranges, plain names of variables and keys of options.
pub open spec fn sound_source(sources: Seq<SourceConfig>, i: int) -> bool {
    let source = sources[i];
    &&& source.name@.len() > 0
    &&& source.name@[0] != '-'
    &&& forall|k: int|
        0 <= k < source.name@.len() ==> {
            let c = #[trigger] source.name@[k];
            'a' <= c <= 'z' || '0' <= c <= '9' || c == '-'
        }
    &&& forall|j: int| 0 <= j < i ==> (#[trigger] sources[j]).name@ != source.name@
    &&& source.command@.len() > 0
    &&& 10 <= source.interval_seconds <= 9007199254740991
    &&& 1 <= source.timeout_seconds <= 300
    &&& 1 <= source.item_limit <= 1000
    &&& forall|k: int|
        0 <= k < source.environment@.len() ==> {
            let name = (#[trigger] source.environment@[k])@;
            name.len() > 0 && 'A' <= name[0] <= 'Z' && forall|n: int|
                0 <= n < name.len() ==> ('A' <= #[trigger] name[n] <= 'Z' || '0' <= name[n] <= '9'
                    || name[n] == '_')
        }
    &&& forall|k: int|
        0 <= k < source.options@.len() ==> configuration_key_ok(
            (#[trigger] source.options@[k]).key@,
        )
}

proof fn lemma_sound_source(sources: Seq<SourceConfig>, i: int)
    requires
        0 <= i < sources.len(),
    ensures
        source_problem(sources, i) is None <==> sound_source(sources, i),
{
    let source = sources[i];
    let names = source_names(sources).take(i);
    assert(names.contains(source.name@) <==> !(forall|j: int|
        0 <= j < i ==> (#[trigger] sources[j]).name@ != source.name@)) by {
        assert forall|j: int| 0 <= j < i implies names[j] == (#[trigger] sources[j]).name@ by {}
        if names.contains(source.name@) {
            let j = choose|j: int| 0 <= j < names.len() && names[j] == source.name@;
            assert(sources[j].name@ == source.name@);
        }
        if !(forall|j: int| 0 <= j < i ==> (#[trigger] sources[j]).name@ != source.name@) {
            let j = choose|j: int| 0 <= j < i && (#[trigger] sources[j]).name@ == source.name@;
            assert(names[j] == source.name@);
        }
    }
    let environment = text::texts(source.environment@);
    let keys = option_keys(source.options@);
    lemma_environment_clear(i as nat, environment, 0);
    lemma_options_clear(i as nat, keys, 0);
    assert forall|k: int| 0 <= k < environment.len() implies #[trigger] environment[k]
        == source.environment@[k]@ by {}
    assert forall|k: int| 0 <= k < source.environment@.len() implies environment[k] == (
    #[trigger] source.environment@[k])@ by {}
    assert forall|k: int| 0 <= k < keys.len() implies #[trigger] keys[k]
        == source.options@[k].key@ by {}
    assert forall|k: int| 0 <= k < source.options@.len() implies keys[k] == (
    #[trigger] source.options@[k]).key@ by {}
}

/// Whether the rule may stand at its place of the list: a plain name of an executable, which no
/// rule before it has.
pub open spec fn sound_rule(rules: Seq<CommandRule>, i: int) -> bool {
    let name = rules[i].executable@;
    &&& name.len() > 0
    &&& forall|k: int|
        0 <= k < name.len() ==> {
            let c = #[trigger] name[k];
            'a' <= c <= 'z' || 'A' <= c <= 'Z' || '0' <= c <= '9' || c == '.' || c == '_' || c
                == '+' || c == '-'
        }
    &&& forall|j: int| 0 <= j < i ==> (#[trigger] rules[j]).executable@ != name
}

proof fn lemma_sound_rule(rules: Seq<CommandRule>, i: int)
    requires
        0 <= i < rules.len(),
    ensures
        rule_problem(rules, i) is None <==> sound_rule(rules, i),
{
    let name = rules[i].executable@;
    let names = executables(rules).take(i);
    assert forall|j: int| 0 <= j < i implies names[j] == (#[trigger] rules[j]).executable@ by {}
    if names.contains(name) {
        let j = choose|j: int| 0 <= j < names.len() && names[j] == name;
        assert(rules[j].executable@ == name);
    }
    if !(forall|j: int| 0 <= j < i ==> (#[trigger] rules[j]).executable@ != name) {
        let j = choose|j: int| 0 <= j < i && (#[trigger] rules[j]).executable@ == name;
        assert(names[j] == name);
    }
}

/// A configuration passes validation exactly if all of this holds: its version, the lists that
/// must hold something, every source, the settings of the triage, the limits of commands, and
/// every rule of a command.
pub proof fn law_valid_configurations(config: IntakeConfig)
    ensures
        config_problem(config) is None <==> {
            &&& config.version == 1
            &&& config.project_roots@.len() > 0
            &&& config.skills.directories@.len() > 0
            &&& config.skills.approved_roots@.len() > 0
            &&& config.commands.path@.len() > 0
            &&& config.commands.rules@.len() > 0
            &&& forall|i: int|
                0 <= i < config.sources@.len() ==> sound_source(config.sources@, i)
                    && #[trigger] config.sources@[i] == config.sources@[i]
            &&& config.triage.model@.len() > 0
            &&& 1 <= config.triage.max_turns <= 50
            &&& 1 <= config.triage.timeout_minutes <= 30
            &&& 1 <= config.triage.max_attempts <= 3
            &&& 1 <= config.triage.retry_base_seconds <= 3600
            &&& 1 <= config.triage.compaction_trigger_tokens <= 9007199254740991
            &&& 1 <= config.triage.compaction_keep_recent_messages <= 9007199254740991
            &&& 1 <= config.commands.timeout_seconds <= 300
            &&& 1024 <= config.commands.max_output_bytes <= 1_000_000
            &&& forall|i: int|
                0 <= i < config.commands.rules@.len() ==> sound_rule(config.commands.rules@, i)
                    && #[trigger] config.commands.rules@[i] == config.commands.rules@[i]
        },
{
    let sources = config.sources@;
    let rules = config.commands.rules@;
    assert(sources_problem(sources, 0) is None <==> forall|i: int|
        0 <= i < sources.len() ==> sound_source(sources, i) && #[trigger] sources[i]
            == sources[i]) by {
        if sources_problem(sources, 0) is None {
            assert forall|i: int| 0 <= i < sources.len() implies sound_source(sources, i)
                && #[trigger] sources[i] == sources[i] by {
                lemma_sources_clear(sources, 0, i);
                lemma_sound_source(sources, i);
            }
        }
        if forall|i: int|
            0 <= i < sources.len() ==> sound_source(sources, i) && #[trigger] sources[i]
                == sources[i] {
            assert forall|i: int| 0 <= i < sources.len() implies source_problem(sources, i) is None
                && #[trigger] sources[i] == sources[i] by {
                lemma_sound_source(sources, i);
            }
            lemma_all_sources_clear(sources, 0);
        }
    }
    assert(rules_problem(rules, 0) is None <==> forall|i: int|
        0 <= i < rules.len() ==> sound_rule(rules, i) && #[trigger] rules[i] == rules[i]) by {
        if rules_problem(rules, 0) is None {
            assert forall|i: int| 0 <= i < rules.len() implies sound_rule(rules, i)
                && #[trigger] rules[i] == rules[i] by {
                lemma_rules_clear(rules, 0, i);
                lemma_sound_rule(rules, i);
            }
        }
        if forall|i: int|
            0 <= i < rules.len() ==> sound_rule(rules, i) && #[trigger] rules[i] == rules[i] {
            assert forall|i: int| 0 <= i < rules.len() implies rule_problem(rules, i) is None
                && #[trigger] rules[i] == rules[i] by {
                lemma_sound_rule(rules, i);
            }
            lemma_all_rules_clear(rules, 0);
        }
    }
}

/// A key of an option is made of segments with `_` between them: each begins with a small letter
/// and holds small letters and digits.
pub proof fn law_option_keys(segments: Seq<Seq<char>>)
    requires
        segments.len() > 0,
        forall|k: int, i: int|
            0 <= k < segments.len() && 0 <= i < segments[k].len() ==> #[trigger] segments[k][i]
                != '_',
    ensures
        configuration_key_ok(text::join(segments, seq!['_'])) <==> forall|k: int|
            0 <= k < segments.len() ==> {
                let segment = #[trigger] segments[k];
                segment.len() > 0 && 'a' <= segment[0] <= 'z' && forall|i: int|
                    0 <= i < segment.len() ==> ('a' <= #[trigger] segment[i] <= 'z' || '0'
                        <= segment[i] <= '9')
            },
{
    text::law_joined_parts_are_the_parts(segments, '_');
    let parts = text::split_on(text::join(segments, seq!['_']), '_');
    assert(parts == segments);
    assert(configuration_key_ok(text::join(segments, seq!['_'])) <==> forall|k: int|
        0 <= k < segments.len() ==> key_segment_ok(#[trigger] segments[k]));
    assert forall|k: int| 0 <= k < segments.len() implies (key_segment_ok(
        #[trigger] segments[k],
    ) <==> segments[k].len() > 0 && 'a' <= segments[k][0] <= 'z' && forall|i: int|
        0 <= i < segments[k].len() ==> ('a' <= #[trigger] segments[k][i] <= 'z' || '0'
            <= segments[k][i] <= '9')) by {}
}

/// Of a variable that is set again the later value counts, and setting another one leaves it.
pub proof fn law_later_variables_count(
    environment: Seq<Variable>,
    entry: Variable,
    name: Seq<char>,
)
    ensures
        entry.name@ == name ==> variable(environment.push(entry), name) == Some(entry.value@),
        entry.name@ != name ==> variable(environment.push(entry), name) == variable(
            environment,
            name,
        ),
        variable(Seq::empty(), name) is None,
{
    assert(environment.push(entry).drop_last() =~= environment);
}

} // verus!
