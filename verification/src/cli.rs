//! The command line: its commands and options, what they mean, and what is answered.
use vstd::prelude::*;

use crate::application_log;
use crate::config::{self, IntakeConfig, Variable};
use crate::dashboard::{self, DEFAULT_DASHBOARD_HOST, DEFAULT_DASHBOARD_PORT};
use crate::database::readers::{events_read, sources_read, status_counts, statuses};
use crate::database::records::{DatabaseError, EventRecord, EventStatus, SourceStatus};
use crate::database::tables::Store;
use crate::errors::{contains_one, guarded_words, holds_one, stated};
use crate::json;
use crate::text;

verus! {

// ---------------------------------------------------------------------------------------------
// Commands
// ---------------------------------------------------------------------------------------------

/// A command.
#[derive(Clone, Copy, Debug, PartialEq, Eq, Structural)]
pub enum Command {
    Watch,
    Check,
    Status,
    Dashboard,
    Inject,
    Show,
    Retry,
    Ignore,
    Login,
    Init,
    ValidateConfig,
}

/// What a command takes behind its name.
#[derive(Clone, Copy, Debug, PartialEq, Eq, Structural)]
pub enum Arguments {
    Nothing,
    One,
    Watch,
    Dashboard,
}

/// What a command needs to run.
#[derive(Clone, Copy, Debug, PartialEq, Eq, Structural)]
pub enum Runtime {
    Login,
    Init,
    ValidateConfig,
    Database { queue_owner: bool, validate_config: bool },
}

/// What is said of a command.
#[derive(Clone, Copy, Debug, PartialEq, Eq, Structural)]
pub struct CommandSpec {
    pub command: Command,
}

/// The name of a command.
pub open spec fn name_of(command: Command) -> Seq<char> {
    match command {
        Command::Watch => "watch"@,
        Command::Check => "check"@,
        Command::Status => "status"@,
        Command::Dashboard => "dashboard"@,
        Command::Inject => "inject"@,
        Command::Show => "show"@,
        Command::Retry => "retry"@,
        Command::Ignore => "ignore"@,
        Command::Login => "login"@,
        Command::Init => "init"@,
        Command::ValidateConfig => "validate-config"@,
    }
}

/// How a command is written.
pub open spec fn synopsis_of(command: Command) -> Seq<char> {
    match command {
        Command::Watch => "watch [--dashboard] [--host HOST] [--port PORT]"@,
        Command::Check => "check"@,
        Command::Status => "status"@,
        Command::Dashboard => "dashboard [--host HOST] [--port PORT]"@,
        Command::Inject => "inject FILE"@,
        Command::Show => "show ID"@,
        Command::Retry => "retry ID"@,
        Command::Ignore => "ignore ID"@,
        Command::Login => "login"@,
        Command::Init => "init"@,
        Command::ValidateConfig => "validate-config"@,
    }
}

/// What a command does.
pub open spec fn description_of(command: Command) -> Seq<char> {
    match command {
        Command::Watch => "Monitor sources and triage continuously."@,
        Command::Check => "Poll every source once and drain ready triage events."@,
        Command::Status => "Show source and queue state."@,
        Command::Dashboard => "Serve the local monitoring dashboard."@,
        Command::Inject => "Queue one IntakeItem JSON fixture."@,
        Command::Show => "Show one intake event."@,
        Command::Retry => "Queue a retained event for another attempt."@,
        Command::Ignore => "Mark an event handled without action."@,
        Command::Login => "Authenticate the ChatGPT subscription provider."@,
        Command::Init => "Create private configuration directories and config."@,
        Command::ValidateConfig => "Validate YAML, command boundaries, and skill links."@,
    }
}

/// What a command takes behind its name.
pub open spec fn arguments_of(command: Command) -> Arguments {
    match command {
        Command::Watch => Arguments::Watch,
        Command::Dashboard => Arguments::Dashboard,
        Command::Inject => Arguments::One,
        Command::Show => Arguments::One,
        Command::Retry => Arguments::One,
        Command::Ignore => Arguments::One,
        _ => Arguments::Nothing,
    }
}

/// What a command needs to run.
pub open spec fn runtime_of(command: Command) -> Runtime {
    match command {
        Command::Watch => Runtime::Database { queue_owner: true, validate_config: true },
        Command::Check => Runtime::Database { queue_owner: true, validate_config: true },
        Command::Login => Runtime::Login,
        Command::Init => Runtime::Init,
        Command::ValidateConfig => Runtime::ValidateConfig,
        _ => Runtime::Database { queue_owner: false, validate_config: false },
    }
}

impl CommandSpec {
    /// The name of the command.
    pub fn name(self) -> (out: &'static str)
        ensures
            out@ == name_of(self.command),
    {
        match self.command {
            Command::Watch => "watch",
            Command::Check => "check",
            Command::Status => "status",
            Command::Dashboard => "dashboard",
            Command::Inject => "inject",
            Command::Show => "show",
            Command::Retry => "retry",
            Command::Ignore => "ignore",
            Command::Login => "login",
            Command::Init => "init",
            Command::ValidateConfig => "validate-config",
        }
    }

    /// How the command is written.
    pub fn synopsis(self) -> (out: &'static str)
        ensures
            out@ == synopsis_of(self.command),
    {
        match self.command {
            Command::Watch => "watch [--dashboard] [--host HOST] [--port PORT]",
            Command::Check => "check",
            Command::Status => "status",
            Command::Dashboard => "dashboard [--host HOST] [--port PORT]",
            Command::Inject => "inject FILE",
            Command::Show => "show ID",
            Command::Retry => "retry ID",
            Command::Ignore => "ignore ID",
            Command::Login => "login",
            Command::Init => "init",
            Command::ValidateConfig => "validate-config",
        }
    }

    /// What the command does.
    pub fn description(self) -> (out: &'static str)
        ensures
            out@ == description_of(self.command),
    {
        match self.command {
            Command::Watch => "Monitor sources and triage continuously.",
            Command::Check => "Poll every source once and drain ready triage events.",
            Command::Status => "Show source and queue state.",
            Command::Dashboard => "Serve the local monitoring dashboard.",
            Command::Inject => "Queue one IntakeItem JSON fixture.",
            Command::Show => "Show one intake event.",
            Command::Retry => "Queue a retained event for another attempt.",
            Command::Ignore => "Mark an event handled without action.",
            Command::Login => "Authenticate the ChatGPT subscription provider.",
            Command::Init => "Create private configuration directories and config.",
            Command::ValidateConfig => "Validate YAML, command boundaries, and skill links.",
        }
    }

    /// What the command takes behind its name.
    pub fn arguments(self) -> (out: Arguments)
        ensures
            out == arguments_of(self.command),
    {
        match self.command {
            Command::Watch => Arguments::Watch,
            Command::Dashboard => Arguments::Dashboard,
            Command::Inject => Arguments::One,
            Command::Show => Arguments::One,
            Command::Retry => Arguments::One,
            Command::Ignore => Arguments::One,
            _ => Arguments::Nothing,
        }
    }

    /// What the command needs to run.
    pub fn runtime(self) -> (out: Runtime)
        ensures
            out == runtime_of(self.command),
    {
        match self.command {
            Command::Watch => Runtime::Database { queue_owner: true, validate_config: true },
            Command::Check => Runtime::Database { queue_owner: true, validate_config: true },
            Command::Login => Runtime::Login,
            Command::Init => Runtime::Init,
            Command::ValidateConfig => Runtime::ValidateConfig,
            _ => Runtime::Database { queue_owner: false, validate_config: false },
        }
    }
}

/// All commands, in the order in which they are listed.
pub open spec fn all_commands() -> Seq<Command> {
    seq![
        Command::Watch,
        Command::Check,
        Command::Status,
        Command::Dashboard,
        Command::Inject,
        Command::Show,
        Command::Retry,
        Command::Ignore,
        Command::Login,
        Command::Init,
        Command::ValidateConfig,
    ]
}

/// What is said of all commands, in the order in which they are listed.
pub fn command_specs() -> (specs: [CommandSpec; 11])
    ensures
        specs@.map_values(|spec: CommandSpec| spec.command) == all_commands(),
{
    [
        CommandSpec { command: Command::Watch },
        CommandSpec { command: Command::Check },
        CommandSpec { command: Command::Status },
        CommandSpec { command: Command::Dashboard },
        CommandSpec { command: Command::Inject },
        CommandSpec { command: Command::Show },
        CommandSpec { command: Command::Retry },
        CommandSpec { command: Command::Ignore },
        CommandSpec { command: Command::Login },
        CommandSpec { command: Command::Init },
        CommandSpec { command: Command::ValidateConfig },
    ]
}

/// The command with a name, from a place in the list on.
pub open spec fn command_from(name: Seq<char>, from: int) -> Option<Command>
    decreases all_commands().len() - from,
{
    if from < 0 || from >= all_commands().len() {
        None
    } else if name_of(all_commands()[from]) == name {
        Some(all_commands()[from])
    } else {
        command_from(name, from + 1)
    }
}

/// The command with a name.
pub open spec fn command_named(name: Seq<char>) -> Option<Command> {
    command_from(name, 0)
}

/// What is said of the command with a name.
pub fn command_spec(name: &str) -> (spec: Option<CommandSpec>)
    ensures
        command_named(name@) == (match spec {
            Some(spec) => Some(spec.command),
            None => None,
        }),
{
    let specs = command_specs();
    let ghost all = specs@.map_values(|spec: CommandSpec| spec.command);
    let mut i: usize = 0;
    while i < 11
        invariant
            i <= 11,
            specs@.len() == 11,
            all == all_commands(),
            forall|k: int| 0 <= k < 11 ==> #[trigger] all[k] == specs@[k].command,
            command_named(name@) == command_from(name@, i as int),
        decreases 11 - i,
    {
        assert(all[i as int] == specs@[i as int].command);
        if text::same(specs[i].name(), name) {
            return Some(specs[i]);
        }
        i += 1;
    }
    None
}

// ---------------------------------------------------------------------------------------------
// Help
// ---------------------------------------------------------------------------------------------

/// The description without the dot at its end and with a small letter at its beginning.
pub open spec fn as_phrase(description: Seq<char>) -> Seq<char> {
    let bare = without_dots(description);
    if bare.len() == 0 {
        bare
    } else {
        seq![text::lowered(bare[0])] + bare.drop_first()
    }
}

/// The text without the dots at its end.
pub open spec fn without_dots(s: Seq<char>) -> Seq<char>
    decreases s.len(),
{
    if s.len() > 0 && s.last() == '.' {
        without_dots(s.drop_last())
    } else {
        s
    }
}

/// The text with spaces behind it up to a width.
pub open spec fn padded(s: Seq<char>, width: nat) -> Seq<char>
    decreases width - s.len(),
{
    if s.len() >= width {
        s
    } else {
        padded(s.push(' '), width)
    }
}

/// The line, or the two lines, of a command in the list of commands.
pub open spec fn listing(command: Command) -> Seq<char> {
    let synopsis = synopsis_of(command);
    let phrase = as_phrase(description_of(command));
    if text::byte_len(synopsis) > 22 {
        "  "@ + synopsis + "\n                        "@ + phrase + "\n"@
    } else {
        "  "@ + padded(synopsis, 22) + phrase + "\n"@
    }
}

/// The lines of the first commands.
pub open spec fn listings(commands: Seq<Command>) -> Seq<char>
    decreases commands.len(),
{
    if commands.len() == 0 {
        Seq::empty()
    } else {
        listings(commands.drop_last()) + listing(commands.last())
    }
}

/// What is said of the options of the dashboard.
pub open spec fn dashboard_options_text() -> Seq<char> {
    "  --host HOST           bind host (default: "@ + DEFAULT_DASHBOARD_HOST@
        + ")\n  --port PORT           bind port (default: "@ + text::decimal(
        DEFAULT_DASHBOARD_PORT as nat,
    ) + ")\n  --allow-non-loopback  acknowledge unauthenticated non-loopback access\n"@
}

/// What is said of the whole command line.
pub open spec fn usage_text() -> Seq<char> {
    "Usage: intake [--config PATH] COMMAND\n\nCommands:\n"@ + listings(all_commands())
        + "\nWatch option:\n  --dashboard           serve the dashboard with watch\n\nDashboard options for watch --dashboard and dashboard:\n"@
        + dashboard_options_text()
        + "\nLogging:\n  Application logs append to state.logs/application.log.\n  Set INTAKE_LOG to off, error, warn, info, debug, or trace.\n"@
}

fn phrase(description: &str) -> (out: String)
    ensures
        out@ == as_phrase(description@),
{
    let chars = text::chars_of(description);
    let mut end: usize = chars.len();
    assert(chars@.take(end as int) =~= chars@);
    while end > 0 && chars[end - 1] == '.'
        invariant
            end <= chars@.len(),
            without_dots(chars@) == without_dots(chars@.take(end as int)),
        decreases end,
    {
        assert(chars@.take(end as int).last() == chars@[end - 1]);
        assert(chars@.take(end as int).drop_last() =~= chars@.take(end - 1));
        end -= 1;
    }
    let ghost bare = chars@.take(end as int);
    assert(end > 0 ==> bare.last() == chars@[end - 1]);
    assert(without_dots(description@) == bare);
    if end == 0 {
        let out = String::new();
        assert(out@ =~= bare);
        return out;
    }
    let mut out = String::new();
    out.push(text::to_lowered(chars[0]));
    out.append(text::string_of(&chars, 1, end).as_str());
    assert(out@ =~= seq![text::lowered(bare[0])] + bare.drop_first());
    out
}

fn pad(s: &str, width: usize) -> (out: String)
    ensures
        out@ == padded(s@, width as nat),
{
    let mut out = s.to_owned();
    let mut length: usize = text::chars_of(s).len();
    while length < width
        invariant
            out@.len() == length,
            padded(s@, width as nat) == padded(out@, width as nat),
        decreases width - length,
    {
        out.push(' ');
        length += 1;
    }
    out
}

fn list_command(spec: CommandSpec) -> (out: String)
    ensures
        out@ == listing(spec.command),
{
    let synopsis = spec.synopsis();
    let phrase = phrase(spec.description());
    let mut out = "  ".to_owned();
    if text::byte_count(&text::chars_of(synopsis)) > 22 {
        out.append(synopsis);
        out.append("\n                        ");
    } else {
        out.append(pad(synopsis, 22).as_str());
    }
    out.append(phrase.as_str());
    out.append("\n");
    out
}

fn dashboard_options_help() -> (out: String)
    ensures
        out@ == dashboard_options_text(),
{
    let mut out = "  --host HOST           bind host (default: ".to_owned();
    out.append(DEFAULT_DASHBOARD_HOST);
    out.append(")\n  --port PORT           bind port (default: ");
    out.append(text::decimal_of(DEFAULT_DASHBOARD_PORT as u128).as_str());
    out.append(")\n  --allow-non-loopback  acknowledge unauthenticated non-loopback access\n");
    out
}

/// What is said of the whole command line.
pub fn usage() -> (out: String)
    ensures
        out@ == usage_text(),
{
    let specs = command_specs();
    let ghost all = specs@.map_values(|spec: CommandSpec| spec.command);
    let mut commands = String::new();
    let mut i: usize = 0;
    assert(commands@ =~= listings(all.take(0)));
    while i < 11
        invariant
            i <= 11,
            specs@.len() == 11,
            all == all_commands(),
            forall|k: int| 0 <= k < 11 ==> #[trigger] all[k] == specs@[k].command,
            commands@ == listings(all.take(i as int)),
        decreases 11 - i,
    {
        assert(all.take(i + 1).drop_last() =~= all.take(i as int));
        assert(all.take(i + 1).last() == all[i as int]);
        commands.append(list_command(specs[i]).as_str());
        i += 1;
    }
    assert(all.take(11) =~= all_commands());
    let mut out = "Usage: intake [--config PATH] COMMAND\n\nCommands:\n".to_owned();
    out.append(commands.as_str());
    out.append(
        "\nWatch option:\n  --dashboard           serve the dashboard with watch\n\nDashboard options for watch --dashboard and dashboard:\n",
    );
    out.append(dashboard_options_help().as_str());
    out.append(
        "\nLogging:\n  Application logs append to state.logs/application.log.\n  Set INTAKE_LOG to off, error, warn, info, debug, or trace.\n",
    );
    out
}

/// What is said of one command.
pub open spec fn help_text(command: Command) -> Seq<char> {
    let before = if command == Command::Login {
        ""@
    } else {
        " [--config PATH]"@
    };
    let synopsis = match arguments_of(command) {
        Arguments::Watch =>
            "watch [--dashboard] [--host HOST] [--port PORT] [--allow-non-loopback]"@,
        Arguments::Dashboard => "dashboard [--host HOST] [--port PORT] [--allow-non-loopback]"@,
        _ => synopsis_of(command),
    };
    let options = match arguments_of(command) {
        Arguments::Watch =>
            "\nOptions:\n  --dashboard           serve the dashboard with watch\n"@
            + dashboard_options_text(),
        Arguments::Dashboard => "\nOptions:\n"@ + dashboard_options_text(),
        _ => Seq::empty(),
    };
    "Usage: intake"@ + before + " "@ + synopsis + "\n\n"@ + description_of(command) + "\n"@
        + options
}

/// What is said of the command with a name.
pub fn command_help(command: &str) -> (help: Option<String>)
    ensures
        text::opt_text(help) == (match command_named(command@) {
            Some(command) => Some(help_text(command)),
            None => None,
        }),
{
    let spec = match command_spec(command) {
        None => return None,
        Some(spec) => spec,
    };
    let mut out = "Usage: intake".to_owned();
    if spec.command == Command::Login {
        out.append("");
    } else {
        out.append(" [--config PATH]");
    }
    out.append(" ");
    match spec.arguments() {
        Arguments::Watch => out.append(
            "watch [--dashboard] [--host HOST] [--port PORT] [--allow-non-loopback]",
        ),
        Arguments::Dashboard => out.append(
            "dashboard [--host HOST] [--port PORT] [--allow-non-loopback]",
        ),
        _ => out.append(spec.synopsis()),
    }
    out.append("\n\n");
    out.append(spec.description());
    out.append("\n");
    let mut options = String::new();
    match spec.arguments() {
        Arguments::Watch => {
            options.append("\nOptions:\n  --dashboard           serve the dashboard with watch\n");
            options.append(dashboard_options_help().as_str());
        },
        Arguments::Dashboard => {
            options.append("\nOptions:\n");
            options.append(dashboard_options_help().as_str());
        },
        _ => {},
    }
    assert(options@ =~= (match arguments_of(spec.command) {
        Arguments::Watch =>
            "\nOptions:\n  --dashboard           serve the dashboard with watch\n"@
            + dashboard_options_text(),
        Arguments::Dashboard => "\nOptions:\n"@ + dashboard_options_text(),
        _ => Seq::empty(),
    }));
    out.append(options.as_str());
    Some(out)
}

/// Whether a word asks for help.
pub open spec fn asks_help(word: Seq<char>) -> bool {
    word == "--help"@ || word == "-h"@
}

fn is_help(word: &str) -> (b: bool)
    ensures
        b == asks_help(word@),
{
    text::same(word, "--help") || text::same(word, "-h")
}

/// The help that the words ask for: of the command that stands alone before the question.
pub open spec fn help_asked(words: Seq<Seq<char>>) -> Option<Seq<char>> {
    if words.len() == 2 && asks_help(words[1]) {
        match command_named(words[0]) {
            Some(command) => Some(help_text(command)),
            None => None,
        }
    } else {
        None
    }
}

/// The help that the words ask for.
pub fn requested_command_help(args: &Vec<String>) -> (help: Option<String>)
    ensures
        text::opt_text(help) == help_asked(text::texts(args@)),
{
    if args.len() == 2 && is_help(args[1].as_str()) {
        command_help(args[0].as_str())
    } else {
        None
    }
}

// ---------------------------------------------------------------------------------------------
// Options
// ---------------------------------------------------------------------------------------------

/// The words without the option for the configuration, and its path.
#[derive(Debug)]
pub struct GlobalOptions {
    pub config_path: Option<String>,
    pub args: Vec<String>,
}

/// The first place, from one on, at which a word stands.
pub open spec fn word_place(words: Seq<Seq<char>>, word: Seq<char>, from: int) -> Option<int>
    decreases words.len() - from,
{
    if from < 0 || from >= words.len() {
        None
    } else if words[from] == word {
        Some(from)
    } else {
        word_place(words, word, from + 1)
    }
}

/// What the contracts say of the options: the path of the configuration, and the other words.
pub open spec fn global_options(words: Seq<Seq<char>>) -> Result<
    (Option<Seq<char>>, Seq<Seq<char>>),
    Seq<char>,
> {
    match word_place(words, "--config"@, 0) {
        None => Ok((None, words)),
        Some(i) => if i + 1 < words.len() && words[i + 1].len() > 0 {
            Ok((Some(words[i + 1]), words.take(i) + words.skip(i + 2)))
        } else {
            Err("--config requires a path"@)
        },
    }
}

/// What the contracts say of the outcome of reading the options.
pub open spec fn options_read(result: Result<GlobalOptions, String>) -> Result<
    (Option<Seq<char>>, Seq<Seq<char>>),
    Seq<char>,
> {
    match result {
        Ok(options) => Ok((text::opt_text(options.config_path), text::texts(options.args@))),
        Err(message) => Err(message@),
    }
}

fn find_word(words: &Vec<String>, word: &str) -> (place: Option<usize>)
    ensures
        word_place(text::texts(words@), word@, 0) == (match place {
            Some(i) => Some(i as int),
            None => None,
        }),
        place matches Some(i) ==> i < words@.len(),
{
    let ghost all = text::texts(words@);
    let total: usize = words.len();
    let mut i: usize = 0;
    while i < total
        invariant
            i <= total == words@.len(),
            all == text::texts(words@),
            word_place(all, word@, 0) == word_place(all, word@, i as int),
        decreases total - i,
    {
        assert(all[i as int] == words@[i as int]@);
        if text::same(words[i].as_str(), word) {
            return Some(i);
        }
        i += 1;
    }
    None
}

/// Takes the option for the configuration out of the words.
pub fn parse_global_options(args: Vec<String>) -> (result: Result<GlobalOptions, String>)
    ensures
        options_read(result) == global_options(text::texts(args@)),
{
    let ghost all = text::texts(args@);
    match find_word(&args, "--config") {
        None => Ok(GlobalOptions { config_path: None, args }),
        Some(i) => {
            let total: usize = args.len();
            if i + 1 < total && !args[i + 1].as_str().is_empty() {
                let mut args = args;
                let value = args.remove(i + 1);
                let _ = args.remove(i);
                assert(text::texts(args@) =~= all.take(i as int) + all.skip(i + 2));
                Ok(GlobalOptions { config_path: Some(value), args })
            } else {
                Err("--config requires a path".to_owned())
            }
        },
    }
}

/// The options of the dashboard.
#[derive(Clone, Debug)]
pub struct DashboardOptions {
    pub host: Option<String>,
    pub port: Option<u32>,
    pub allow_non_loopback: bool,
}

impl Default for DashboardOptions {
    fn default() -> (options: Self)
        ensures
            options@ == (DashboardModel { host: None, port: None, allow_non_loopback: false }),
    {
        DashboardOptions { host: None, port: None, allow_non_loopback: false }
    }
}

/// What the contracts say of the options of the dashboard.
pub struct DashboardModel {
    pub host: Option<Seq<char>>,
    pub port: Option<u32>,
    pub allow_non_loopback: bool,
}

impl View for DashboardOptions {
    type V = DashboardModel;

    open spec fn view(&self) -> DashboardModel {
        DashboardModel {
            host: text::opt_text(self.host),
            port: self.port,
            allow_non_loopback: self.allow_non_loopback,
        }
    }
}

/// The options of the watch.
#[derive(Clone, Debug)]
pub struct WatchOptions {
    pub dashboard: Option<DashboardOptions>,
}

impl Default for WatchOptions {
    fn default() -> (options: Self)
        ensures
            options.dashboard is None,
    {
        WatchOptions { dashboard: None }
    }
}

/// The number that a text of digits stands for, with or without a plus before it.
pub open spec fn number_in(value: Seq<char>) -> Option<nat> {
    let digits = if value.len() > 0 && value[0] == '+' {
        value.drop_first()
    } else {
        value
    };
    if text::all_digits(digits) {
        Some(text::digits_value(digits))
    } else {
        None
    }
}

/// The number that a text of digits stands for, where it fits.
fn read_number(value: &str) -> (number: Option<u64>)
    ensures
        match number_in(value@) {
            Some(n) => if n <= u64::MAX {
                number matches Some(read) && read == n
            } else {
                number is None
            },
            None => number is None,
        },
{
    let chars = text::chars_of(value);
    if chars.len() > 0 && chars[0] == '+' {
        let digits = text::string_of(&chars, 1, chars.len());
        assert(digits@ =~= value@.drop_first());
        text::parse_digits(&text::chars_of(digits.as_str()))
    } else {
        text::parse_digits(&chars)
    }
}

/// The port that a text names.
pub open spec fn port_in(value: Seq<char>) -> Option<u32> {
    match number_in(value) {
        Some(number) => if 1 <= number <= 65_535 {
            Some(number as u32)
        } else {
            None
        },
        None => None,
    }
}

fn read_port(value: &str) -> (port: Option<u32>)
    ensures
        port == port_in(value@),
{
    match read_number(value) {
        Some(number) => if 1 <= number && number <= 65_535 {
            Some(number as u32)
        } else {
            None
        },
        None => None,
    }
}

/// The options of the dashboard that the words from a place on add to the ones before it.
pub open spec fn dashboard_words(words: Seq<Seq<char>>, from: int, options: DashboardModel) -> Result<
    DashboardModel,
    Seq<char>,
>
    decreases words.len() - from,
{
    if from < 0 || from >= words.len() {
        Ok(options)
    } else if words[from] == "--host"@ && from + 1 < words.len() {
        dashboard_words(
            words,
            from + 2,
            DashboardModel { host: Some(words[from + 1]), ..options },
        )
    } else if words[from] == "--port"@ && from + 1 < words.len() {
        match port_in(words[from + 1]) {
            Some(port) => dashboard_words(
                words,
                from + 2,
                DashboardModel { port: Some(port), ..options },
            ),
            None => Err("dashboard port must be between 1 and 65535"@),
        }
    } else if words[from] == "--allow-non-loopback"@ {
        dashboard_words(words, from + 1, DashboardModel { allow_non_loopback: true, ..options })
    } else {
        Err("Unknown dashboard option: "@ + words[from])
    }
}

/// The options of the dashboard that the words give.
pub open spec fn dashboard_options(words: Seq<Seq<char>>) -> Result<DashboardModel, Seq<char>> {
    dashboard_words(
        words,
        0,
        DashboardModel { host: None, port: None, allow_non_loopback: false },
    )
}

/// What the contracts say of the outcome of reading the options of the dashboard.
pub open spec fn dashboard_read(result: Result<DashboardOptions, String>) -> Result<
    DashboardModel,
    Seq<char>,
> {
    match result {
        Ok(options) => Ok(options@),
        Err(message) => Err(message@),
    }
}

/// Reads the options of the dashboard.
pub fn parse_dashboard_options(args: &Vec<String>) -> (result: Result<DashboardOptions, String>)
    ensures
        dashboard_read(result) == dashboard_options(text::texts(args@)),
{
    let ghost words = text::texts(args@);
    let mut options = DashboardOptions::default();
    let total: usize = args.len();
    let mut index: usize = 0;
    while index < total
        invariant
            index <= total == args@.len(),
            words == text::texts(args@),
            dashboard_options(words) == dashboard_words(words, index as int, options@),
        decreases total - index,
    {
        assert(words[index as int] == args@[index as int]@);
        let word = args[index].as_str();
        if text::same(word, "--host") && index + 1 < total {
            assert(words[index + 1] == args@[index + 1]@);
            options.host = Some(args[index + 1].as_str().to_owned());
            index += 2;
        } else if text::same(word, "--port") && index + 1 < total {
            assert(words[index + 1] == args@[index + 1]@);
            match read_port(args[index + 1].as_str()) {
                Some(port) => {
                    options.port = Some(port);
                },
                None => {
                    return Err("dashboard port must be between 1 and 65535".to_owned());
                },
            }
            index += 2;
        } else if text::same(word, "--allow-non-loopback") {
            options.allow_non_loopback = true;
            index += 1;
        } else {
            let mut message = "Unknown dashboard option: ".to_owned();
            message.append(word);
            return Err(message);
        }
    }
    Ok(options)
}

/// The words other than one.
pub open spec fn others(words: Seq<Seq<char>>, word: Seq<char>) -> Seq<Seq<char>>
    decreases words.len(),
{
    if words.len() == 0 {
        Seq::empty()
    } else if words.last() == word {
        others(words.drop_last(), word)
    } else {
        others(words.drop_last(), word).push(words.last())
    }
}

/// The options of the watch that the words give: those of the dashboard, where it is asked for.
pub open spec fn watch_options(words: Seq<Seq<char>>) -> Result<
    Option<DashboardModel>,
    Seq<char>,
> {
    let rest = others(words, "--dashboard"@);
    let asked = words.len() - rest.len();
    if asked == 0 {
        if rest.len() > 0 {
            Err("Unknown watch option: "@ + rest[0])
        } else {
            Ok(None)
        }
    } else if asked > 1 {
        Err("--dashboard may only be specified once"@)
    } else {
        match dashboard_options(rest) {
            Ok(options) => Ok(Some(options)),
            Err(message) => Err(message),
        }
    }
}

/// What the contracts say of the outcome of reading the options of the watch.
pub open spec fn watch_read(result: Result<WatchOptions, String>) -> Result<
    Option<DashboardModel>,
    Seq<char>,
> {
    match result {
        Ok(options) => Ok(
            match options.dashboard {
                Some(dashboard) => Some(dashboard@),
                None => None,
            },
        ),
        Err(message) => Err(message@),
    }
}

/// Reads the options of the watch.
pub fn parse_watch_options(args: &Vec<String>) -> (result: Result<WatchOptions, String>)
    ensures
        watch_read(result) == watch_options(text::texts(args@)),
{
    let ghost words = text::texts(args@);
    let total: usize = args.len();
    let mut rest: Vec<String> = Vec::new();
    let mut i: usize = 0;
    assert(text::texts(rest@) =~= others(words.take(0), "--dashboard"@));
    while i < total
        invariant
            i <= total == args@.len(),
            words == text::texts(args@),
            rest@.len() <= i,
            text::texts(rest@) == others(words.take(i as int), "--dashboard"@),
        decreases total - i,
    {
        assert(words.take(i + 1).drop_last() =~= words.take(i as int));
        assert(words.take(i + 1).last() == args@[i as int]@);
        let ghost before = rest@;
        if !text::same(args[i].as_str(), "--dashboard") {
            rest.push(args[i].as_str().to_owned());
            assert(text::texts(rest@) =~= text::texts(before).push(args@[i as int]@));
        }
        i += 1;
    }
    assert(words.take(i as int) =~= words);
    let asked: usize = total - rest.len();
    if asked == 0 {
        if rest.len() > 0 {
            assert(text::texts(rest@)[0] == rest@[0]@);
            let mut message = "Unknown watch option: ".to_owned();
            message.append(rest[0].as_str());
            return Err(message);
        }
        return Ok(WatchOptions::default());
    }
    if asked > 1 {
        return Err("--dashboard may only be specified once".to_owned());
    }
    match parse_dashboard_options(&rest) {
        Ok(options) => Ok(WatchOptions { dashboard: Some(options) }),
        Err(message) => Err(message),
    }
}

/// What is wrong with the words behind the name of a command that takes so many.
pub open spec fn words_problem(
    words: Seq<Seq<char>>,
    name: Seq<char>,
    positions: nat,
    from: int,
) -> Option<Seq<char>>
    decreases words.len() - from,
{
    if from < 0 || from >= words.len() {
        None
    } else if text::starts_with(words[from], "-"@) {
        Some("Unknown "@ + name + " option: "@ + words[from])
    } else if from >= positions {
        Some("Unexpected "@ + name + " argument: "@ + words[from])
    } else {
        words_problem(words, name, positions, from + 1)
    }
}

/// What is wrong with the words behind the name of a command, of those commands that have no
/// options of their own.
pub open spec fn plain_problem(
    command: Option<Command>,
    name: Seq<char>,
    words: Seq<Seq<char>>,
) -> Option<Seq<char>> {
    match command {
        None => None,
        Some(command) => match arguments_of(command) {
            Arguments::Nothing => words_problem(words, name, 0, 0),
            Arguments::One => words_problem(words, name, 1, 0),
            _ => None,
        },
    }
}

/// Checks the words behind the name of a command.
pub fn validate_other_command_options(
    spec: Option<CommandSpec>,
    command: &str,
    args: &Vec<String>,
) -> (result: Result<(), String>)
    ensures
        stated(result) == plain_problem(
            match spec {
                Some(spec) => Some(spec.command),
                None => None,
            },
            command@,
            text::texts(args@),
        ),
{
    let positions: usize = match spec {
        None => return Ok(()),
        Some(spec) => match spec.arguments() {
            Arguments::Nothing => 0,
            Arguments::One => 1,
            _ => return Ok(()),
        },
    };
    let ghost words = text::texts(args@);
    let ghost problem = words_problem(words, command@, positions as nat, 0);
    let total: usize = args.len();
    let mut i: usize = 0;
    while i < total
        invariant
            i <= total == args@.len(),
            words == text::texts(args@),
            problem == words_problem(words, command@, positions as nat, i as int),
            problem == plain_problem(
                match spec {
                    Some(spec) => Some(spec.command),
                    None => None,
                },
                command@,
                words,
            ),
        decreases total - i,
    {
        assert(words[i as int] == args@[i as int]@);
        if text::starts_with_str(args[i].as_str(), "-") {
            let mut message = "Unknown ".to_owned();
            message.append(command);
            message.append(" option: ");
            message.append(args[i].as_str());
            return Err(message);
        }
        if i >= positions {
            let mut message = "Unexpected ".to_owned();
            message.append(command);
            message.append(" argument: ");
            message.append(args[i].as_str());
            return Err(message);
        }
        i += 1;
    }
    Ok(())
}

/// The number of an event that a word gives.
pub open spec fn event_number(word: Option<Seq<char>>) -> Option<i64> {
    match word {
        None => None,
        Some(word) => match number_in(word) {
            Some(number) => if 1 <= number <= i64::MAX {
                Some(number as i64)
            } else {
                None
            },
            None => None,
        },
    }
}

/// The number of an event that a word gives.
pub fn parse_event_id(value: Option<&str>) -> (result: Result<i64, String>)
    ensures
        match event_number(text::opt_str(value)) {
            Some(id) => result matches Ok(read) && read == id,
            None => result matches Err(message) && message@ == "A positive event ID is required"@,
        },
{
    let number = match value {
        Some(value) => read_number(value),
        None => None,
    };
    match number {
        Some(number) => if 1 <= number && number <= i64::MAX as u64 {
            Ok(number as i64)
        } else {
            Err("A positive event ID is required".to_owned())
        },
        None => Err("A positive event ID is required".to_owned()),
    }
}

// ---------------------------------------------------------------------------------------------
// The plan
// ---------------------------------------------------------------------------------------------

/// A command to run, with what was read of it. The name of a command that is not known is
/// reported only once the configuration and the database could be opened.
#[derive(Debug)]
pub struct Invocation {
    pub command: Option<Command>,
    pub name: String,
    pub args: Vec<String>,
    pub config_path: Option<String>,
    pub watch: Option<WatchOptions>,
    pub dashboard: Option<DashboardOptions>,
}

/// What is to be done.
#[derive(Debug)]
pub enum Plan {
    /// To print the text and to be done.
    Print(String),
    Run(Invocation),
}

/// What the contracts say of what is to be done.
pub enum PlanModel {
    Print(Seq<char>),
    Run {
        command: Option<Command>,
        name: Seq<char>,
        args: Seq<Seq<char>>,
        config_path: Option<Seq<char>>,
        watch: Option<Option<DashboardModel>>,
        dashboard: Option<DashboardModel>,
    },
}

/// What the contracts say of what is to be done.
pub open spec fn plan_model(plan: Plan) -> PlanModel {
    match plan {
        Plan::Print(content) => PlanModel::Print(content@),
        Plan::Run(invocation) => PlanModel::Run {
            command: invocation.command,
            name: invocation.name@,
            args: text::texts(invocation.args@),
            config_path: text::opt_text(invocation.config_path),
            watch: match invocation.watch {
                Some(watch) => Some(
                    match watch.dashboard {
                        Some(dashboard) => Some(dashboard@),
                        None => None,
                    },
                ),
                None => None,
            },
            dashboard: match invocation.dashboard {
                Some(dashboard) => Some(dashboard@),
                None => None,
            },
        },
    }
}

/// Whether the words ask for what is said of the whole command line.
pub open spec fn asks_usage(words: Seq<Seq<char>>) -> bool {
    words.len() == 0 || words[0] == "help"@ || asks_help(words[0])
}

/// The plan for a command, once the words behind its name are known.
pub open spec fn command_plan(
    name: Seq<char>,
    args: Seq<Seq<char>>,
    config_path: Option<Seq<char>>,
) -> Result<PlanModel, Seq<char>> {
    let command = command_named(name);
    match command {
        Some(Command::Watch) => match watch_options(args) {
            Ok(watch) => Ok(
                PlanModel::Run {
                    command,
                    name,
                    args,
                    config_path,
                    watch: Some(watch),
                    dashboard: None,
                },
            ),
            Err(message) => Err(message),
        },
        Some(Command::Dashboard) => match dashboard_options(args) {
            Ok(dashboard) => Ok(
                PlanModel::Run {
                    command,
                    name,
                    args,
                    config_path,
                    watch: None,
                    dashboard: Some(dashboard),
                },
            ),
            Err(message) => Err(message),
        },
        _ => match plain_problem(command, name, args) {
            Some(message) => Err(message),
            None => Ok(
                PlanModel::Run { command, name, args, config_path, watch: None, dashboard: None },
            ),
        },
    }
}

/// The plan for a command line, or what is wrong with it.
pub open spec fn planned(argv: Seq<Seq<char>>) -> Result<PlanModel, Seq<char>> {
    match global_options(argv) {
        Err(message) => Err(message),
        Ok((config_path, words)) => if asks_usage(words) {
            Ok(PlanModel::Print(usage_text()))
        } else {
            match help_asked(words) {
                Some(help) => Ok(PlanModel::Print(help)),
                None => command_plan(words[0], words.drop_first(), config_path),
            }
        },
    }
}

/// What the contracts say of the outcome of planning.
pub open spec fn plan_read(result: Result<Plan, String>) -> Result<PlanModel, Seq<char>> {
    match result {
        Ok(plan) => Ok(plan_model(plan)),
        Err(message) => Err(message@),
    }
}

fn is_usage(args: &Vec<String>) -> (b: bool)
    ensures
        b == asks_usage(text::texts(args@)),
{
    args.len() == 0 || text::same(args[0].as_str(), "help") || is_help(args[0].as_str())
}

fn plan_command(name: String, args: Vec<String>, config_path: Option<String>) -> (result: Result<
    Plan,
    String,
>)
    ensures
        plan_read(result) == command_plan(
            name@,
            text::texts(args@),
            text::opt_text(config_path),
        ),
{
    let spec = command_spec(name.as_str());
    let command = match spec {
        Some(spec) => Some(spec.command),
        None => None,
    };
    let mut watch: Option<WatchOptions> = None;
    let mut dashboard: Option<DashboardOptions> = None;
    match command {
        Some(Command::Watch) => match parse_watch_options(&args) {
            Ok(options) => {
                watch = Some(options);
            },
            Err(message) => return Err(message),
        },
        Some(Command::Dashboard) => match parse_dashboard_options(&args) {
            Ok(options) => {
                dashboard = Some(options);
            },
            Err(message) => return Err(message),
        },
        _ => match validate_other_command_options(spec, name.as_str(), &args) {
            Ok(()) => {},
            Err(message) => return Err(message),
        },
    }
    Ok(Plan::Run(Invocation { command, name, args, config_path, watch, dashboard }))
}

/// What a command line asks for.
pub fn plan(argv: Vec<String>) -> (result: Result<Plan, String>)
    ensures
        plan_read(result) == planned(text::texts(argv@)),
{
    let options = match parse_global_options(argv) {
        Ok(options) => options,
        Err(message) => return Err(message),
    };
    let mut args = options.args;
    let ghost words = text::texts(args@);
    if is_usage(&args) {
        return Ok(Plan::Print(usage()));
    }
    match requested_command_help(&args) {
        Some(help) => return Ok(Plan::Print(help)),
        None => {},
    }
    let name = args.remove(0);
    assert(name@ == words[0]);
    assert(text::texts(args@) =~= words.drop_first());
    plan_command(name, args, options.config_path)
}

impl Invocation {
    /// What the command needs to run, where it is known.
    pub fn runtime(&self) -> (out: Option<Runtime>)
        ensures
            out == (match self.command {
                Some(command) => Some(runtime_of(command)),
                None => None,
            }),
    {
        match self.command {
            Some(command) => Some((CommandSpec { command }).runtime()),
            None => None,
        }
    }

    /// The first word behind the name of the command.
    pub fn first_argument(&self) -> (word: Option<&str>)
        ensures
            text::opt_str(word) == (if self.args@.len() > 0 {
                Some(self.args@[0]@)
            } else {
                None
            }),
    {
        if self.args.len() > 0 {
            Some(self.args[0].as_str())
        } else {
            None
        }
    }
}

/// Where the log of the application is looked for.
#[derive(Debug)]
pub enum LogPlan {
    /// There is none.
    Nowhere,
    /// In the state directory.
    State,
    /// Where the configuration says, which stands at the path or else at its usual place.
    Configured(Option<String>),
}

/// What the contracts say of where the log of the application is looked for.
pub enum LogPlanModel {
    Nowhere,
    State,
    Configured(Option<Seq<char>>),
}

/// What the contracts say of where the log of the application is looked for.
pub open spec fn log_plan_model(plan: LogPlan) -> LogPlanModel {
    match plan {
        LogPlan::Nowhere => LogPlanModel::Nowhere,
        LogPlan::State => LogPlanModel::State,
        LogPlan::Configured(path) => LogPlanModel::Configured(text::opt_text(path)),
    }
}

/// Where the log of the application is looked for, given a command line.
pub open spec fn log_planned(argv: Seq<Seq<char>>) -> LogPlanModel {
    match global_options(argv) {
        Err(_) => LogPlanModel::State,
        Ok((config_path, words)) => if help_asked(words) is Some {
            LogPlanModel::Nowhere
        } else if asks_usage(words) {
            LogPlanModel::State
        } else {
            match command_named(words[0]) {
                Some(Command::Login) => LogPlanModel::State,
                Some(Command::Init) => LogPlanModel::State,
                _ => LogPlanModel::Configured(config_path),
            }
        },
    }
}

/// Where the log of the application is looked for, given a command line.
pub fn tracing_log_path(argv: Vec<String>) -> (plan: LogPlan)
    ensures
        log_plan_model(plan) == log_planned(text::texts(argv@)),
{
    let options = match parse_global_options(argv) {
        Ok(options) => options,
        Err(_) => return LogPlan::State,
    };
    if requested_command_help(&options.args).is_some() {
        return LogPlan::Nowhere;
    }
    if is_usage(&options.args) {
        return LogPlan::State;
    }
    match command_spec(options.args[0].as_str()) {
        Some(spec) => match spec.command {
            Command::Login => LogPlan::State,
            Command::Init => LogPlan::State,
            _ => LogPlan::Configured(options.config_path),
        },
        None => LogPlan::Configured(options.config_path),
    }
}

/// The path of the log that a configuration names, or else the one in the state directory.
/// `logs` is the directory that the configuration names, where it could be read.
pub fn chosen_log_path(
    logs: Option<&str>,
    environment: &Vec<Variable>,
    current_directory: &str,
) -> (path: Option<String>)
    ensures
        text::opt_text(path) == ({
            let configured = match text::opt_str(logs) {
                Some(logs) => match config::expanded(logs, environment@, current_directory@) {
                    Some(logs) => Some(crate::application_log::log_path(logs)),
                    None => None,
                },
                None => None,
            };
            match configured {
                Some(path) => Some(path),
                None => state_log_path(environment@, current_directory@),
            }
        }),
{
    match logs {
        Some(logs) => match config::expand_path_with_env(logs, environment, current_directory) {
            Ok(logs) => {
                return Some(crate::application_log::application_log_path(logs.as_str()));
            },
            Err(_) => {},
        },
        None => {},
    }
    match config::state_directory_with_env(environment, current_directory) {
        Ok(state) => Some(
            crate::application_log::application_log_path(
                crate::paths::join(state.as_str(), "logs").as_str(),
            ),
        ),
        Err(_) => None,
    }
}

/// The path of the log in the state directory, where that is known.
pub open spec fn state_log_path(
    environment: Seq<Variable>,
    current_directory: Seq<char>,
) -> Option<Seq<char>> {
    match config::state_path_of(environment, current_directory) {
        Some(state) => Some(
            crate::application_log::log_path(crate::paths::joined(state, "logs"@)),
        ),
        None => None,
    }
}

// ---------------------------------------------------------------------------------------------
// The configuration
// ---------------------------------------------------------------------------------------------

/// What is said of each text that occurs in the list before.
pub open spec fn repeats(list: Seq<Seq<char>>, label: Seq<char>) -> Seq<Seq<char>>
    decreases list.len(),
{
    if list.len() == 0 {
        Seq::empty()
    } else {
        let before = repeats(list.drop_last(), label);
        if list.drop_last().contains(list.last()) {
            before.push(label + list.last())
        } else {
            before
        }
    }
}

/// What is said of each directory that is not available.
pub open spec fn absences(list: Seq<Seq<char>>, available: Seq<bool>) -> Seq<Seq<char>>
    decreases list.len(),
{
    if list.len() == 0 {
        Seq::empty()
    } else {
        let before = absences(list.drop_last(), available);
        if available[list.len() - 1] {
            before
        } else {
            before.push("command PATH directory is unavailable: "@ + list.last())
        }
    }
}

fn list_repeats(list: &Vec<String>, label: &str) -> (out: Vec<String>)
    ensures
        text::texts(out@) == repeats(text::texts(list@), label@),
{
    let ghost all = text::texts(list@);
    let total: usize = list.len();
    let mut out: Vec<String> = Vec::new();
    let mut seen: Vec<String> = Vec::new();
    let mut i: usize = 0;
    assert(text::texts(out@) =~= repeats(all.take(0), label@));
    assert(text::texts(seen@) =~= all.take(0));
    while i < total
        invariant
            i <= total == list@.len(),
            all == text::texts(list@),
            text::texts(seen@) == all.take(i as int),
            text::texts(out@) == repeats(all.take(i as int), label@),
        decreases total - i,
    {
        assert(all.take(i + 1).drop_last() =~= all.take(i as int));
        assert(all.take(i + 1).last() == list@[i as int]@);
        let ghost before = out@;
        let ghost earlier = seen@;
        if text::list_has(&seen, list[i].as_str()) {
            let mut message = label.to_owned();
            message.append(list[i].as_str());
            out.push(message);
            assert(text::texts(out@) =~= text::texts(before).push(message@));
        }
        seen.push(list[i].as_str().to_owned());
        assert(text::texts(seen@) =~= text::texts(earlier).push(all[i as int]));
        assert(all.take(i + 1) =~= all.take(i as int).push(all[i as int]));
        i += 1;
    }
    assert(all.take(i as int) =~= all);
    out
}

fn list_absences(list: &Vec<String>, available: &Vec<bool>) -> (out: Vec<String>)
    requires
        available@.len() == list@.len(),
    ensures
        text::texts(out@) == absences(text::texts(list@), available@),
{
    let ghost all = text::texts(list@);
    let total: usize = list.len();
    let mut out: Vec<String> = Vec::new();
    let mut i: usize = 0;
    assert(text::texts(out@) =~= absences(all.take(0), available@));
    while i < total
        invariant
            i <= total == list@.len(),
            available@.len() == list@.len(),
            all == text::texts(list@),
            text::texts(out@) == absences(all.take(i as int), available@),
        decreases total - i,
    {
        assert(all.take(i + 1).drop_last() =~= all.take(i as int));
        assert(all.take(i + 1).last() == list@[i as int]@);
        let ghost before = out@;
        if !available[i] {
            let mut message = "command PATH directory is unavailable: ".to_owned();
            message.append(list[i].as_str());
            out.push(message);
            assert(text::texts(out@) =~= text::texts(before).push(message@));
        }
        i += 1;
    }
    assert(all.take(i as int) =~= all);
    out
}

/// What is said of a configuration: its repetitions, the directories that are missing, and what
/// is said of its skills.
pub open spec fn diagnoses(
    config: IntakeConfig,
    available: Seq<bool>,
    skills: Seq<Seq<char>>,
) -> Seq<Seq<char>> {
    repeats(config::source_names(config.sources@), "duplicate source name: "@) + repeats(
        config::executables(config.commands.rules@),
        "duplicate command rule: "@,
    ) + absences(text::texts(config.commands.path@), available) + skills
}

fn source_name_list(config: &IntakeConfig) -> (names: Vec<String>)
    ensures
        text::texts(names@) == config::source_names(config.sources@),
{
    let total: usize = config.sources.len();
    let mut names: Vec<String> = Vec::new();
    let mut i: usize = 0;
    while i < total
        invariant
            i <= total == config.sources@.len(),
            names@.len() == i,
            forall|k: int| 0 <= k < i ==> (#[trigger] names@[k])@ == config.sources@[k].name@,
        decreases total - i,
    {
        names.push(config.sources[i].name.as_str().to_owned());
        i += 1;
    }
    assert(text::texts(names@) =~= config::source_names(config.sources@));
    names
}

fn executable_list(config: &IntakeConfig) -> (names: Vec<String>)
    ensures
        text::texts(names@) == config::executables(config.commands.rules@),
{
    let total: usize = config.commands.rules.len();
    let mut names: Vec<String> = Vec::new();
    let mut i: usize = 0;
    while i < total
        invariant
            i <= total == config.commands.rules@.len(),
            names@.len() == i,
            forall|k: int|
                0 <= k < i ==> (#[trigger] names@[k])@ == config.commands.rules@[k].executable@,
        decreases total - i,
    {
        names.push(config.commands.rules[i].executable.as_str().to_owned());
        i += 1;
    }
    assert(text::texts(names@) =~= config::executables(config.commands.rules@));
    names
}

/// What is said of a configuration. `available` says of each directory of the command path
/// whether it is there and may be entered; `skills` is what is said of the skills.
pub fn validate_configuration(
    config: &IntakeConfig,
    available: &Vec<bool>,
    skills: Vec<String>,
) -> (diagnostics: Vec<String>)
    requires
        available@.len() == config.commands.path@.len(),
    ensures
        text::texts(diagnostics@) == diagnoses(*config, available@, text::texts(skills@)),
{
    let mut diagnostics = list_repeats(&source_name_list(config), "duplicate source name: ");
    let mut rules = list_repeats(&executable_list(config), "duplicate command rule: ");
    let mut absent = list_absences(&config.commands.path, available);
    let mut skills = skills;
    let ghost a = diagnostics@;
    let ghost b = rules@;
    let ghost c = absent@;
    let ghost d = skills@;
    diagnostics.append(&mut rules);
    diagnostics.append(&mut absent);
    diagnostics.append(&mut skills);
    assert(diagnostics@ =~= a + b + c + d);
    assert(text::texts(a + b + c + d) =~= text::texts(a) + text::texts(b) + text::texts(c)
        + text::texts(d));
    diagnostics
}

/// What `validate-config` answers, given what is said of the configuration.
pub fn validation_reply(diagnostics: &Vec<String>, config_path: &str) -> (result: Result<
    String,
    String,
>)
    ensures
        json::written(result) == (if diagnostics@.len() > 0 {
            Err(text::join(text::texts(diagnostics@), "\n"@))
        } else {
            Ok("Configuration is valid: "@ + config_path@)
        }),
{
    if diagnostics.len() > 0 {
        Err(text::join_strings(diagnostics, "\n"))
    } else {
        let mut out = "Configuration is valid: ".to_owned();
        out.append(config_path);
        Ok(out)
    }
}

/// Whether a command that needs a correct configuration may run.
pub fn require_valid(diagnostics: &Vec<String>) -> (result: Result<(), String>)
    ensures
        stated(result) == (if diagnostics@.len() > 0 {
            Some(
                "Configuration validation failed:\n"@ + text::join(
                    text::texts(diagnostics@),
                    "\n"@,
                ),
            )
        } else {
            None
        }),
{
    if diagnostics.len() > 0 {
        let mut message = "Configuration validation failed:\n".to_owned();
        message.append(text::join_strings(diagnostics, "\n").as_str());
        Err(message)
    } else {
        Ok(())
    }
}

/// What `init` answers.
pub fn init_reply(created: bool, config_path: &str) -> (out: String)
    ensures
        out@ == (if created {
            "Created private configuration at "@
        } else {
            "Private configuration exists at "@
        }) + config_path@,
{
    let mut out = if created {
        "Created private configuration at ".to_owned()
    } else {
        "Private configuration exists at ".to_owned()
    };
    out.append(config_path);
    out
}

// ---------------------------------------------------------------------------------------------
// Replies
// ---------------------------------------------------------------------------------------------

/// The file that `inject` reads.
pub fn injected_file(word: Option<&str>) -> (result: Result<String, String>)
    ensures
        json::written(result) == (match text::opt_str(word) {
            Some(path) => Ok(path),
            None => Err("inject requires an IntakeItem JSON file"@),
        }),
{
    match word {
        Some(path) => Ok(path.to_owned()),
        None => Err("inject requires an IntakeItem JSON file".to_owned()),
    }
}

/// The checkpoint that is stored for an event that was queued by hand.
pub fn injection_checkpoint(injected_at: &str) -> (result: Result<String, String>)
    ensures
        json::written(result) == json::object_text(
            seq![("injected_at"@, json::PartModel::Text(injected_at@))],
        ),
        result matches Ok(out) && json::pointed_text(out@, "/injected_at"@) == Some(injected_at@),
{
    let mut list: Vec<json::Entry> = Vec::new();
    list.push(json::text_entry("injected_at", injected_at));
    assert(json::entries(list@) =~= seq![
        ("injected_at"@, json::PartModel::Text(injected_at@)),
    ]);
    proof {
        reveal_strlit("injected_at");
        reveal_strlit("/injected_at");
        let written = json::entries(list@);
        assert(written[0].0 == "injected_at"@);
        assert(seq!['/'] + written[0].0 =~= "/injected_at"@);
    }
    json::write_object(&list)
}

/// What `inject` answers.
pub fn injection_reply(queued: usize, path: &str) -> (result: Result<String, String>)
    ensures
        json::written(result) == (if queued == 0 {
            Err("fixture entity and revision are already queued"@)
        } else {
            Ok("Queued fixture from "@ + path@ + "."@)
        }),
{
    if queued == 0 {
        Err("fixture entity and revision are already queued".to_owned())
    } else {
        let mut out = "Queued fixture from ".to_owned();
        out.append(path);
        out.append(".");
        Ok(out)
    }
}

/// A text with the number of an event in it.
pub open spec fn about_event(before: Seq<char>, id: int, after: Seq<char>) -> Seq<char> {
    before + text::signed_decimal(id) + after
}

fn write_about(before: &str, id: i64, after: &str) -> (out: String)
    ensures
        out@ == about_event(before@, id as int, after@),
{
    let mut out = before.to_owned();
    out.append(text::signed_decimal_of(id).as_str());
    out.append(after);
    out
}

/// What `show` answers where there is no such event.
pub fn unknown_event(id: i64) -> (out: String)
    ensures
        out@ == about_event("Unknown event "@, id as int, ""@),
{
    write_about("Unknown event ", id, "")
}

/// What `retry` answers.
pub fn retry_reply(id: i64, queued: bool) -> (result: Result<String, String>)
    ensures
        json::written(result) == (if queued {
            Ok(about_event("Event "@, id as int, " is queued for retry."@))
        } else {
            Err(about_event("Event "@, id as int, " has no retained content to retry"@))
        }),
{
    if queued {
        Ok(write_about("Event ", id, " is queued for retry."))
    } else {
        Err(write_about("Event ", id, " has no retained content to retry"))
    }
}

/// What `ignore` answers.
pub fn ignore_reply(id: i64, known: bool) -> (result: Result<String, String>)
    ensures
        json::written(result) == (if known {
            Ok(about_event("Event "@, id as int, " is ignored."@))
        } else {
            Err(about_event("Unknown event "@, id as int, ""@))
        }),
{
    if known {
        Ok(write_about("Event ", id, " is ignored."))
    } else {
        Err(unknown_event(id))
    }
}

/// What is said of a command that is not known.
pub fn unknown_command(name: &str) -> (out: String)
    ensures
        out@ == "Unknown command: "@ + name@,
{
    let mut out = "Unknown command: ".to_owned();
    out.append(name);
    out
}

/// The number of events that have a status, given by its name.
#[derive(Clone, Debug)]
pub struct QueueCount {
    pub status: String,
    pub count: usize,
}

/// The number of events that have the status, where it is given.
pub open spec fn queue_count(counts: Seq<QueueCount>, status: Seq<char>) -> Option<usize>
    decreases counts.len(),
{
    if counts.len() == 0 {
        None
    } else if counts.last().status@ == status {
        Some(counts.last().count)
    } else {
        queue_count(counts.drop_last(), status)
    }
}

/// The statuses in the order in which they are reported.
pub open spec fn reported_statuses() -> Seq<Seq<char>> {
    seq!["failed"@, "ignored"@, "pending"@, "processing"@, "retryable"@, "succeeded"@]
}

/// The lines on the statuses: those of which a number is given.
pub open spec fn status_lines(counts: Seq<QueueCount>, statuses: Seq<Seq<char>>) -> Seq<Seq<char>>
    decreases statuses.len(),
{
    if statuses.len() == 0 {
        Seq::empty()
    } else {
        let before = status_lines(counts, statuses.drop_last());
        match queue_count(counts, statuses.last()) {
            Some(count) => before.push(
                "  "@ + statuses.last() + ": "@ + text::decimal(count as nat),
            ),
            None => before,
        }
    }
}

/// The line on an event.
pub open spec fn event_line(event: EventRecord) -> Seq<char> {
    "  "@ + text::signed_decimal(event.id as int) + " "@ + event.status.name() + " "@
        + event.source@ + ": "@ + event.title@
}

/// The report on the queue, the sources, each given as JSON text, and the last events.
pub open spec fn status_text(
    counts: Seq<QueueCount>,
    sources: Seq<Seq<char>>,
    events: Seq<EventRecord>,
) -> Seq<Seq<char>> {
    seq!["Queue:"@] + (if counts.len() == 0 {
        seq!["  empty"@]
    } else {
        Seq::empty()
    }) + status_lines(counts, reported_statuses()) + seq!["Sources:"@] + (if sources.len() == 0 {
        seq!["  unchecked"@]
    } else {
        sources.map_values(|source: Seq<char>| "  "@ + source)
    }) + (if events.len() == 0 {
        Seq::empty()
    } else {
        seq!["Recent events:"@] + events.map_values(|event: EventRecord| event_line(event))
    })
}

fn find_count(counts: &Vec<QueueCount>, status: &str) -> (count: Option<usize>)
    ensures
        count == queue_count(counts@, status@),
{
    let mut i: usize = counts.len();
    assert(counts@.take(i as int) =~= counts@);
    while i > 0
        invariant
            i <= counts@.len(),
            queue_count(counts@, status@) == queue_count(counts@.take(i as int), status@),
        decreases i,
    {
        assert(counts@.take(i as int).last() == counts@[i - 1]);
        assert(counts@.take(i as int).drop_last() =~= counts@.take(i - 1));
        if text::same(counts[i - 1].status.as_str(), status) {
            return Some(counts[i - 1].count);
        }
        i -= 1;
    }
    None
}

fn push_line(lines: &mut Vec<String>, line: String)
    ensures
        text::texts(final(lines)@) == text::texts(old(lines)@).push(line@),
{
    lines.push(line);
    assert(text::texts(lines@) =~= text::texts(old(lines)@).push(line@));
}

fn queue_lines(counts: &Vec<QueueCount>) -> (lines: Vec<String>)
    ensures
        text::texts(lines@) == status_lines(counts@, reported_statuses()),
{
    let statuses: [&str; 6] = [
        "failed",
        "ignored",
        "pending",
        "processing",
        "retryable",
        "succeeded",
    ];
    let ghost all = reported_statuses();
    assert(forall|k: int| 0 <= k < 6 ==> (#[trigger] statuses@[k])@ == all[k]);
    let mut lines: Vec<String> = Vec::new();
    let mut i: usize = 0;
    assert(text::texts(lines@) =~= status_lines(counts@, all.take(0)));
    while i < 6
        invariant
            i <= 6,
            statuses@.len() == 6,
            all == reported_statuses(),
            forall|k: int| 0 <= k < 6 ==> (#[trigger] statuses@[k])@ == all[k],
            text::texts(lines@) == status_lines(counts@, all.take(i as int)),
        decreases 6 - i,
    {
        assert(all.take(i + 1).drop_last() =~= all.take(i as int));
        assert(all.take(i + 1).last() == statuses@[i as int]@);
        match find_count(counts, statuses[i]) {
            Some(count) => {
                let mut line = "  ".to_owned();
                line.append(statuses[i]);
                line.append(": ");
                line.append(text::decimal_of(count as u128).as_str());
                push_line(&mut lines, line);
            },
            None => {},
        }
        i += 1;
    }
    assert(all.take(6) =~= all);
    lines
}

fn source_lines(sources: &Vec<String>) -> (lines: Vec<String>)
    ensures
        text::texts(lines@) == (if sources@.len() == 0 {
            seq!["  unchecked"@]
        } else {
            text::texts(sources@).map_values(|source: Seq<char>| "  "@ + source)
        }),
{
    let mut lines: Vec<String> = Vec::new();
    let total: usize = sources.len();
    if total == 0 {
        lines.push("  unchecked".to_owned());
        assert(text::texts(lines@) =~= seq!["  unchecked"@]);
        return lines;
    }
    let mut i: usize = 0;
    while i < total
        invariant
            i <= total == sources@.len(),
            lines@.len() == i,
            forall|k: int| 0 <= k < i ==> (#[trigger] lines@[k])@ == "  "@ + sources@[k]@,
        decreases total - i,
    {
        let mut line = "  ".to_owned();
        line.append(sources[i].as_str());
        lines.push(line);
        i += 1;
    }
    assert(text::texts(lines@) =~= text::texts(sources@).map_values(
        |source: Seq<char>| "  "@ + source,
    ));
    lines
}

fn event_lines(events: &Vec<EventRecord>) -> (lines: Vec<String>)
    ensures
        text::texts(lines@) == (if events@.len() == 0 {
            Seq::empty()
        } else {
            seq!["Recent events:"@] + events@.map_values(
                |event: EventRecord| event_line(event),
            )
        }),
{
    let mut lines: Vec<String> = Vec::new();
    let total: usize = events.len();
    if total == 0 {
        assert(text::texts(lines@) =~= Seq::empty());
        return lines;
    }
    lines.push("Recent events:".to_owned());
    let mut i: usize = 0;
    while i < total
        invariant
            i <= total == events@.len(),
            lines@.len() == i + 1,
            lines@[0]@ == "Recent events:"@,
            forall|k: int| 0 < k <= i ==> (#[trigger] lines@[k])@ == event_line(events@[k - 1]),
        decreases total - i,
    {
        let mut line = "  ".to_owned();
        line.append(text::signed_decimal_of(events[i].id).as_str());
        line.append(" ");
        line.append(events[i].status.as_str());
        line.append(" ");
        line.append(events[i].source.as_str());
        line.append(": ");
        line.append(events[i].title.as_str());
        lines.push(line);
        i += 1;
    }
    assert(text::texts(lines@) =~= seq!["Recent events:"@] + events@.map_values(
        |event: EventRecord| event_line(event),
    ));
    lines
}

/// The report on the queue, the sources, each given as JSON text, and the last events.
pub fn status_report(
    counts: &Vec<QueueCount>,
    sources: &Vec<String>,
    events: &Vec<EventRecord>,
) -> (lines: Vec<String>)
    ensures
        text::texts(lines@) == status_text(counts@, text::texts(sources@), events@),
{
    let mut lines: Vec<String> = Vec::new();
    lines.push("Queue:".to_owned());
    if counts.len() == 0 {
        lines.push("  empty".to_owned());
    }
    let ghost head = text::texts(lines@);
    assert(head =~= seq!["Queue:"@] + (if counts@.len() == 0 {
        seq!["  empty"@]
    } else {
        Seq::empty()
    }));
    let mut queue = queue_lines(counts);
    let mut from = source_lines(sources);
    let mut recent = event_lines(events);
    let ghost a = lines@;
    let ghost b = queue@;
    let ghost c = from@;
    let ghost d = recent@;
    lines.append(&mut queue);
    lines.push("Sources:".to_owned());
    lines.append(&mut from);
    lines.append(&mut recent);
    assert(text::texts(lines@) =~= text::texts(a) + text::texts(b) + seq!["Sources:"@]
        + text::texts(c) + text::texts(d));
    lines
}

/// How many events the report on the queue shows.
pub const STATUS_EVENTS: usize = 10;

/// What the report on the queue is made of.
#[derive(Debug)]
pub struct StatusRecords {
    pub counts: Vec<QueueCount>,
    pub sources: Vec<SourceStatus>,
    pub events: Vec<EventRecord>,
}

/// Whether the numbers are these, given by the names of the statuses.
pub open spec fn names_counts(counts: Seq<QueueCount>, numbers: Seq<(EventStatus, usize)>) -> bool {
    &&& counts.len() == numbers.len()
    &&& forall|k: int|
        0 <= k < counts.len() ==> (#[trigger] counts[k]).status@ == numbers[k].0.name()
            && counts[k].count == numbers[k].1
}

/// Reads what the report on the queue is made of: how many events have each status, the sources,
/// and the events that were observed last.
pub fn read_status(database: &Store) -> (result: Result<StatusRecords, DatabaseError>)
    ensures
        match result {
            Ok(records) => {
                &&& names_counts(records.counts@, status_counts(database@.events, statuses()))
                &&& sources_read(Ok(records.sources), database@.sources)
                &&& events_read(
                    Ok(records.events),
                    database@.events,
                    database@.entities,
                    STATUS_EVENTS as nat,
                )
                &&& records.events@.len() <= STATUS_EVENTS
            },
            Err(error) => {
                ||| sources_read(Err(error), database@.sources)
                ||| events_read(
                    Err(error),
                    database@.events,
                    database@.entities,
                    STATUS_EVENTS as nat,
                )
            },
        },
{
    let numbers = database.status();
    let total: usize = numbers.len();
    let mut counts: Vec<QueueCount> = Vec::new();
    let mut i: usize = 0;
    while i < total
        invariant
            i <= total == numbers@.len(),
            names_counts(counts@, numbers@.take(i as int)),
        decreases total - i,
    {
        let (status, count) = numbers[i];
        counts.push(QueueCount { status: status.as_str().to_owned(), count });
        i += 1;
    }
    assert(numbers@.take(i as int) =~= numbers@);
    let sources = database.source_statuses()?;
    let events = database.list_events(STATUS_EVENTS)?;
    Ok(StatusRecords { counts, sources, events })
}

/// The lines on the errors of a check.
pub fn check_error_lines(errors: &Vec<String>) -> (lines: Vec<String>)
    ensures
        lines@.len() == errors@.len(),
        forall|k: int|
            0 <= k < lines@.len() ==> Some((#[trigger] lines@[k])@) == dashboard::error_shown(
                Some(errors@[k]@),
            ),
{
    let total: usize = errors.len();
    let mut lines: Vec<String> = Vec::new();
    let mut i: usize = 0;
    while i < total
        invariant
            i <= total == errors@.len(),
            lines@.len() == i,
            forall|k: int|
                0 <= k < i ==> Some((#[trigger] lines@[k])@) == dashboard::error_shown(
                    Some(errors@[k]@),
                ),
        decreases total - i,
    {
        match dashboard::public_error(Some(errors[i].as_str())) {
            Some(line) => lines.push(line),
            None => {},
        }
        i += 1;
    }
    lines
}

/// The text that is shown for an error: redacted, and replaced by the wording of the dashboard
/// where it touches on credentials or content.
pub open spec fn error_wording(error: Seq<char>) -> Seq<char> {
    let message = application_log::redacted(error);
    if holds_one(text::lower(message), guarded_words()) {
        dashboard::error_shown(Some(message))->0
    } else {
        message
    }
}

/// The text that is shown for an error.
pub fn public_cli_error(error: &str) -> (out: String)
    ensures
        out@ == error_wording(error@),
{
    let message = application_log::redact_log_text(error);
    let words: [&str; 9] = [
        "auth",
        "bearer",
        "credential",
        "oauth",
        "password",
        "payload",
        "prompt",
        "secret",
        "token",
    ];
    assert(words@.map_values(|n: &str| n@) =~= guarded_words());
    if contains_one(&text::lower_chars(&text::chars_of(message.as_str())), &words) {
        match dashboard::public_error(Some(message.as_str())) {
            Some(wording) => wording,
            None => message,
        }
    } else {
        message
    }
}

/// The line that is shown for an error that ends the program.
pub fn write_error(error: &str) -> (line: String)
    ensures
        line@ == "intake: "@ + error_wording(error@),
{
    let mut line = "intake: ".to_owned();
    line.append(public_cli_error(error).as_str());
    line
}

/// What the program ends with: what the command ended with, unless only closing the database
/// failed.
pub fn run_outcome(operation: Result<i32, String>, shutdown: Result<(), String>) -> (result: Result<
    i32,
    String,
>)
    ensures
        match operation {
            Err(error) => result matches Err(message) && message@ == error@,
            Ok(code) => match shutdown {
                Ok(_) => result matches Ok(status) && status == code,
                Err(error) => result matches Err(message) && message@ == error@,
            },
        },
{
    match operation {
        Err(error) => Err(error),
        Ok(code) => match shutdown {
            Ok(()) => Ok(code),
            Err(error) => Err(error),
        },
    }
}

// ---------------------------------------------------------------------------------------------
// Laws
// ---------------------------------------------------------------------------------------------

/// What is shown for an error is one of the wordings of the dashboard, or it names none of the
/// words that guard credentials and content.
pub proof fn law_shown_errors_are_guarded(error: Seq<char>)
    ensures
        ({
            let message = application_log::redacted(error);
            ||| error_wording(error) == dashboard::error_shown(Some(message))->0
            ||| error_wording(error) == message && !holds_one(
                text::lower(error_wording(error)),
                guarded_words(),
            )
        }),
{
}

/// A command is found by its name, and no two have the same one.
pub proof fn law_commands_are_found(command: Command)
    ensures
        command_named(name_of(command)) == Some(command),
{
    reveal_strlit("watch");
    reveal_strlit("check");
    reveal_strlit("status");
    reveal_strlit("dashboard");
    reveal_strlit("inject");
    reveal_strlit("show");
    reveal_strlit("retry");
    reveal_strlit("ignore");
    reveal_strlit("login");
    reveal_strlit("init");
    reveal_strlit("validate-config");
    reveal_with_fuel(command_from, 12);
    let all = all_commands();
    assert forall|i: int, j: int| 0 <= i < j < 11 implies name_of(#[trigger] all[i]) != name_of(
        #[trigger] all[j],
    ) by {
        let a = name_of(all[i]);
        let b = name_of(all[j]);
        if a.len() == b.len() {
            assert(a[0] != b[0] || a[2] != b[2]);
        }
    }
}

/// In a configuration that passes validation nothing is repeated: all that is said of it
/// concerns the directories and the skills.
pub proof fn law_valid_configurations_repeat_nothing(
    config: IntakeConfig,
    available: Seq<bool>,
    skills: Seq<Seq<char>>,
)
    requires
        config::config_problem(config) is None,
    ensures
        diagnoses(config, available, skills) == absences(
            text::texts(config.commands.path@),
            available,
        ) + skills,
{
    config::law_valid_names_are_distinct(config);
    let names = config::source_names(config.sources@);
    let rules = config::executables(config.commands.rules@);
    assert forall|i: int, j: int| 0 <= i < j < names.len() implies #[trigger] names[i]
        != #[trigger] names[j] by {
        assert(config.sources@[i].name@ != config.sources@[j].name@);
    }
    assert forall|i: int, j: int| 0 <= i < j < rules.len() implies #[trigger] rules[i]
        != #[trigger] rules[j] by {
        assert(config.commands.rules@[i].executable@ != config.commands.rules@[j].executable@);
    }
    lemma_no_repeats(names, "duplicate source name: "@);
    lemma_no_repeats(rules, "duplicate command rule: "@);
    assert(diagnoses(config, available, skills) =~= absences(
        text::texts(config.commands.path@),
        available,
    ) + skills);
}

proof fn lemma_no_repeats(list: Seq<Seq<char>>, label: Seq<char>)
    requires
        forall|i: int, j: int|
            0 <= i < j < list.len() ==> #[trigger] list[i] != #[trigger] list[j],
    ensures
        repeats(list, label) == Seq::<Seq<char>>::empty(),
    decreases list.len(),
{
    if list.len() > 0 {
        let shorter = list.drop_last();
        assert forall|i: int, j: int| 0 <= i < j < shorter.len() implies #[trigger] shorter[i]
            != #[trigger] shorter[j] by {
            assert(list[i] != list[j]);
        }
        lemma_no_repeats(shorter, label);
        if shorter.contains(list.last()) {
            let k = choose|k: int| 0 <= k < shorter.len() && shorter[k] == list.last();
            assert(list[k] != list[list.len() - 1]);
        }
    }
}

} // verus!
