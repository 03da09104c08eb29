//! What the model is asked for: how much it reasons, and which tools it has.
use vstd::prelude::*;

use crate::agent::command_policy::{MAX_COMMAND_STDIN_BYTES, MAX_COMMAND_UTF16_UNITS};
use crate::agent::read_policy::{MAX_READ_LINES, MAX_READ_LINE_NUMBER, MAX_READ_PATH_BYTES};
use crate::config;
use crate::text;

verus! {

/// How much reasoning the model is asked for.
#[derive(Clone, Copy, Debug, PartialEq, Eq, Structural)]
pub enum ThinkingLevel {
    Off,
    Minimal,
    Low,
    Medium,
    High,
    Xhigh,
    Max,
}

impl ThinkingLevel {
    /// The name of the level in a request.
    pub open spec fn name(self) -> Seq<char> {
        match self {
            ThinkingLevel::Off => "none"@,
            ThinkingLevel::Minimal => "minimal"@,
            ThinkingLevel::Low => "low"@,
            ThinkingLevel::Medium => "medium"@,
            ThinkingLevel::High => "high"@,
            ThinkingLevel::Xhigh => "xhigh"@,
            ThinkingLevel::Max => "max"@,
        }
    }

    /// The name of the level in a request.
    pub fn wire_name(self) -> (out: &'static str)
        ensures
            out@ == self.name(),
    {
        match self {
            ThinkingLevel::Off => "none",
            ThinkingLevel::Minimal => "minimal",
            ThinkingLevel::Low => "low",
            ThinkingLevel::Medium => "medium",
            ThinkingLevel::High => "high",
            ThinkingLevel::Xhigh => "xhigh",
            ThinkingLevel::Max => "max",
        }
    }
}

/// The level that the configuration asks for.
pub open spec fn level_of(level: config::ThinkingLevel) -> ThinkingLevel {
    match level {
        config::ThinkingLevel::Off => ThinkingLevel::Off,
        config::ThinkingLevel::Minimal => ThinkingLevel::Minimal,
        config::ThinkingLevel::Low => ThinkingLevel::Low,
        config::ThinkingLevel::Medium => ThinkingLevel::Medium,
        config::ThinkingLevel::High => ThinkingLevel::High,
        config::ThinkingLevel::Xhigh => ThinkingLevel::Xhigh,
        config::ThinkingLevel::Max => ThinkingLevel::Max,
    }
}

/// The level that the configuration asks for.
pub fn thinking(level: config::ThinkingLevel) -> (out: ThinkingLevel)
    ensures
        out == level_of(level),
{
    match level {
        config::ThinkingLevel::Off => ThinkingLevel::Off,
        config::ThinkingLevel::Minimal => ThinkingLevel::Minimal,
        config::ThinkingLevel::Low => ThinkingLevel::Low,
        config::ThinkingLevel::Medium => ThinkingLevel::Medium,
        config::ThinkingLevel::High => ThinkingLevel::High,
        config::ThinkingLevel::Xhigh => ThinkingLevel::Xhigh,
        config::ThinkingLevel::Max => ThinkingLevel::Max,
    }
}

// ---------------------------------------------------------------------------------------------
// Tools
// ---------------------------------------------------------------------------------------------

/// The bounds of an argument of a tool: of its length, or of its value.
#[derive(Clone, Copy, Debug, PartialEq, Eq, Structural)]
pub enum ArgumentKind {
    Text { min_length: Option<usize>, max_length: Option<usize> },
    Integer { minimum: usize, maximum: usize },
}

/// An argument of a tool.
#[derive(Clone, Debug)]
pub struct ToolArgument {
    pub name: String,
    pub kind: ArgumentKind,
    pub description: Option<String>,
    pub required: bool,
}

/// A tool that the model may call. It takes no other arguments than these.
#[derive(Clone, Debug)]
pub struct ToolSpec {
    pub name: String,
    pub description: String,
    pub arguments: Vec<ToolArgument>,
}

/// What the contracts say of an argument.
pub struct ArgumentModel {
    pub name: Seq<char>,
    pub kind: ArgumentKind,
    pub description: Option<Seq<char>>,
    pub required: bool,
}

impl View for ToolArgument {
    type V = ArgumentModel;

    open spec fn view(&self) -> ArgumentModel {
        ArgumentModel {
            name: self.name@,
            kind: self.kind,
            description: text::opt_text(self.description),
            required: self.required,
        }
    }
}

/// What the contracts say of a tool.
#[verifier::ext_equal]
pub struct ToolModel {
    pub name: Seq<char>,
    pub description: Seq<char>,
    pub arguments: Seq<ArgumentModel>,
}

impl View for ToolSpec {
    type V = ToolModel;

    open spec fn view(&self) -> ToolModel {
        ToolModel {
            name: self.name@,
            description: self.description@,
            arguments: self.arguments@.map_values(|argument: ToolArgument| argument@),
        }
    }
}

pub open spec fn tool_models(tools: Seq<ToolSpec>) -> Seq<ToolModel> {
    tools.map_values(|tool: ToolSpec| tool@)
}

/// A text argument with bounds on its length.
pub open spec fn text_argument(
    name: Seq<char>,
    min_length: Option<usize>,
    max_length: Option<usize>,
    required: bool,
) -> ArgumentModel {
    ArgumentModel {
        name,
        kind: ArgumentKind::Text { min_length, max_length },
        description: None,
        required,
    }
}

/// A number with bounds, which may be left out.
pub open spec fn number_argument(
    name: Seq<char>,
    minimum: usize,
    maximum: usize,
) -> ArgumentModel {
    ArgumentModel {
        name,
        kind: ArgumentKind::Integer { minimum, maximum },
        description: None,
        required: false,
    }
}

fn make_text(
    name: &str,
    min_length: Option<usize>,
    max_length: Option<usize>,
    required: bool,
) -> (argument: ToolArgument)
    ensures
        argument@ == text_argument(name@, min_length, max_length, required),
{
    ToolArgument {
        name: name.to_owned(),
        kind: ArgumentKind::Text { min_length, max_length },
        description: None,
        required,
    }
}

fn make_number(name: &str, minimum: usize, maximum: usize) -> (argument: ToolArgument)
    ensures
        argument@ == number_argument(name@, minimum, maximum),
{
    ToolArgument {
        name: name.to_owned(),
        kind: ArgumentKind::Integer { minimum, maximum },
        description: None,
        required: false,
    }
}

/// A tool that only serves to try out the connection to the model.
pub open spec fn fixture_tool(name: Seq<char>) -> ToolModel {
    ToolModel {
        name,
        description: "Compatibility fixture for the restricted "@ + name + " tool"@,
        arguments: seq![text_argument("value"@, None, None, true)],
    }
}

fn make_fixture(name: &str) -> (tool: ToolSpec)
    ensures
        tool@ == fixture_tool(name@),
{
    let mut description = "Compatibility fixture for the restricted ".to_owned();
    description.append(name);
    description.append(" tool");
    let mut arguments: Vec<ToolArgument> = Vec::new();
    arguments.push(make_text("value", None, None, true));
    assert(arguments@.map_values(|argument: ToolArgument| argument@) =~= seq![
        text_argument("value"@, None, None, true),
    ]);
    ToolSpec { name: name.to_owned(), description, arguments }
}

/// The tools that only serve to try out the connection to the model.
pub fn compatibility_tools() -> (tools: Vec<ToolSpec>)
    ensures
        tool_models(tools@) == seq![
            fixture_tool("bash"@),
            fixture_tool("read"@),
            fixture_tool("write"@),
        ],
{
    let mut tools: Vec<ToolSpec> = Vec::new();
    tools.push(make_fixture("bash"));
    tools.push(make_fixture("read"));
    tools.push(make_fixture("write"));
    assert(tool_models(tools@) =~= seq![
        fixture_tool("bash"@),
        fixture_tool("read"@),
        fixture_tool("write"@),
    ]);
    tools
}

/// The tool that runs commands.
pub open spec fn bash_tool() -> ToolModel {
    ToolModel {
        name: "bash"@,
        description: "Run one executable-allowlisted command or pipeline without a shell. Pass untrusted or multiline input through stdin."@,
        arguments: seq![
            text_argument("command"@, Some(1), Some(32768), true),
            ArgumentModel {
                name: "cwd"@,
                kind: ArgumentKind::Text { min_length: None, max_length: None },
                description: Some(
                    "Absolute working directory. Use the matched project's canonical path for repository-scoped commands."@,
                ),
                required: false,
            },
            text_argument("stdin"@, None, Some(262144), false),
        ],
    }
}

/// The tool that reads files.
pub open spec fn read_tool() -> ToolModel {
    ToolModel {
        name: "read"@,
        description: "Read line-numbered UTF-8 text beneath approved project and skill roots."@,
        arguments: seq![
            text_argument("path"@, Some(1), Some(4096), true),
            number_argument("offset"@, 1, 1000000),
            number_argument("limit"@, 1, 2000),
        ],
    }
}

/// The tool that replaces the project registry.
pub open spec fn write_tool() -> ToolModel {
    ToolModel {
        name: "write"@,
        description: "Replace the complete project registry with a valid YAML list of canonical repository paths."@,
        arguments: seq![
            text_argument("path"@, Some(1), Some(4096), true),
            text_argument("content"@, None, Some(65536), true),
        ],
    }
}

/// The tools that triage works with.
pub fn triage_tools() -> (tools: Vec<ToolSpec>)
    ensures
        tool_models(tools@) == seq![bash_tool(), read_tool(), write_tool()],
{
    let mut bash: Vec<ToolArgument> = Vec::new();
    bash.push(make_text("command", Some(1), Some(32768), true));
    bash.push(
        ToolArgument {
            name: "cwd".to_owned(),
            kind: ArgumentKind::Text { min_length: None, max_length: None },
            description: Some(
                "Absolute working directory. Use the matched project's canonical path for repository-scoped commands.".to_owned(),
            ),
            required: false,
        },
    );
    bash.push(make_text("stdin", None, Some(262144), false));
    assert(bash@.map_values(|argument: ToolArgument| argument@) =~= bash_tool().arguments);
    let mut read: Vec<ToolArgument> = Vec::new();
    read.push(make_text("path", Some(1), Some(4096), true));
    read.push(make_number("offset", 1, 1000000));
    read.push(make_number("limit", 1, 2000));
    assert(read@.map_values(|argument: ToolArgument| argument@) =~= read_tool().arguments);
    let mut write: Vec<ToolArgument> = Vec::new();
    write.push(make_text("path", Some(1), Some(4096), true));
    write.push(make_text("content", None, Some(65536), true));
    assert(write@.map_values(|argument: ToolArgument| argument@) =~= write_tool().arguments);
    let mut tools: Vec<ToolSpec> = Vec::new();
    tools.push(
        ToolSpec {
            name: "bash".to_owned(),
            description: "Run one executable-allowlisted command or pipeline without a shell. Pass untrusted or multiline input through stdin.".to_owned(),
            arguments: bash,
        },
    );
    tools.push(
        ToolSpec {
            name: "read".to_owned(),
            description: "Read line-numbered UTF-8 text beneath approved project and skill roots.".to_owned(),
            arguments: read,
        },
    );
    tools.push(
        ToolSpec {
            name: "write".to_owned(),
            description: "Replace the complete project registry with a valid YAML list of canonical repository paths.".to_owned(),
            arguments: write,
        },
    );
    assert(tool_models(tools@) =~= seq![bash_tool(), read_tool(), write_tool()]);
    tools
}

/// What the model is told of its tools agrees with what the policies enforce.
pub proof fn law_tool_bounds_match_policies()
    ensures
        bash_tool().arguments[0].kind == (ArgumentKind::Text {
            min_length: Some(1),
            max_length: Some(MAX_COMMAND_UTF16_UNITS),
        }),
        bash_tool().arguments[2].kind == (ArgumentKind::Text {
            min_length: None,
            max_length: Some(MAX_COMMAND_STDIN_BYTES),
        }),
        read_tool().arguments[0].kind == (ArgumentKind::Text {
            min_length: Some(1),
            max_length: Some(MAX_READ_PATH_BYTES),
        }),
        read_tool().arguments[1].kind == (ArgumentKind::Integer {
            minimum: 1,
            maximum: MAX_READ_LINE_NUMBER,
        }),
        read_tool().arguments[2].kind == (ArgumentKind::Integer {
            minimum: 1,
            maximum: MAX_READ_LINES,
        }),
{
}

} // verus!
