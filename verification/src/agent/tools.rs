//! Tool calls: their results, and tools that only count.
use vstd::prelude::*;

use crate::text;

verus! {

pub const MAX_DENIAL_BYTES: usize = 512;

/// A tool that accepts a single value and counts how often it ran.
#[derive(Debug)]
pub struct CountingTool {
    name: String,
    allowed_value: String,
    executions: usize,
}

/// What the contracts say of a counting tool.
pub struct CountingModel {
    pub name: Seq<char>,
    pub allowed_value: Seq<char>,
    pub executions: usize,
}

impl View for CountingTool {
    type V = CountingModel;

    closed spec fn view(&self) -> CountingModel {
        CountingModel {
            name: self.name@,
            allowed_value: self.allowed_value@,
            executions: self.executions,
        }
    }
}

/// What a tool call came to.
#[derive(Clone, Debug, PartialEq, Eq)]
pub struct ToolCallResult {
    pub output: String,
    pub denied: bool,
    pub failed: bool,
}

/// The bytes of a text, cut to the length of a denial.
pub open spec fn denial_bytes(reason: Seq<char>) -> Seq<u8> {
    let bytes = vstd::utf8::encode_utf8(reason);
    if bytes.len() <= MAX_DENIAL_BYTES {
        bytes
    } else {
        bytes.take(MAX_DENIAL_BYTES as int)
    }
}

/// What the contracts say of the result of a call.
#[verifier::ext_equal]
pub struct ResultModel {
    pub output: Seq<char>,
    pub denied: bool,
    pub failed: bool,
}

impl View for ToolCallResult {
    type V = ResultModel;

    open spec fn view(&self) -> ResultModel {
        ResultModel { output: self.output@, denied: self.denied, failed: self.failed }
    }
}

/// The result of a call that was refused for the reason.
pub open spec fn denial(reason: Seq<char>) -> ResultModel {
    ResultModel {
        output: text::lossy_text(denial_bytes(reason)),
        denied: true,
        failed: false,
    }
}

impl ToolCallResult {
    /// The result of a call that ran.
    pub fn allowed(output: String) -> (result: Self)
        ensures
            result.output@ == output@,
            !result.denied,
            !result.failed,
    {
        ToolCallResult { output, denied: false, failed: false }
    }

    /// The result of a call that was refused, with the beginning of the reason.
    pub fn denied(reason: String) -> (result: Self)
        ensures
            result.output@ == text::lossy_text(denial_bytes(reason@)),
            vstd::utf8::encode_utf8(reason@).len() <= MAX_DENIAL_BYTES ==> result.output@
                == reason@,
            result.denied,
            !result.failed,
    {
        let bytes = reason.as_str().as_bytes();
        let total: usize = bytes.len();
        let mut kept: Vec<u8> = Vec::new();
        let mut i: usize = 0;
        while i < total && i < MAX_DENIAL_BYTES
            invariant
                i <= total,
                i <= MAX_DENIAL_BYTES,
                total == bytes@.len(),
                kept@ == bytes@.take(i as int),
            decreases total - i,
        {
            kept.push(bytes[i]);
            assert(kept@ =~= bytes@.take(i + 1));
            i += 1;
        }
        assert(kept@ =~= denial_bytes(reason@));
        proof {
            vstd::utf8::encode_utf8_valid_utf8(reason@);
            vstd::utf8::encode_utf8_decode_utf8(reason@);
        }
        ToolCallResult { output: text::from_utf8_lossy(&kept), denied: true, failed: false }
    }
}

impl CountingTool {
    pub fn new(name: &str, allowed_value: &str) -> (tool: Self)
        ensures
            tool@ == (CountingModel {
                name: name@,
                allowed_value: allowed_value@,
                executions: 0,
            }),
    {
        CountingTool {
            name: name.to_owned(),
            allowed_value: allowed_value.to_owned(),
            executions: 0,
        }
    }

    /// Runs the tool on the value where it is the allowed one.
    pub fn call(&mut self, value: &str) -> (result: ToolCallResult)
        ensures
            !result.failed,
            final(self)@.name == old(self)@.name,
            final(self)@.allowed_value == old(self)@.allowed_value,
            if value@ == old(self)@.allowed_value {
                &&& final(self)@.executions == old(self)@.executions.wrapping_add(1)
                &&& result.output@ == old(self)@.name + " executed"@
                &&& !result.denied
            } else {
                &&& final(self)@.executions == old(self)@.executions
                &&& result.output@ == text::lossy_text(
                    denial_bytes(
                        old(self)@.name + " denied value that failed its enforcement policy"@,
                    ),
                )
                &&& result.denied
            },
    {
        if !text::same(value, self.allowed_value.as_str()) {
            let mut reason = self.name.clone();
            reason.append(" denied value that failed its enforcement policy");
            return ToolCallResult::denied(reason);
        }
        self.executions = self.executions.wrapping_add(1);
        let mut output = self.name.clone();
        output.append(" executed");
        ToolCallResult::allowed(output)
    }

    /// How often the tool ran.
    pub fn executions(&self) -> (count: usize)
        ensures
            count == self@.executions,
    {
        self.executions
    }

    /// The name of the tool.
    pub fn name(&self) -> (name: &str)
        ensures
            name@ == self@.name,
    {
        self.name.as_str()
    }
}

/// A set of counting tools.
#[derive(Debug)]
pub struct CountingTools {
    tools: Vec<CountingTool>,
}

/// What the contracts say of a set of counting tools.
pub open spec fn counting_models(tools: Seq<CountingTool>) -> Seq<CountingModel> {
    tools.map_values(|tool: CountingTool| tool@)
}

impl View for CountingTools {
    type V = Seq<CountingModel>;

    closed spec fn view(&self) -> Seq<CountingModel> {
        counting_models(self.tools@)
    }
}

/// The place of the first tool from `from` on with the name.
pub open spec fn tool_place(tools: Seq<CountingModel>, name: Seq<char>, from: int) -> Option<int>
    decreases tools.len() - from,
{
    if from < 0 || from >= tools.len() {
        None
    } else if tools[from].name == name {
        Some(from)
    } else {
        tool_place(tools, name, from + 1)
    }
}

impl Default for CountingTools {
    fn default() -> (tools: Self)
        ensures
            tools@ == seq![
                CountingModel { name: "bash"@, allowed_value: "allowed"@, executions: 0 },
                CountingModel { name: "read"@, allowed_value: "allowed"@, executions: 0 },
                CountingModel { name: "write"@, allowed_value: "allowed"@, executions: 0 },
            ],
    {
        let mut tools: Vec<CountingTool> = Vec::new();
        tools.push(CountingTool::new("bash", "allowed"));
        tools.push(CountingTool::new("read", "allowed"));
        tools.push(CountingTool::new("write", "allowed"));
        let out = CountingTools { tools };
        assert(out@ =~= seq![
            CountingModel { name: "bash"@, allowed_value: "allowed"@, executions: 0 },
            CountingModel { name: "read"@, allowed_value: "allowed"@, executions: 0 },
            CountingModel { name: "write"@, allowed_value: "allowed"@, executions: 0 },
        ]);
        out
    }
}

impl CountingTools {
    fn place(&self, name: &str) -> (place: Option<usize>)
        ensures
            match place {
                Some(i) => i < self.tools@.len() && tool_place(self@, name@, 0) == Some(i as int),
                None => tool_place(self@, name@, 0) is None,
            },
    {
        let ghost all = self@;
        let mut i: usize = 0;
        while i < self.tools.len()
            invariant
                i <= self.tools@.len() == all.len(),
                all == counting_models(self.tools@),
                all == self@,
                tool_place(all, name@, 0) == tool_place(all, name@, i as int),
            decreases self.tools@.len() - i,
        {
            assert(all[i as int] == self.tools@[i as int]@);
            if text::same(self.tools[i].name(), name) {
                return Some(i);
            }
            i += 1;
        }
        None
    }

    /// Runs the tool with the name on the value.
    pub fn call(&mut self, name: &str, value: &str) -> (result: ToolCallResult)
        ensures
            !result.failed,
            match tool_place(old(self)@, name@, 0) {
                None => {
                    &&& final(self)@ == old(self)@
                    &&& result.denied
                    &&& result.output@ == text::lossy_text(
                        denial_bytes("tool `"@ + name@ + "` is unavailable"@),
                    )
                },
                Some(i) => {
                    let tool = old(self)@[i];
                    let ran = value@ == tool.allowed_value;
                    &&& final(self)@ == old(self)@.update(
                        i,
                        CountingModel {
                            executions: if ran {
                                tool.executions.wrapping_add(1)
                            } else {
                                tool.executions
                            },
                            ..tool
                        },
                    )
                    &&& result.denied == !ran
                    &&& result.output@ == (if ran {
                        tool.name + " executed"@
                    } else {
                        text::lossy_text(
                            denial_bytes(
                                tool.name + " denied value that failed its enforcement policy"@,
                            ),
                        )
                    })
                },
            },
    {
        match self.place(name) {
            Some(i) => {
                let ghost before = self@;
                assert(before[i as int] == self.tools@[i as int]@);
                let result = self.tools[i].call(value);
                assert(self@ =~= before.update(i as int, self.tools@[i as int]@));
                result
            },
            None => {
                let mut reason = "tool `".to_owned();
                reason.append(name);
                reason.append("` is unavailable");
                ToolCallResult::denied(reason)
            },
        }
    }

    /// How often the tool with the name ran.
    pub fn executions(&self, name: &str) -> (count: usize)
        ensures
            count == (match tool_place(self@, name@, 0) {
                Some(i) => self@[i].executions,
                None => 0,
            }),
    {
        match self.place(name) {
            Some(i) => {
                assert(self@[i as int] == self.tools@[i as int]@);
                self.tools[i].executions()
            },
            None => 0,
        }
    }
}

} // verus!
