//! The commands that the agent may run: their grammar, their rules, and their results.
use vstd::prelude::*;

use crate::agent::process::{ProcessFailure, ProcessOutput};
use crate::config::{CommandRule, IntakeConfig, Variable};
use crate::errors::stated;
use crate::paths;
use crate::text;

verus! {

pub const MAX_COMMAND_STDIN_BYTES: usize = 262144;

pub const MAX_COMMAND_UTF16_UNITS: usize = 32768;

pub const MAX_PIPELINE_STAGES: usize = 8;

/// A pipeline: the words of each of its stages.
#[derive(Clone, Debug, PartialEq, Eq)]
pub struct ParsedCommand {
    pub stages: Vec<Vec<String>>,
}

/// What a pipeline came to.
#[derive(Clone, Debug, PartialEq, Eq)]
pub struct CommandResult {
    pub exit_code: i32,
    pub stdout: String,
    pub stderr: String,
    pub truncated: bool,
    pub failure: Option<ProcessFailure>,
}

/// The words of each stage.
pub open spec fn stage_texts(stages: Seq<Vec<String>>) -> Seq<Seq<Seq<char>>> {
    stages.map_values(|stage: Vec<String>| text::texts(stage@))
}

// ---------------------------------------------------------------------------------------------
// Words
// ---------------------------------------------------------------------------------------------

/// The quotes that the tokenizer is inside of.
#[derive(Clone, Copy, PartialEq, Eq, Structural)]
pub enum Quote {
    Bare,
    Single,
    Double,
}

/// How far the tokenizer has come.
pub struct Scan {
    /// The stages so far; the last one is still open.
    pub stages: Seq<Seq<Seq<char>>>,
    /// The word that is being read.
    pub word: Seq<char>,
    /// Whether a word is being read, though it may be empty.
    pub started: bool,
    pub quote: Quote,
    /// Whether the character before was an escape.
    pub escaped: bool,
    /// Whether a comment could begin here.
    pub fresh: bool,
}

/// The tokenizer before the first character.
pub open spec fn scan_start() -> Scan {
    Scan {
        stages: seq![Seq::empty()],
        word: Seq::empty(),
        started: false,
        quote: Quote::Bare,
        escaped: false,
        fresh: true,
    }
}

/// The stages and the word once a word that was begun is closed.
pub open spec fn word_closed(s: Scan) -> Scan {
    if s.started {
        Scan {
            stages: s.stages.drop_last().push(s.stages.last().push(s.word)),
            word: Seq::empty(),
            started: false,
            ..s
        }
    } else {
        s
    }
}

pub open spec fn line_break(c: char) -> bool {
    c == '\r' || c == '\n'
}

/// The characters that a shell gives a meaning of its own, other than quotes and globs.
pub open spec fn shell_operator(c: char) -> bool {
    c == ';' || c == '&' || c == '<' || c == '>' || c == '`' || c == '$' || c == '(' || c == ')'
        || c == '{' || c == '}'
}

pub open spec fn glob(c: char) -> bool {
    c == '?' || c == '*' || c == '['
}

/// What the next character does to the tokenizer, or why it is refused.
pub open spec fn scan_step(s: Scan, c: char) -> Result<Scan, Seq<char>> {
    if s.quote == Quote::Bare && line_break(c) {
        Err("newlines outside quoted arguments are forbidden"@)
    } else if s.escaped {
        let kept = if s.quote == Quote::Double && !(c == '$' || c == '`' || c == '"' || c == '\\'
            || line_break(c)) {
            s.word.push('\\')
        } else {
            s.word
        };
        Ok(
            Scan {
                word: if line_break(c) {
                    kept
                } else {
                    kept.push(c)
                },
                escaped: false,
                fresh: false,
                ..s
            },
        )
    } else if s.quote == Quote::Single {
        if c == '\'' {
            Ok(Scan { quote: Quote::Bare, started: true, ..s })
        } else {
            Ok(Scan { word: s.word.push(c), started: true, ..s })
        }
    } else if s.quote == Quote::Double {
        if c == '\\' {
            Ok(Scan { escaped: true, started: true, ..s })
        } else if c == '"' {
            Ok(Scan { quote: Quote::Bare, started: true, ..s })
        } else if c == '$' || c == '`' {
            Err("shell expansions are forbidden"@)
        } else {
            Ok(Scan { word: s.word.push(c), started: true, ..s })
        }
    } else if c == '\\' {
        Ok(Scan { escaped: true, started: true, fresh: false, ..s })
    } else if c == '\'' {
        Ok(Scan { quote: Quote::Single, started: true, fresh: false, ..s })
    } else if c == '"' {
        Ok(Scan { quote: Quote::Double, started: true, fresh: false, ..s })
    } else if c == '|' {
        let closed = word_closed(s);
        if closed.stages.last().len() == 0 {
            Err("pipeline contains an empty stage"@)
        } else if closed.stages.len() >= MAX_PIPELINE_STAGES {
            Err("pipeline stage count is outside policy bounds"@)
        } else {
            Ok(Scan { stages: closed.stages.push(Seq::empty()), fresh: true, ..closed })
        }
    } else if text::whitespace(c) {
        Ok(Scan { fresh: true, ..word_closed(s) })
    } else if c == '#' && s.fresh {
        Err("shell comments are forbidden"@)
    } else if shell_operator(c) {
        Err("shell operator is forbidden: "@.push(c))
    } else if glob(c) {
        Err("unquoted glob syntax is forbidden"@)
    } else {
        Ok(Scan { word: s.word.push(c), started: true, fresh: false, ..s })
    }
}

/// The tokenizer once it has read the text.
pub open spec fn scanned(s: Scan, source: Seq<char>) -> Result<Scan, Seq<char>>
    decreases source.len(),
{
    if source.len() == 0 {
        Ok(s)
    } else {
        match scan_step(s, source[0]) {
            Ok(next) => scanned(next, source.drop_first()),
            Err(message) => Err(message),
        }
    }
}

/// What the tokenizer makes of the end of the source.
pub open spec fn scan_end(s: Scan) -> Result<Seq<Seq<Seq<char>>>, Seq<char>> {
    if s.escaped || s.quote != Quote::Bare {
        Err("command syntax is invalid: incomplete quote or escape"@)
    } else {
        let closed = word_closed(s);
        if closed.stages.last().len() == 0 {
            Err("pipeline contains an empty stage"@)
        } else if closed.stages.len() > MAX_PIPELINE_STAGES {
            Err("pipeline stage count is outside policy bounds"@)
        } else {
            Ok(closed.stages)
        }
    }
}

/// The words of each stage of a command, or why it is refused.
pub open spec fn tokenized(source: Seq<char>) -> Result<Seq<Seq<Seq<char>>>, Seq<char>> {
    match scanned(scan_start(), source) {
        Ok(s) => scan_end(s),
        Err(message) => Err(message),
    }
}

/// The state of the tokenizer.
struct Tokenizer {
    stages: Vec<Vec<String>>,
    word: String,
    started: bool,
    quote: Quote,
    escaped: bool,
    fresh: bool,
}

impl View for Tokenizer {
    type V = Scan;

    closed spec fn view(&self) -> Scan {
        Scan {
            stages: stage_texts(self.stages@),
            word: self.word@,
            started: self.started,
            quote: self.quote,
            escaped: self.escaped,
            fresh: self.fresh,
        }
    }
}

/// Adds the word to the last stage, where one was begun.
fn finish_word(stages: &mut Vec<Vec<String>>, word: &mut String, started: &mut bool)
    requires
        old(stages)@.len() > 0,
    ensures
        *old(started) ==> stage_texts(final(stages)@) == stage_texts(
            old(stages)@,
        ).drop_last().push(stage_texts(old(stages)@).last().push(old(word)@)) && final(word)@
            == Seq::<char>::empty(),
        !*old(started) ==> final(stages)@ == old(stages)@ && final(word)@ == old(word)@,
        !*final(started),
        final(stages)@.len() == old(stages)@.len(),
{
    if *started {
        let ghost before = stages@;
        let mut finished = String::new();
        std::mem::swap(&mut finished, word);
        match stages.pop() {
            Some(mut last) => {
                let ghost open = last@;
                last.push(finished);
                assert(text::texts(last@) =~= text::texts(open).push(finished@));
                stages.push(last);
                assert(stage_texts(stages@) =~= stage_texts(before).drop_last().push(
                    stage_texts(before).last().push(finished@),
                ));
            },
            None => {},
        }
        *started = false;
    }
}

impl Tokenizer {
    fn start() -> (t: Self)
        ensures
            t@ == scan_start(),
            t.stages@.len() > 0,
    {
        let mut stages: Vec<Vec<String>> = Vec::new();
        stages.push(Vec::new());
        assert(text::texts(stages@[0]@) =~= Seq::<Seq<char>>::empty());
        assert(stage_texts(stages@) =~= seq![Seq::<Seq<char>>::empty()]);
        Tokenizer {
            stages,
            word: String::new(),
            started: false,
            quote: Quote::Bare,
            escaped: false,
            fresh: true,
        }
    }

    fn close_word(&mut self)
        requires
            old(self).stages@.len() > 0,
        ensures
            final(self)@ == word_closed(old(self)@),
            final(self).stages@.len() == old(self).stages@.len(),
    {
        finish_word(&mut self.stages, &mut self.word, &mut self.started);
    }

    fn last_is_empty(&self) -> (b: bool)
        requires
            self.stages@.len() > 0,
        ensures
            b == (self@.stages.last().len() == 0),
    {
        self.stages[self.stages.len() - 1].len() == 0
    }

    fn step(&mut self, c: char) -> (result: Result<(), String>)
        requires
            old(self).stages@.len() > 0,
        ensures
            final(self).stages@.len() > 0,
            match result {
                Ok(()) => scan_step(old(self)@, c) == Ok::<Scan, Seq<char>>(final(self)@),
                Err(message) => scan_step(old(self)@, c) == Err::<Scan, Seq<char>>(message@),
            },
    {
        let breaks = c == '\r' || c == '\n';
        if self.quote == Quote::Bare && breaks {
            return Err("newlines outside quoted arguments are forbidden".to_owned());
        }
        if self.escaped {
            if self.quote == Quote::Double && !(c == '$' || c == '`' || c == '"' || c == '\\'
                || breaks) {
                self.word.push('\\');
            }
            if !breaks {
                self.word.push(c);
            }
            self.fresh = false;
            self.escaped = false;
            return Ok(());
        }
        match self.quote {
            Quote::Single => {
                if c == '\'' {
                    self.quote = Quote::Bare;
                } else {
                    self.word.push(c);
                }
                self.started = true;
                return Ok(());
            },
            Quote::Double => {
                if c == '\\' {
                    self.escaped = true;
                } else if c == '"' {
                    self.quote = Quote::Bare;
                } else if c == '$' || c == '`' {
                    return Err("shell expansions are forbidden".to_owned());
                } else {
                    self.word.push(c);
                }
                self.started = true;
                return Ok(());
            },
            Quote::Bare => {},
        }
        if c == '\\' {
            self.escaped = true;
            self.started = true;
            self.fresh = false;
        } else if c == '\'' {
            self.quote = Quote::Single;
            self.started = true;
            self.fresh = false;
        } else if c == '"' {
            self.quote = Quote::Double;
            self.started = true;
            self.fresh = false;
        } else if c == '|' {
            self.close_word();
            if self.last_is_empty() {
                return Err("pipeline contains an empty stage".to_owned());
            }
            if self.stages.len() >= MAX_PIPELINE_STAGES {
                return Err("pipeline stage count is outside policy bounds".to_owned());
            }
            let ghost before = self.stages@;
            let stage: Vec<String> = Vec::new();
            assert(text::texts(stage@) =~= Seq::<Seq<char>>::empty());
            self.stages.push(stage);
            assert(stage_texts(self.stages@) =~= stage_texts(before).push(
                Seq::<Seq<char>>::empty(),
            ));
            self.fresh = true;
        } else if text::is_whitespace(c) {
            self.close_word();
            self.fresh = true;
        } else if c == '#' && self.fresh {
            return Err("shell comments are forbidden".to_owned());
        } else if c == ';' || c == '&' || c == '<' || c == '>' || c == '`' || c == '$' || c == '('
            || c == ')' || c == '{' || c == '}' {
            let mut message = "shell operator is forbidden: ".to_owned();
            message.push(c);
            return Err(message);
        } else if c == '?' || c == '*' || c == '[' {
            return Err("unquoted glob syntax is forbidden".to_owned());
        } else {
            self.word.push(c);
            self.started = true;
            self.fresh = false;
        }
        Ok(())
    }
}

/// Splits a command into the words of its stages, and refuses whatever a shell would expand,
/// redirect or run beside it.
pub fn tokenize(source: &str) -> (result: Result<Vec<Vec<String>>, String>)
    ensures
        match result {
            Ok(stages) => tokenized(source@) == Ok::<Seq<Seq<Seq<char>>>, Seq<char>>(
                stage_texts(stages@),
            ),
            Err(message) => tokenized(source@) == Err::<Seq<Seq<Seq<char>>>, Seq<char>>(
                message@,
            ),
        },
{
    let chars = text::chars_of(source);
    let mut t = Tokenizer::start();
    let mut i: usize = 0;
    assert(chars@.skip(0) =~= source@);
    while i < chars.len()
        invariant
            i <= chars@.len(),
            t.stages@.len() > 0,
            scanned(t@, chars@.skip(i as int)) == scanned(scan_start(), source@),
        decreases chars@.len() - i,
    {
        assert(chars@.skip(i as int)[0] == chars@[i as int]);
        assert(chars@.skip(i as int).drop_first() =~= chars@.skip(i + 1));
        if let Err(message) = t.step(chars[i]) {
            return Err(message);
        }
        i += 1;
    }
    if t.escaped || t.quote != Quote::Bare {
        return Err("command syntax is invalid: incomplete quote or escape".to_owned());
    }
    t.close_word();
    if t.last_is_empty() {
        return Err("pipeline contains an empty stage".to_owned());
    }
    if t.stages.len() > MAX_PIPELINE_STAGES {
        return Err("pipeline stage count is outside policy bounds".to_owned());
    }
    Ok(t.stages)
}

// ---------------------------------------------------------------------------------------------
// Syntax
// ---------------------------------------------------------------------------------------------

/// A node of the syntax tree of a command. The nodes of a tree are listed parents first, each
/// followed by what lies below it.
#[derive(Clone, Debug, PartialEq, Eq)]
pub struct SyntaxNode {
    pub kind: String,
    pub named: bool,
    pub error: bool,
    pub missing: bool,
    /// Whether the node or one below it is an error.
    pub has_error: bool,
    /// How many nodes lie above this one.
    pub depth: u32,
}

/// What the contracts say of a node.
pub struct NodeModel {
    pub kind: Seq<char>,
    pub named: bool,
    pub error: bool,
    pub missing: bool,
    pub has_error: bool,
    pub depth: u32,
}

impl View for SyntaxNode {
    type V = NodeModel;

    open spec fn view(&self) -> NodeModel {
        NodeModel {
            kind: self.kind@,
            named: self.named,
            error: self.error,
            missing: self.missing,
            has_error: self.has_error,
            depth: self.depth,
        }
    }
}

/// The models of the nodes.
pub open spec fn node_models(nodes: Seq<SyntaxNode>) -> Seq<NodeModel> {
    nodes.map_values(|node: SyntaxNode| node@)
}

/// Why a command has no syntax tree.
#[derive(Clone, Copy, Debug, PartialEq, Eq, Structural)]
pub enum SyntaxFailure {
    Grammar,
    NoTree,
}

/// What `tree_sitter::Parser::parse` gives for a source in the Bash grammar: the nodes of the
/// tree, parents first.
pub uninterp spec fn bash_tree(source: Seq<char>) -> Result<Seq<NodeModel>, SyntaxFailure>;

/// `tree_sitter::Parser::parse` with the grammar of `tree_sitter_bash`: the nodes of the tree
/// it builds, in the order of `TreeCursor::goto_descendant`, which is parents first, with the
/// depth that `TreeCursor::depth` gives. The tree depends on the source alone.
#[verifier::external_body]
fn parse_bash(source: &str) -> (result: Result<Vec<SyntaxNode>, SyntaxFailure>)
    ensures
        match result {
            Ok(nodes) => bash_tree(source@) == Ok::<Seq<NodeModel>, SyntaxFailure>(
                node_models(nodes@),
            ),
            Err(failure) => bash_tree(source@) == Err::<Seq<NodeModel>, SyntaxFailure>(failure),
        },
{
    let mut parser = tree_sitter::Parser::new();
    parser.set_language(&tree_sitter_bash::LANGUAGE.into()).map_err(|_| SyntaxFailure::Grammar)?;
    let tree = parser.parse(source, None).ok_or(SyntaxFailure::NoTree)?;
    let mut cursor = tree.walk();
    Ok((0..tree.root_node().descendant_count()).map(|index| {
        cursor.goto_descendant(index);
        let (node, depth) = (cursor.node(), cursor.depth());
        let (named, error, missing) = (node.is_named(), node.is_error(), node.is_missing());
        let (kind, has_error) = (node.kind().to_string(), node.has_error());
        SyntaxNode { kind, named, error, missing, has_error, depth }
    }).collect())
}

/// The places from `from` on of the children of a node: named ones, or the others.
pub open spec fn children(
    nodes: Seq<NodeModel>,
    parent: int,
    from: int,
    named: bool,
) -> Seq<int>
    decreases nodes.len() - from,
{
    if from < 0 || from >= nodes.len() || nodes[from].depth <= nodes[parent].depth {
        Seq::empty()
    } else if nodes[from].depth == nodes[parent].depth + 1 && nodes[from].named == named {
        seq![from] + children(nodes, parent, from + 1, named)
    } else {
        children(nodes, parent, from + 1, named)
    }
}

/// Whether the parser recovered from an error here.
pub open spec fn recovered(node: NodeModel) -> bool {
    node.has_error || node.error || node.missing
}

/// The first problem from `from` on among the children without a name: an error, or a token
/// that is not allowed here.
pub open spec fn token_problem(
    nodes: Seq<NodeModel>,
    parent: int,
    from: int,
    allowed: Option<Seq<char>>,
) -> Option<Seq<char>>
    decreases nodes.len() - from,
{
    if from < 0 || from >= nodes.len() || nodes[from].depth <= nodes[parent].depth {
        None
    } else if nodes[from].depth == nodes[parent].depth + 1 && !nodes[from].named && (
    nodes[from].error || nodes[from].missing || allowed != Some(nodes[from].kind)) {
        Some("unexpected parser node: "@ + nodes[from].kind)
    } else {
        token_problem(nodes, parent, from + 1, allowed)
    }
}

/// The kinds of nodes that stand for literal text.
pub open spec fn literal_kind(kind: Seq<char>) -> bool {
    kind == "command_name"@ || kind == "word"@ || kind == "number"@ || kind == "string"@ || kind
        == "string_content"@ || kind == "raw_string"@ || kind == "concatenation"@
}

/// The only token that may stand in a node of literal text.
pub open spec fn literal_token(kind: Seq<char>) -> Option<Seq<char>> {
    if kind == "string"@ {
        Some("\""@)
    } else {
        None
    }
}

/// The first of two problems.
pub open spec fn first_of(a: Option<Seq<char>>, b: Option<Seq<char>>) -> Option<Seq<char>> {
    if a is Some {
        a
    } else {
        b
    }
}

/// What keeps the node from being literal text.
pub open spec fn literal_problem(nodes: Seq<NodeModel>, index: int) -> Option<Seq<char>>
    decreases nodes.len() - index, 0int,
{
    if index < 0 || index >= nodes.len() {
        None
    } else if recovered(nodes[index]) {
        Some("command syntax is invalid or recovered by the parser"@)
    } else if !literal_kind(nodes[index].kind) {
        Some("shell construct is forbidden: "@ + nodes[index].kind)
    } else {
        first_of(
            token_problem(nodes, index, index + 1, literal_token(nodes[index].kind)),
            literals_problem(nodes, index, index + 1),
        )
    }
}

/// What keeps the named children from `from` on from being literal text.
pub open spec fn literals_problem(
    nodes: Seq<NodeModel>,
    parent: int,
    from: int,
) -> Option<Seq<char>>
    decreases nodes.len() - from, 1int,
{
    if from < 0 || from >= nodes.len() || nodes[from].depth <= nodes[parent].depth {
        None
    } else if nodes[from].depth == nodes[parent].depth + 1 && nodes[from].named {
        first_of(literal_problem(nodes, from), literals_problem(nodes, parent, from + 1))
    } else {
        literals_problem(nodes, parent, from + 1)
    }
}

/// What keeps the node from being a plain command of so many words.
pub open spec fn command_problem(
    nodes: Seq<NodeModel>,
    index: int,
    words: nat,
) -> Option<Seq<char>> {
    let named = children(nodes, index, index + 1, true);
    if nodes[index].kind != "command"@ || recovered(nodes[index]) {
        Some("pipeline contains a forbidden construct"@)
    } else if named.len() == 0 || nodes[named[0]].kind != "command_name"@ {
        Some("assignments and empty commands are forbidden"@)
    } else if named.len() != words {
        Some("parser and command tokenizer disagree on argument structure"@)
    } else {
        literals_problem(nodes, index, index + 1)
    }
}

/// The first problem of the commands from `from` on.
pub open spec fn commands_problem(
    nodes: Seq<NodeModel>,
    commands: Seq<int>,
    stages: Seq<Seq<Seq<char>>>,
    from: int,
) -> Option<Seq<char>>
    decreases commands.len() - from,
{
    if from < 0 || from >= commands.len() {
        None
    } else {
        first_of(
            command_problem(nodes, commands[from], stages[from].len()),
            commands_problem(nodes, commands, stages, from + 1),
        )
    }
}

/// Whether one of the nodes is of another kind.
pub open spec fn other_kind(nodes: Seq<NodeModel>, places: Seq<int>, kind: Seq<char>) -> bool {
    exists|k: int| 0 <= k < places.len() && nodes[#[trigger] places[k]].kind != kind
}

/// What keeps the list of commands from being the stages that the tokenizer saw.
pub open spec fn stages_problem(
    nodes: Seq<NodeModel>,
    commands: Seq<int>,
    stages: Seq<Seq<Seq<char>>>,
) -> Option<Seq<char>> {
    if commands.len() != stages.len() || commands.len() == 0 || commands.len()
        > MAX_PIPELINE_STAGES {
        Some("parser and command tokenizer disagree on pipeline structure"@)
    } else {
        commands_problem(nodes, commands, stages, 0)
    }
}

/// What keeps the tree from being one plain command or one pipeline of plain commands with
/// the words that the tokenizer saw.
pub open spec fn tree_problem(
    nodes: Seq<NodeModel>,
    stages: Seq<Seq<Seq<char>>>,
) -> Option<Seq<char>> {
    if nodes.len() == 0 || nodes[0].kind != "program"@ || recovered(nodes[0]) {
        Some("command syntax is invalid or recovered by the parser"@)
    } else {
        let named = children(nodes, 0, 1, true);
        if named.len() != 1 {
            Some("only one command or one pipeline is permitted"@)
        } else if nodes[named[0]].kind == "command"@ {
            stages_problem(nodes, named, stages)
        } else if nodes[named[0]].kind == "pipeline"@ {
            let top = named[0];
            let commands = children(nodes, top, top + 1, true);
            if token_problem(nodes, top, top + 1, Some("|"@)) is Some {
                token_problem(nodes, top, top + 1, Some("|"@))
            } else if other_kind(nodes, commands, "command"@) {
                Some("pipeline contains a forbidden construct"@)
            } else {
                stages_problem(nodes, commands, stages)
            }
        } else {
            Some("shell construct is forbidden: "@ + nodes[named[0]].kind)
        }
    }
}

fn named_children(nodes: &Vec<SyntaxNode>, parent: usize) -> (places: Vec<usize>)
    requires
        parent < nodes@.len(),
    ensures
        places@.map_values(|p: usize| p as int) == children(
            node_models(nodes@),
            parent as int,
            parent + 1,
            true,
        ),
        forall|k: int| 0 <= k < places@.len() ==> parent < (#[trigger] places@[k]) < nodes@.len(),
{
    let ghost model = node_models(nodes@);
    let mut places: Vec<usize> = Vec::new();
    let total: usize = nodes.len();
    let mut i: usize = parent + 1;
    assert(places@.map_values(|p: usize| p as int) =~= Seq::<int>::empty());
    assert(Seq::<int>::empty() + children(model, parent as int, parent + 1, true)
        =~= children(model, parent as int, parent + 1, true));
    while i < nodes.len() && nodes[i].depth > nodes[parent].depth
        invariant
            parent < i <= nodes@.len(),
            model == node_models(nodes@),
            forall|k: int|
                0 <= k < places@.len() ==> parent < (#[trigger] places@[k]) < nodes@.len(),
            places@.map_values(|p: usize| p as int) + children(
                model,
                parent as int,
                i as int,
                true,
            ) == children(model, parent as int, parent + 1, true),
        decreases nodes@.len() - i,
    {
        assert(model[i as int] == nodes@[i as int]@);
        assert(model[parent as int] == nodes@[parent as int]@);
        let ghost before = places@.map_values(|p: usize| p as int);
        let ghost rest = children(model, parent as int, i + 1, true);
        if nodes[i].depth - 1 == nodes[parent].depth && nodes[i].named {
            places.push(i);
            assert(places@.map_values(|p: usize| p as int) =~= before.push(i as int));
            assert(before.push(i as int) + rest =~= before + (seq![i as int] + rest));
        }
        i += 1;
    }
    assert(i < nodes@.len() ==> model[i as int] == nodes@[i as int]@ && model[parent as int]
        == nodes@[parent as int]@);
    assert(children(model, parent as int, i as int, true) =~= Seq::<int>::empty());
    assert(places@.map_values(|p: usize| p as int) =~= children(
        model,
        parent as int,
        parent + 1,
        true,
    ));
    places
}

fn ensure_anonymous_children(
    nodes: &Vec<SyntaxNode>,
    parent: usize,
    allowed: Option<&str>,
) -> (result: Result<(), String>)
    requires
        parent < nodes@.len(),
    ensures
        stated(result) == token_problem(
            node_models(nodes@),
            parent as int,
            parent + 1,
            text::opt_str(allowed),
        ),
{
    let ghost model = node_models(nodes@);
    let ghost token = text::opt_str(allowed);
    let total: usize = nodes.len();
    let mut i: usize = parent + 1;
    while i < nodes.len() && nodes[i].depth > nodes[parent].depth
        invariant
            parent < i <= nodes@.len(),
            model == node_models(nodes@),
            token == text::opt_str(allowed),
            token_problem(model, parent as int, i as int, token) == token_problem(
                model,
                parent as int,
                parent + 1,
                token,
            ),
        decreases nodes@.len() - i,
    {
        assert(model[i as int] == nodes@[i as int]@);
        assert(model[parent as int] == nodes@[parent as int]@);
        if nodes[i].depth - 1 == nodes[parent].depth && !nodes[i].named {
            let fits = match allowed {
                Some(token) => text::same(nodes[i].kind.as_str(), token),
                None => false,
            };
            if nodes[i].error || nodes[i].missing || !fits {
                let mut message = "unexpected parser node: ".to_owned();
                message.append(nodes[i].kind.as_str());
                return Err(message);
            }
        }
        i += 1;
    }
    assert(i < nodes@.len() ==> model[i as int] == nodes@[i as int]@ && model[parent as int]
        == nodes@[parent as int]@);
    Ok(())
}

fn is_recovered(node: &SyntaxNode) -> (b: bool)
    ensures
        b == recovered(node@),
{
    node.has_error || node.error || node.missing
}

fn is_literal_kind(kind: &str) -> (b: bool)
    ensures
        b == literal_kind(kind@),
{
    text::same(kind, "command_name") || text::same(kind, "word") || text::same(kind, "number")
        || text::same(kind, "string") || text::same(kind, "string_content") || text::same(
        kind,
        "raw_string",
    ) || text::same(kind, "concatenation")
}

fn validate_literal_children(nodes: &Vec<SyntaxNode>, parent: usize) -> (result: Result<
    (),
    String,
>)
    requires
        parent < nodes@.len(),
    ensures
        stated(result) == literals_problem(node_models(nodes@), parent as int, parent + 1),
    decreases nodes@.len() - parent, 0int,
{
    let ghost model = node_models(nodes@);
    let total: usize = nodes.len();
    let mut i: usize = parent + 1;
    while i < nodes.len() && nodes[i].depth > nodes[parent].depth
        invariant
            parent < i <= nodes@.len(),
            model == node_models(nodes@),
            literals_problem(model, parent as int, i as int) == literals_problem(
                model,
                parent as int,
                parent + 1,
            ),
        decreases nodes@.len() - i,
    {
        assert(model[i as int] == nodes@[i as int]@);
        assert(model[parent as int] == nodes@[parent as int]@);
        if nodes[i].depth - 1 == nodes[parent].depth && nodes[i].named {
            if let Err(message) = validate_literal_node(nodes, i) {
                return Err(message);
            }
        }
        i += 1;
    }
    assert(i < nodes@.len() ==> model[i as int] == nodes@[i as int]@ && model[parent as int]
        == nodes@[parent as int]@);
    Ok(())
}

fn validate_literal_node(nodes: &Vec<SyntaxNode>, index: usize) -> (result: Result<(), String>)
    requires
        index < nodes@.len(),
    ensures
        stated(result) == literal_problem(node_models(nodes@), index as int),
    decreases nodes@.len() - index, 1int,
{
    let ghost model = node_models(nodes@);
    assert(model[index as int] == nodes@[index as int]@);
    let kind = nodes[index].kind.as_str();
    if is_recovered(&nodes[index]) {
        return Err("command syntax is invalid or recovered by the parser".to_owned());
    }
    if !is_literal_kind(kind) {
        let mut message = "shell construct is forbidden: ".to_owned();
        message.append(kind);
        return Err(message);
    }
    let token = if text::same(kind, "string") {
        Some("\"")
    } else {
        None
    };
    if let Err(message) = ensure_anonymous_children(nodes, index, token) {
        return Err(message);
    }
    validate_literal_children(nodes, index)
}

fn validate_command_node(nodes: &Vec<SyntaxNode>, index: usize, words: usize) -> (result: Result<
    (),
    String,
>)
    requires
        index < nodes@.len(),
    ensures
        stated(result) == command_problem(node_models(nodes@), index as int, words as nat),
{
    let ghost model = node_models(nodes@);
    assert(model[index as int] == nodes@[index as int]@);
    if !text::same(nodes[index].kind.as_str(), "command") || is_recovered(&nodes[index]) {
        return Err("pipeline contains a forbidden construct".to_owned());
    }
    let named = named_children(nodes, index);
    let ghost places = named@.map_values(|p: usize| p as int);
    assert(places == children(model, index as int, index + 1, true));
    assert(places.len() == named@.len());
    assert(named@.len() > 0 ==> places[0] == named@[0] as int && model[places[0]]
        == nodes@[places[0]]@);
    if named.len() == 0 || !text::same(nodes[named[0]].kind.as_str(), "command_name") {
        return Err("assignments and empty commands are forbidden".to_owned());
    }
    if named.len() != words {
        return Err("parser and command tokenizer disagree on argument structure".to_owned());
    }
    validate_literal_children(nodes, index)
}

fn validate_stages(
    nodes: &Vec<SyntaxNode>,
    commands: &Vec<usize>,
    stages: &Vec<Vec<String>>,
) -> (result: Result<(), String>)
    requires
        forall|k: int| 0 <= k < commands@.len() ==> (#[trigger] commands@[k]) < nodes@.len(),
    ensures
        stated(result) == stages_problem(
            node_models(nodes@),
            commands@.map_values(|p: usize| p as int),
            stage_texts(stages@),
        ),
{
    let ghost model = node_models(nodes@);
    let ghost places = commands@.map_values(|p: usize| p as int);
    let ghost words = stage_texts(stages@);
    if commands.len() != stages.len() || commands.len() == 0 || commands.len()
        > MAX_PIPELINE_STAGES {
        return Err("parser and command tokenizer disagree on pipeline structure".to_owned());
    }
    let mut i: usize = 0;
    while i < commands.len()
        invariant
            i <= commands@.len() == stages@.len(),
            commands@.len() <= MAX_PIPELINE_STAGES,
            commands@.len() > 0,
            model == node_models(nodes@),
            places == commands@.map_values(|p: usize| p as int),
            words == stage_texts(stages@),
            forall|k: int| 0 <= k < commands@.len() ==> (#[trigger] commands@[k]) < nodes@.len(),
            commands_problem(model, places, words, 0) == commands_problem(
                model,
                places,
                words,
                i as int,
            ),
        decreases commands@.len() - i,
    {
        assert(places[i as int] == commands@[i as int] as int);
        assert(words[i as int].len() == stages@[i as int]@.len());
        if let Err(message) = validate_command_node(nodes, commands[i], stages[i].len()) {
            return Err(message);
        }
        i += 1;
    }
    Ok(())
}

/// Holds a syntax tree against the stages that the tokenizer saw.
pub fn validate_tree(nodes: &Vec<SyntaxNode>, stages: &Vec<Vec<String>>) -> (result: Result<
    (),
    String,
>)
    ensures
        stated(result) == tree_problem(node_models(nodes@), stage_texts(stages@)),
{
    let ghost model = node_models(nodes@);
    assert(nodes@.len() > 0 ==> model[0] == nodes@[0]@);
    if nodes.len() == 0 || !text::same(nodes[0].kind.as_str(), "program") || is_recovered(
        &nodes[0],
    ) {
        return Err("command syntax is invalid or recovered by the parser".to_owned());
    }
    let named = named_children(nodes, 0);
    let ghost places = named@.map_values(|p: usize| p as int);
    assert(places.len() == named@.len());
    if named.len() != 1 {
        return Err("only one command or one pipeline is permitted".to_owned());
    }
    let top = named[0];
    assert(places[0] == top as int && model[top as int] == nodes@[top as int]@);
    let kind = nodes[top].kind.as_str();
    if text::same(kind, "command") {
        return validate_stages(nodes, &named, stages);
    }
    if !text::same(kind, "pipeline") {
        let mut message = "shell construct is forbidden: ".to_owned();
        message.append(kind);
        return Err(message);
    }
    if let Err(message) = ensure_anonymous_children(nodes, top, Some("|")) {
        return Err(message);
    }
    let commands = named_children(nodes, top);
    let ghost listed = commands@.map_values(|p: usize| p as int);
    let mut i: usize = 0;
    while i < commands.len()
        invariant
            i <= commands@.len(),
            model == node_models(nodes@),
            listed == commands@.map_values(|p: usize| p as int),
            forall|k: int| 0 <= k < commands@.len() ==> (#[trigger] commands@[k]) < nodes@.len(),
            forall|k: int|
                0 <= k < i ==> model[#[trigger] listed[k]].kind == "command"@,
            nodes@.len() > 0,
            model[0].kind == "program"@,
            !recovered(model[0]),
            places == children(model, 0, 1, true),
            places.len() == 1,
            places[0] == top as int,
            model[top as int].kind == "pipeline"@,
            model[top as int].kind != "command"@,
            listed == children(model, top as int, top + 1, true),
            token_problem(model, top as int, top + 1, Some("|"@)) is None,
        decreases commands@.len() - i,
    {
        assert(listed[i as int] == commands@[i as int] as int);
        assert(model[commands@[i as int] as int] == nodes@[commands@[i as int] as int]@);
        if !text::same(nodes[commands[i]].kind.as_str(), "command") {
            assert(other_kind(model, listed, "command"@));
            return Err("pipeline contains a forbidden construct".to_owned());
        }
        i += 1;
    }
    assert(!other_kind(model, listed, "command"@));
    validate_stages(nodes, &commands, stages)
}

/// What keeps a command from having the tree that its words call for.
pub open spec fn syntax_problem(
    tree: Result<Seq<NodeModel>, SyntaxFailure>,
    stages: Seq<Seq<Seq<char>>>,
) -> Option<Seq<char>> {
    match tree {
        Ok(nodes) => tree_problem(nodes, stages),
        Err(SyntaxFailure::Grammar) => Some("load pinned Bash grammar"@),
        Err(SyntaxFailure::NoTree) => Some("Bash parser did not produce a syntax tree"@),
    }
}

/// Parses the command and holds its syntax tree against the stages that the tokenizer saw.
pub fn validate_ast(source: &str, stages: &Vec<Vec<String>>) -> (result: Result<(), String>)
    ensures
        stated(result) == syntax_problem(bash_tree(source@), stage_texts(stages@)),
{
    match parse_bash(source) {
        Ok(nodes) => validate_tree(&nodes, stages),
        Err(SyntaxFailure::Grammar) => Err("load pinned Bash grammar".to_owned()),
        Err(SyntaxFailure::NoTree) => {
            Err("Bash parser did not produce a syntax tree".to_owned())
        },
    }
}

// ---------------------------------------------------------------------------------------------
// Filters
// ---------------------------------------------------------------------------------------------

/// What `regex::RegexBuilder::build` says against a pattern.
pub uninterp spec fn regex_problem(pattern: Seq<char>, ignore_case: bool) -> Option<Seq<char>>;

/// What `regex::Regex::replace_all` makes of a text.
pub uninterp spec fn regex_replaced(
    pattern: Seq<char>,
    ignore_case: bool,
    value: Seq<char>,
    replacement: Seq<char>,
) -> Seq<char>;

/// `regex::RegexBuilder::build`: whether the pattern compiles, and what is wrong with it where
/// it does not.
#[verifier::external_body]
pub(crate) fn check_regex(pattern: &str, ignore_case: bool) -> (result: Result<(), String>)
    ensures
        stated(result) == regex_problem(pattern@, ignore_case),
{
    regex::RegexBuilder::new(pattern)
        .case_insensitive(ignore_case)
        .build()
        .map(|_| ())
        .map_err(|error| error.to_string())
}

/// `regex::Regex::replace_all`: the text with every match of the pattern replaced. None where
/// the pattern does not compile.
#[verifier::external_body]
pub(crate) fn replace_matches(
    pattern: &str,
    ignore_case: bool,
    value: &str,
    replacement: &str,
) -> (out: Option<String>)
    ensures
        match out {
            Some(out) => regex_problem(pattern@, ignore_case) is None && out@ == regex_replaced(
                pattern@,
                ignore_case,
                value@,
                replacement@,
            ),
            None => regex_problem(pattern@, ignore_case) is Some,
        },
{
    let built = regex::RegexBuilder::new(pattern).case_insensitive(ignore_case).build();
    built.ok().map(|regex| regex.replace_all(value, replacement).into_owned())
}

/// A pattern whose matches are never shown.
#[derive(Clone, Debug, PartialEq, Eq)]
pub struct Filter {
    pub pattern: String,
    pub ignore_case: bool,
}

/// The patterns and whether they ignore case.
pub open spec fn filter_models(filters: Seq<Filter>) -> Seq<(Seq<char>, bool)> {
    filters.map_values(|filter: Filter| (filter.pattern@, filter.ignore_case))
}

/// The filters that every policy has.
pub open spec fn built_in_filters() -> Seq<(Seq<char>, bool)> {
    seq![
        (r"(https?://)[^/\s:@]+:[^@\s/]+@"@, true),
        (r"\b(?:sk-[a-zA-Z0-9_-]{16,}|gh[opurs]_[a-zA-Z0-9]{20,})\b"@, false),
        (r"\b(?:bearer|token|password|secret)\s*[:=]\s*\S+"@, true),
    ]
}

/// The filters of a policy with these patterns of its own.
pub open spec fn policy_filters(patterns: Seq<Seq<char>>) -> Seq<(Seq<char>, bool)> {
    built_in_filters() + patterns.map_values(|pattern: Seq<char>| (pattern, true))
}

/// The first filter from `from` on that does not compile, and what is said of it.
pub open spec fn filters_problem(
    filters: Seq<(Seq<char>, bool)>,
    from: int,
) -> Option<Seq<char>>
    decreases filters.len() - from,
{
    if from < 0 || from >= filters.len() {
        None
    } else {
        match regex_problem(filters[from].0, filters[from].1) {
            Some(message) => if from < 3 {
                Some(message)
            } else {
                Some("invalid sensitive command pattern: "@ + filters[from].0)
            },
            None => filters_problem(filters, from + 1),
        }
    }
}

/// The text once the filters, in order, have replaced what they match.
pub open spec fn filtered(filters: Seq<(Seq<char>, bool)>, value: Seq<char>) -> Seq<char>
    decreases filters.len(),
{
    if filters.len() == 0 {
        value
    } else {
        regex_replaced(
            filters.last().0,
            filters.last().1,
            filtered(filters.drop_last(), value),
            "[REDACTED]"@,
        )
    }
}

// ---------------------------------------------------------------------------------------------
// The policy
// ---------------------------------------------------------------------------------------------

/// Which commands may run, where, and what of their output may be seen.
#[derive(Debug)]
pub struct CommandPolicy {
    working_roots: Vec<String>,
    path: Vec<String>,
    rules: Vec<CommandRule>,
    timeout_seconds: u64,
    max_output_bytes: usize,
    filters: Vec<Filter>,
}

/// What the contracts say of a policy.
pub struct PolicyModel {
    pub working_roots: Seq<Seq<char>>,
    pub path: Seq<Seq<char>>,
    pub executables: Seq<Seq<char>>,
    pub timeout_seconds: u64,
    pub max_output_bytes: usize,
    pub filters: Seq<(Seq<char>, bool)>,
}

impl View for CommandPolicy {
    type V = PolicyModel;

    closed spec fn view(&self) -> PolicyModel {
        PolicyModel {
            working_roots: text::texts(self.working_roots@),
            path: text::texts(self.path@),
            executables: crate::config::executables(self.rules@),
            timeout_seconds: self.timeout_seconds,
            max_output_bytes: self.max_output_bytes,
            filters: filter_models(self.filters@),
        }
    }
}

/// The paths in normal form, as seen from the current directory.
pub open spec fn normal_paths(
    list: Seq<Seq<char>>,
    current_directory: Seq<char>,
) -> Seq<Seq<char>> {
    list.map_values(|path: Seq<char>| paths::absolute_form(path, current_directory))
}

/// Whether the stage names an executable that the policy allows.
pub open spec fn stage_allowed(policy: PolicyModel, stage: Seq<Seq<char>>) -> bool {
    policy.executables.contains(stage_executable(stage))
}

/// The executable of a stage.
pub open spec fn stage_executable(stage: Seq<Seq<char>>) -> Seq<char> {
    if stage.len() == 0 {
        ""@
    } else {
        stage[0]
    }
}

/// The first stage from `from` on that names an executable that is not allowed.
pub open spec fn stages_refused(
    policy: PolicyModel,
    stages: Seq<Seq<Seq<char>>>,
    from: int,
) -> Option<Seq<char>>
    decreases stages.len() - from,
{
    if from < 0 || from >= stages.len() {
        None
    } else if !stage_allowed(policy, stages[from]) {
        Some("executable is not allowed: "@ + stage_executable(stages[from]))
    } else {
        stages_refused(policy, stages, from + 1)
    }
}

/// The stages of a command that the policy allows in the directory, or why it does not. The
/// tree is the syntax tree of the command.
pub open spec fn authorized(
    policy: PolicyModel,
    command: Seq<char>,
    cwd: Seq<char>,
    current_directory: Seq<char>,
    tree: Result<Seq<NodeModel>, SyntaxFailure>,
) -> Result<Seq<Seq<Seq<char>>>, Seq<char>> {
    if text::utf16_units(command) == 0 || text::utf16_units(command) > MAX_COMMAND_UTF16_UNITS {
        Err("command length is outside policy bounds"@)
    } else if command.contains('\0') {
        Err("NUL bytes are forbidden"@)
    } else {
        match tokenized(command) {
            Err(message) => Err(message),
            Ok(stages) => if !paths::within(
                paths::absolute_form(cwd, current_directory),
                policy.working_roots,
                current_directory,
            ) {
                Err("working directory is outside approved roots: "@ + cwd)
            } else {
                match first_of(syntax_problem(tree, stages), stages_refused(policy, stages, 0)) {
                    Some(message) => Err(message),
                    None => Ok(stages),
                }
            },
        }
    }
}

fn has_nul(chars: &Vec<char>) -> (found: bool)
    ensures
        found == chars@.contains('\0'),
{
    let mut i: usize = 0;
    while i < chars.len()
        invariant
            i <= chars@.len(),
            forall|k: int| 0 <= k < i ==> chars@[k] != '\0',
        decreases chars@.len() - i,
    {
        if chars[i] == '\0' {
            return true;
        }
        i += 1;
    }
    false
}

fn built_in_filter_list() -> (filters: Vec<Filter>)
    ensures
        filter_models(filters@) == built_in_filters(),
{
    let mut filters: Vec<Filter> = Vec::new();
    filters.push(
        Filter { pattern: r"(https?://)[^/\s:@]+:[^@\s/]+@".to_owned(), ignore_case: true },
    );
    filters.push(
        Filter {
            pattern: r"\b(?:sk-[a-zA-Z0-9_-]{16,}|gh[opurs]_[a-zA-Z0-9]{20,})\b".to_owned(),
            ignore_case: false,
        },
    );
    filters.push(
        Filter {
            pattern: r"\b(?:bearer|token|password|secret)\s*[:=]\s*\S+".to_owned(),
            ignore_case: true,
        },
    );
    assert(filter_models(filters@) =~= built_in_filters());
    filters
}

fn filter_list(patterns: &Vec<String>) -> (filters: Vec<Filter>)
    ensures
        filter_models(filters@) == policy_filters(text::texts(patterns@)),
{
    let mut filters = built_in_filter_list();
    let ghost all = text::texts(patterns@);
    let mut i: usize = 0;
    assert(policy_filters(all.take(0)) =~= built_in_filters());
    while i < patterns.len()
        invariant
            i <= patterns@.len(),
            all == text::texts(patterns@),
            filter_models(filters@) == policy_filters(all.take(i as int)),
        decreases patterns@.len() - i,
    {
        let ghost before = filters@;
        filters.push(Filter { pattern: patterns[i].clone(), ignore_case: true });
        assert(filter_models(filters@) =~= filter_models(before).push((all[i as int], true)));
        assert(policy_filters(all.take(i + 1)) =~= policy_filters(all.take(i as int)).push(
            (all[i as int], true),
        ));
        i += 1;
    }
    assert(all.take(i as int) =~= all);
    filters
}

fn check_filters(filters: &Vec<Filter>) -> (result: Result<(), String>)
    ensures
        stated(result) == filters_problem(filter_models(filters@), 0),
        result is Ok ==> forall|k: int|
            0 <= k < filters@.len() ==> regex_problem(
                (#[trigger] filters@[k]).pattern@,
                filters@[k].ignore_case,
            ) is None,
{
    let ghost all = filter_models(filters@);
    let mut i: usize = 0;
    while i < filters.len()
        invariant
            i <= filters@.len(),
            all == filter_models(filters@),
            filters_problem(all, 0) == filters_problem(all, i as int),
            forall|k: int|
                0 <= k < i ==> regex_problem(
                    (#[trigger] filters@[k]).pattern@,
                    filters@[k].ignore_case,
                ) is None,
        decreases filters@.len() - i,
    {
        assert(all[i as int] == (filters@[i as int].pattern@, filters@[i as int].ignore_case));
        if let Err(message) = check_regex(filters[i].pattern.as_str(), filters[i].ignore_case) {
            if i < 3 {
                return Err(message);
            }
            let mut refused = "invalid sensitive command pattern: ".to_owned();
            refused.append(filters[i].pattern.as_str());
            return Err(refused);
        }
        i += 1;
    }
    Ok(())
}

fn copy_rules(rules: &Vec<CommandRule>) -> (out: Vec<CommandRule>)
    ensures
        crate::config::executables(out@) == crate::config::executables(rules@),
{
    let ghost all = crate::config::executables(rules@);
    let mut out: Vec<CommandRule> = Vec::new();
    let mut i: usize = 0;
    while i < rules.len()
        invariant
            i <= rules@.len(),
            all == crate::config::executables(rules@),
            crate::config::executables(out@) == all.take(i as int),
        decreases rules@.len() - i,
    {
        let ghost before = out@;
        out.push(CommandRule { executable: rules[i].executable.clone() });
        assert(crate::config::executables(out@) =~= crate::config::executables(before).push(
            all[i as int],
        ));
        assert(all.take(i + 1) =~= all.take(i as int).push(all[i as int]));
        i += 1;
    }
    assert(all.take(i as int) =~= all);
    out
}

fn normalize_all(list: &Vec<String>, current_directory: &str) -> (out: Vec<String>)
    ensures
        text::texts(out@) == normal_paths(text::texts(list@), current_directory@),
{
    let ghost all = normal_paths(text::texts(list@), current_directory@);
    let mut out: Vec<String> = Vec::new();
    let mut i: usize = 0;
    while i < list.len()
        invariant
            i <= list@.len(),
            all == normal_paths(text::texts(list@), current_directory@),
            text::texts(out@) == all.take(i as int),
        decreases list@.len() - i,
    {
        let ghost before = out@;
        let path = paths::absolute_path(list[i].as_str(), current_directory);
        assert(path@ == all[i as int]);
        out.push(path);
        assert(text::texts(out@) =~= text::texts(before).push(all[i as int]));
        assert(all.take(i + 1) =~= all.take(i as int).push(all[i as int]));
        i += 1;
    }
    assert(all.take(i as int) =~= all);
    out
}

impl CommandPolicy {
    /// The filters of a policy all compile.
    #[verifier::type_invariant]
    spec fn filters_compile(self) -> bool {
        forall|k: int|
            0 <= k < self.filters@.len() ==> regex_problem(
                (#[trigger] self.filters@[k]).pattern@,
                self.filters@[k].ignore_case,
            ) is None
    }

    /// The policy that a configuration states, with working roots that are canonical already.
    pub fn new(
        config: &IntakeConfig,
        canonical_working_roots: Vec<String>,
        current_directory: &str,
    ) -> (result: Result<Self, String>)
        ensures
            match result {
                Ok(policy) => policy@ == (PolicyModel {
                    working_roots: text::texts(canonical_working_roots@),
                    path: normal_paths(
                        text::texts(config.commands.path@),
                        current_directory@,
                    ),
                    executables: crate::config::executables(config.commands.rules@),
                    timeout_seconds: config.commands.timeout_seconds,
                    max_output_bytes: config.commands.max_output_bytes,
                    filters: policy_filters(text::texts(config.commands.sensitive_patterns@)),
                }) && filters_problem(policy@.filters, 0) is None,
                Err(message) => filters_problem(
                    policy_filters(text::texts(config.commands.sensitive_patterns@)),
                    0,
                ) == Some(message@),
            },
    {
        let filters = filter_list(&config.commands.sensitive_patterns);
        if let Err(message) = check_filters(&filters) {
            return Err(message);
        }
        Ok(
            CommandPolicy {
                working_roots: canonical_working_roots,
                path: normalize_all(&config.commands.path, current_directory),
                rules: copy_rules(&config.commands.rules),
                timeout_seconds: config.commands.timeout_seconds,
                max_output_bytes: config.commands.max_output_bytes,
                filters,
            },
        )
    }

    /// How long a stage may run.
    pub fn timeout_seconds(&self) -> (seconds: u64)
        ensures
            seconds == self@.timeout_seconds,
    {
        self.timeout_seconds
    }

    /// How much output of a stage is kept.
    pub fn max_output_bytes(&self) -> (bytes: usize)
        ensures
            bytes == self@.max_output_bytes,
    {
        self.max_output_bytes
    }

    /// The directories in which executables are looked for, in order.
    pub fn search_path(&self) -> (list: Vec<String>)
        ensures
            text::texts(list@) == self@.path,
    {
        text::copy_all(&self.path)
    }

    fn authorize_stage(&self, argv: &Vec<String>) -> (result: Result<(), String>)
        ensures
            match result {
                Ok(()) => stage_allowed(self@, text::texts(argv@)),
                Err(message) => !stage_allowed(self@, text::texts(argv@)) && message@
                    == "executable is not allowed: "@ + stage_executable(text::texts(argv@)),
            },
    {
        let executable = if argv.len() > 0 {
            argv[0].as_str()
        } else {
            ""
        };
        let ghost allowed = crate::config::executables(self.rules@);
        let mut i: usize = 0;
        while i < self.rules.len()
            invariant
                i <= self.rules@.len(),
                allowed == crate::config::executables(self.rules@),
                allowed == self@.executables,
                executable@ == stage_executable(text::texts(argv@)),
                forall|k: int| 0 <= k < i ==> allowed[k] != executable@,
            decreases self.rules@.len() - i,
        {
            assert(allowed[i as int] == self.rules@[i as int].executable@);
            if text::same(self.rules[i].executable.as_str(), executable) {
                return Ok(());
            }
            i += 1;
        }
        let mut message = "executable is not allowed: ".to_owned();
        message.append(executable);
        Err(message)
    }

    /// Whether the command may run in the directory: it is short enough, has only plain words,
    /// reads the same to the tokenizer and to the Bash grammar, names only executables that
    /// have a rule, and the directory lies within the approved roots.
    pub fn parse_and_authorize(
        &self,
        command: &str,
        cwd: &str,
        current_directory: &str,
    ) -> (result: Result<ParsedCommand, String>)
        ensures
            match result {
                Ok(parsed) => authorized(
                    self@,
                    command@,
                    cwd@,
                    current_directory@,
                    bash_tree(command@),
                ) == Ok::<Seq<Seq<Seq<char>>>, Seq<char>>(stage_texts(parsed.stages@)),
                Err(message) => authorized(
                    self@,
                    command@,
                    cwd@,
                    current_directory@,
                    bash_tree(command@),
                ) == Err::<Seq<Seq<Seq<char>>>, Seq<char>>(message@),
            },
    {
        let chars = text::chars_of(command);
        let units: u128 = text::utf16_count(&chars);
        if units == 0 || units > MAX_COMMAND_UTF16_UNITS as u128 {
            return Err("command length is outside policy bounds".to_owned());
        }
        if has_nul(&chars) {
            return Err("NUL bytes are forbidden".to_owned());
        }
        let stages = match tokenize(command) {
            Ok(stages) => stages,
            Err(message) => {
                return Err(message);
            },
        };
        let resolved = paths::absolute_path(cwd, current_directory);
        if !paths::is_within(resolved.as_str(), &self.working_roots, current_directory) {
            let mut message = "working directory is outside approved roots: ".to_owned();
            message.append(cwd);
            return Err(message);
        }
        if let Err(message) = validate_ast(command, &stages) {
            return Err(message);
        }
        let ghost words = stage_texts(stages@);
        let mut i: usize = 0;
        while i < stages.len()
            invariant
                i <= stages@.len(),
                words == stage_texts(stages@),
                authorized(self@, command@, cwd@, current_directory@, bash_tree(command@)) == (
                match stages_refused(self@, words, i as int) {
                    Some(message) => Err::<Seq<Seq<Seq<char>>>, Seq<char>>(message),
                    None => Ok(words),
                }),
            decreases stages@.len() - i,
        {
            assert(words[i as int] == text::texts(stages@[i as int]@));
            if let Err(message) = self.authorize_stage(&stages[i]) {
                return Err(message);
            }
            i += 1;
        }
        Ok(ParsedCommand { stages })
    }

    /// The text with everything that a filter matches replaced.
    pub fn filter(&self, value: &str) -> (out: String)
        ensures
            out@ == filtered(self@.filters, value@),
    {
        proof {
            use_type_invariant(&*self);
        }
        let ghost all = filter_models(self.filters@);
        let mut out = value.to_owned();
        let mut i: usize = 0;
        while i < self.filters.len()
            invariant
                i <= self.filters@.len(),
                all == filter_models(self.filters@),
                self.filters_compile(),
                out@ == filtered(all.take(i as int), value@),
            decreases self.filters@.len() - i,
        {
            assert(all.take(i + 1).drop_last() =~= all.take(i as int));
            assert(all.take(i + 1).last() == (
                self.filters@[i as int].pattern@,
                self.filters@[i as int].ignore_case,
            ));
            if let Some(next) = replace_matches(
                self.filters[i].pattern.as_str(),
                self.filters[i].ignore_case,
                out.as_str(),
                "[REDACTED]",
            ) {
                out = next;
            }
            i += 1;
        }
        assert(all.take(i as int) =~= all);
        out
    }

    /// The environment that a command sees, given the home directory.
    pub fn environment(&self, home: &str) -> (environment: Vec<Variable>)
        ensures
            variable_models(environment@) == command_environment(self@, home@),
    {
        let mut environment: Vec<Variable> = Vec::new();
        environment.push(named("PATH", text::join_strings(&self.path, ":").as_str()));
        environment.push(named("HOME", home));
        environment.push(named("LANG", "C.UTF-8"));
        environment.push(named("LC_ALL", "C.UTF-8"));
        environment.push(named("NO_COLOR", "1"));
        environment.push(named("TERM", "dumb"));
        assert(variable_models(environment@) =~= command_environment(self@, home@));
        environment
    }
}

/// The names and values of variables.
pub open spec fn variable_models(environment: Seq<Variable>) -> Seq<(Seq<char>, Seq<char>)> {
    environment.map_values(|v: Variable| (v.name@, v.value@))
}

/// The environment that a command sees.
pub open spec fn command_environment(
    policy: PolicyModel,
    home: Seq<char>,
) -> Seq<(Seq<char>, Seq<char>)> {
    seq![
        ("PATH"@, text::join(policy.path, ":"@)),
        ("HOME"@, home),
        ("LANG"@, "C.UTF-8"@),
        ("LC_ALL"@, "C.UTF-8"@),
        ("NO_COLOR"@, "1"@),
        ("TERM"@, "dumb"@),
    ]
}

fn named(name: &str, value: &str) -> (variable: Variable)
    ensures
        variable.name@ == name@,
        variable.value@ == value@,
{
    Variable { name: name.to_owned(), value: value.to_owned() }
}

// ---------------------------------------------------------------------------------------------
// Execution
// ---------------------------------------------------------------------------------------------

/// Checks the size of the standard input of a command.
pub fn check_input(bytes: Option<usize>) -> (result: Result<(), String>)
    ensures
        stated(result) == (match bytes {
            Some(n) if n > MAX_COMMAND_STDIN_BYTES => Some("command stdin exceeds policy bounds"@),
            _ => None,
        }),
{
    match bytes {
        Some(n) => if n > MAX_COMMAND_STDIN_BYTES {
            Err("command stdin exceeds policy bounds".to_owned())
        } else {
            Ok(())
        },
        None => Ok(()),
    }
}

/// What was found of an executable in one directory of the search path.
#[derive(Debug)]
pub struct Candidate {
    /// Whether the entry could be inspected at all.
    pub present: bool,
    pub symlink: bool,
    pub regular: bool,
    /// The permission bits.
    pub mode: u32,
    /// The canonical path of the entry, or why there is none.
    pub canonical: Result<String, String>,
    /// The canonical path of the directory, or else the directory itself.
    pub directory: String,
}

impl Candidate {
    /// Whether the entry is a plain file that someone may execute.
    pub open spec fn runnable(self) -> bool {
        self.present && !self.symlink && self.regular && self.mode & 0o111 != 0
    }

    /// Whether the canonical entry lies in the directory it was found in.
    pub open spec fn settled(self, current_directory: Seq<char>) -> bool {
        self.canonical matches Ok(path) && paths::within(
            path@,
            seq![self.directory@],
            current_directory,
        )
    }
}

/// The outcome of a search: a path, an error, or nothing found from `from` on.
pub open spec fn chosen(
    candidates: Seq<Candidate>,
    current_directory: Seq<char>,
    from: int,
) -> Option<Result<Seq<char>, Seq<char>>>
    decreases candidates.len() - from,
{
    if from < 0 || from >= candidates.len() {
        None
    } else if !candidates[from].runnable() {
        chosen(candidates, current_directory, from + 1)
    } else {
        match candidates[from].canonical {
            Err(message) => Some(Err(message@)),
            Ok(path) => if candidates[from].settled(current_directory) {
                Some(Ok(path@))
            } else {
                chosen(candidates, current_directory, from + 1)
            },
        }
    }
}

/// The executable that the fixed search path holds under the name.
pub fn resolve_executable(
    name: &str,
    candidates: &Vec<Candidate>,
    current_directory: &str,
) -> (result: Result<String, String>)
    ensures
        match chosen(candidates@, current_directory@, 0) {
            Some(Ok(path)) => result matches Ok(out) && out@ == path,
            Some(Err(message)) => result matches Err(out) && out@ == message,
            None => result matches Err(out) && out@
                == "allowed executable is unavailable on the fixed PATH: "@ + name@,
        },
{
    let mut i: usize = 0;
    while i < candidates.len()
        invariant
            i <= candidates@.len(),
            chosen(candidates@, current_directory@, 0) == chosen(
                candidates@,
                current_directory@,
                i as int,
            ),
        decreases candidates@.len() - i,
    {
        let candidate = &candidates[i];
        if candidate.present && !candidate.symlink && candidate.regular && candidate.mode & 0o111
            != 0 {
            match &candidate.canonical {
                Err(message) => {
                    return Err(message.clone());
                },
                Ok(path) => {
                    let mut roots: Vec<String> = Vec::new();
                    roots.push(candidate.directory.clone());
                    assert(text::texts(roots@) =~= seq![candidate.directory@]);
                    if paths::is_within(path.as_str(), &roots, current_directory) {
                        return Ok(path.clone());
                    }
                },
            }
        }
        i += 1;
    }
    let mut message = "allowed executable is unavailable on the fixed PATH: ".to_owned();
    message.append(name);
    Err(message)
}

/// A stage of a pipeline: the program that is run, and what it is given.
#[derive(Debug)]
pub struct Stage {
    pub executable: String,
    pub arguments: Vec<String>,
}

/// What the contracts say of a stage.
#[verifier::ext_equal]
pub struct StageModel {
    pub executable: Seq<char>,
    pub arguments: Seq<Seq<char>>,
}

impl View for Stage {
    type V = StageModel;

    open spec fn view(&self) -> StageModel {
        StageModel { executable: self.executable@, arguments: text::texts(self.arguments@) }
    }
}

/// What the contracts say of the stages.
pub open spec fn stage_models(stages: Seq<Stage>) -> Seq<StageModel> {
    stages.map_values(|stage: Stage| stage@)
}

/// The stage that runs the program in the place of the first of the words.
pub open spec fn staged(executable: Seq<char>, words: Seq<Seq<char>>) -> StageModel {
    StageModel {
        executable,
        arguments: if words.len() == 0 {
            Seq::empty()
        } else {
            words.skip(1)
        },
    }
}

/// The stages of a command whose programs were found.
pub open spec fn staging(commands: Seq<Seq<Seq<char>>>, executables: Seq<Seq<char>>) -> Seq<
    StageModel,
> {
    Seq::new(
        if commands.len() <= executables.len() {
            commands.len()
        } else {
            executables.len()
        },
        |k: int| staged(executables[k], commands[k]),
    )
}

/// A pipeline that is being run, one stage after the other.
#[derive(Debug)]
pub struct Pipeline {
    pub stages: Vec<Stage>,
    /// The place of the stage that runs next; behind the last one where none does.
    pub place: usize,
    /// What the next stage reads.
    pub stdin: Option<Vec<u8>>,
    pub stderr: String,
    pub truncated: bool,
    pub exit_code: i32,
    pub failure: Option<ProcessFailure>,
}

/// The exit code shown for a process.
pub open spec fn shown_code(output: ProcessOutput) -> i32 {
    match output.exit_code {
        Some(code) => code,
        None => (-1) as i32,
    }
}

/// Whether no further stage runs after this output.
pub open spec fn halts(output: ProcessOutput) -> bool {
    output.failure is Some || output.exit_code != Some(0i32)
}

impl Pipeline {
    /// The pipeline of an accepted command before its first stage: each stage runs the program
    /// that was found for it, with the words behind its name.
    pub fn start(command: &ParsedCommand, executables: &Vec<String>, input: Option<Vec<u8>>) -> (
    pipeline: Self)
        ensures
            stage_models(pipeline.stages@) == staging(
                stage_texts(command.stages@),
                text::texts(executables@),
            ),
            pipeline.place == 0,
            pipeline.stdin == input,
            pipeline.stderr@ == Seq::<char>::empty(),
            !pipeline.truncated,
            pipeline.exit_code == 0,
            pipeline.failure is None,
    {
        let mut total: usize = command.stages.len();
        if executables.len() < total {
            total = executables.len();
        }
        let mut stages: Vec<Stage> = Vec::new();
        let mut i: usize = 0;
        while i < total
            invariant
                i <= total <= command.stages@.len(),
                total <= executables@.len(),
                stages@.len() == i,
                forall|k: int|
                    0 <= k < i ==> (#[trigger] stages@[k])@ == staged(
                        executables@[k]@,
                        text::texts(command.stages@[k]@),
                    ),
            decreases total - i,
        {
            let words = &command.stages[i];
            let count: usize = words.len();
            let mut arguments: Vec<String> = Vec::new();
            let mut j: usize = 1;
            while j < count
                invariant
                    1 <= j,
                    count == words@.len(),
                    count >= 1 ==> j <= count,
                    count >= 1 ==> arguments@.len() == j - 1,
                    count == 0 ==> arguments@.len() == 0,
                    forall|m: int|
                        0 <= m < arguments@.len() ==> (#[trigger] arguments@[m])@ == words@[m
                            + 1]@,
                decreases count - j,
            {
                arguments.push(words[j].as_str().to_owned());
                j += 1;
            }
            let stage = Stage { executable: executables[i].as_str().to_owned(), arguments };
            assert(stage@.arguments =~= staged(
                executables@[i as int]@,
                text::texts(words@),
            ).arguments);
            stages.push(stage);
            i += 1;
        }
        assert(stage_models(stages@) =~= staging(
            stage_texts(command.stages@),
            text::texts(executables@),
        ));
        Pipeline {
            stages,
            place: 0,
            stdin: input,
            stderr: String::new(),
            truncated: false,
            exit_code: 0,
            failure: None,
        }
    }

    /// The stage that runs next. None where the last one ran or one of them failed.
    pub fn next(&self) -> (stage: Option<&Stage>)
        ensures
            stage is Some <==> self.place < self.stages@.len(),
            stage matches Some(stage) ==> stage == self.stages@[self.place as int],
    {
        if self.place < self.stages.len() {
            Some(&self.stages[self.place])
        } else {
            None
        }
    }

    /// Takes in what a stage left behind. The next stage reads its output, unless it failed.
    pub fn absorb(&mut self, output: ProcessOutput)
        requires
            old(self).place < old(self).stages@.len(),
        ensures
            final(self).stages == old(self).stages,
            final(self).place == (if halts(output) {
                old(self).stages@.len()
            } else {
                (old(self).place + 1) as nat
            }),
            final(self).stdin == Some(output.stdout),
            final(self).stderr@ == old(self).stderr@ + text::lossy_text(output.stderr@) + (
            if output.stderr_truncated {
                "\n[stderr truncated]"@
            } else {
                Seq::<char>::empty()
            }),
            final(self).truncated == (old(self).truncated || output.stdout_truncated
                || output.stderr_truncated),
            final(self).exit_code == shown_code(output),
            final(self).failure == output.failure,
    {
        let ghost before = self.stderr@;
        self.exit_code = match output.exit_code {
            Some(code) => code,
            None => -1,
        };
        self.failure = output.failure;
        self.stderr.append(text::from_utf8_lossy(&output.stderr).as_str());
        if output.stderr_truncated {
            self.stderr.append("\n[stderr truncated]");
        } else {
            assert(self.stderr@ =~= before + text::lossy_text(output.stderr@)
                + Seq::<char>::empty());
        }
        self.truncated = self.truncated || output.stdout_truncated || output.stderr_truncated;
        let succeeded = match output.exit_code {
            Some(code) => code == 0,
            None => false,
        };
        let total: usize = self.stages.len();
        if output.failure.is_some() || !succeeded {
            self.place = total;
        } else {
            self.place = self.place + 1;
        }
        self.stdin = Some(output.stdout);
    }

    /// What the pipeline came to, with everything filtered that the policy hides.
    pub fn finish(self, policy: &CommandPolicy) -> (result: CommandResult)
        ensures
            result.exit_code == self.exit_code,
            result.stdout@ == filtered(
                policy@.filters,
                text::lossy_text(
                    match self.stdin {
                        Some(bytes) => bytes@,
                        None => Seq::empty(),
                    },
                ),
            ),
            result.stderr@ == filtered(policy@.filters, self.stderr@),
            result.truncated == self.truncated,
            result.failure == self.failure,
    {
        let bytes = match self.stdin {
            Some(bytes) => bytes,
            None => Vec::new(),
        };
        CommandResult {
            exit_code: self.exit_code,
            stdout: policy.filter(text::from_utf8_lossy(&bytes).as_str()),
            stderr: policy.filter(self.stderr.as_str()),
            truncated: self.truncated,
            failure: self.failure,
        }
    }
}

// ---------------------------------------------------------------------------------------------
// Laws
// ---------------------------------------------------------------------------------------------

/// Between one and eight stages, of which all but the last have words.
spec fn scan_bounded(s: Scan) -> bool {
    &&& 1 <= s.stages.len() <= MAX_PIPELINE_STAGES
    &&& forall|k: int| 0 <= k < s.stages.len() - 1 ==> (#[trigger] s.stages[k]).len() > 0
}

proof fn lemma_step_bounded(s: Scan, c: char)
    requires
        scan_bounded(s),
    ensures
        scan_step(s, c) matches Ok(next) ==> scan_bounded(next),
        scan_bounded(word_closed(s)),
{
    let closed = word_closed(s);
    assert forall|k: int| 0 <= k < closed.stages.len() - 1 implies (
    #[trigger] closed.stages[k]).len() > 0 by {
        assert(closed.stages[k] == s.stages[k]);
    }
    if let Ok(next) = scan_step(s, c) {
        assert forall|k: int| 0 <= k < next.stages.len() - 1 implies (
        #[trigger] next.stages[k]).len() > 0 by {
            if k < closed.stages.len() - 1 {
                assert(closed.stages[k].len() > 0);
                assert(s.stages[k].len() > 0);
            }
        }
    }
}

proof fn lemma_scanned_bounded(s: Scan, source: Seq<char>)
    requires
        scan_bounded(s),
    ensures
        scanned(s, source) matches Ok(end) ==> scan_bounded(end),
    decreases source.len(),
{
    if source.len() > 0 {
        lemma_step_bounded(s, source[0]);
        if let Ok(next) = scan_step(s, source[0]) {
            lemma_scanned_bounded(next, source.drop_first());
        }
    }
}

/// A command that is accepted has between one and eight stages, and none of them is empty.
pub proof fn law_accepted_stages_are_bounded(source: Seq<char>)
    ensures
        tokenized(source) matches Ok(stages) ==> {
            &&& 1 <= stages.len() <= MAX_PIPELINE_STAGES
            &&& forall|k: int| 0 <= k < stages.len() ==> (#[trigger] stages[k]).len() > 0
        },
{
    lemma_scanned_bounded(scan_start(), source);
    if let Ok(s) = scanned(scan_start(), source) {
        lemma_step_bounded(s, ' ');
        if let Ok(stages) = tokenized(source) {
            assert forall|k: int| 0 <= k < stages.len() implies (
            #[trigger] stages[k]).len() > 0 by {
                assert(stages.last() == stages[stages.len() - 1]);
            }
        }
    }
}

proof fn lemma_scanned_add(s: Scan, a: Seq<char>, b: Seq<char>)
    ensures
        scanned(s, a + b) == (match scanned(s, a) {
            Ok(next) => scanned(next, b),
            Err(message) => Err(message),
        }),
    decreases a.len(),
{
    if a.len() == 0 {
        assert(a + b =~= b);
    } else {
        assert((a + b).drop_first() =~= a.drop_first() + b);
        if let Ok(next) = scan_step(s, a[0]) {
            lemma_scanned_add(next, a.drop_first(), b);
        }
    }
}

/// A character as it stands inside single quotes: itself, or, where it is such a quote, one that
/// is escaped between the end of the quotes and their next beginning.
pub open spec fn quoted_char(c: char) -> Seq<char> {
    if c == '\'' {
        seq!['\'', '\\', '\'', '\'']
    } else {
        seq![c]
    }
}

/// The word as it stands inside single quotes.
pub open spec fn quoted_inside(word: Seq<char>) -> Seq<char>
    decreases word.len(),
{
    if word.len() == 0 {
        Seq::empty()
    } else {
        quoted_inside(word.drop_last()) + quoted_char(word.last())
    }
}

/// The word in single quotes.
pub open spec fn quoted(word: Seq<char>) -> Seq<char> {
    seq!['\''] + quoted_inside(word) + seq!['\'']
}

/// The words in single quotes with spaces between them.
pub open spec fn quoted_command(words: Seq<Seq<char>>) -> Seq<char> {
    text::join(words.map_values(|word: Seq<char>| quoted(word)), seq![' '])
}

/// The stages, each with its words in single quotes, with bars between them.
pub open spec fn quoted_pipeline(stages: Seq<Seq<Seq<char>>>) -> Seq<char> {
    text::join(
        stages.map_values(|words: Seq<Seq<char>>| quoted_command(words)),
        seq![' ', '|', ' '],
    )
}

proof fn lemma_inside_quotes(s: Scan, word: Seq<char>)
    requires
        s.quote == Quote::Single,
        !s.escaped,
        s.started,
        !s.fresh,
    ensures
        scanned(s, quoted_inside(word)) == Ok::<Scan, Seq<char>>(
            Scan { word: s.word + word, ..s },
        ),
    decreases word.len(),
{
    if word.len() == 0 {
        assert(s.word + word =~= s.word);
    } else {
        let front = word.drop_last();
        let c = word.last();
        let read = Scan { word: s.word + front, ..s };
        let end = Scan { word: s.word + word, ..s };
        lemma_inside_quotes(s, front);
        lemma_scanned_add(s, quoted_inside(front), quoted_char(c));
        assert(read.word.push(c) =~= end.word);
        let text = quoted_char(c);
        if c == '\'' {
            let bare = Scan { quote: Quote::Bare, ..read };
            let escaped = Scan { escaped: true, ..bare };
            let pushed = Scan { word: end.word, ..bare };
            assert(scan_step(read, text[0]) == Ok::<Scan, Seq<char>>(bare));
            assert(scan_step(bare, text[1]) == Ok::<Scan, Seq<char>>(escaped));
            assert(scan_step(escaped, text[2]) == Ok::<Scan, Seq<char>>(pushed));
            assert(scan_step(pushed, text[3]) == Ok::<Scan, Seq<char>>(end));
            let second = text.drop_first();
            let third = second.drop_first();
            let fourth = third.drop_first();
            assert(second[0] == text[1] && third[0] == text[2] && fourth[0] == text[3]);
            assert(scanned(end, fourth.drop_first()) == Ok::<Scan, Seq<char>>(end));
            assert(scanned(pushed, fourth) == Ok::<Scan, Seq<char>>(end));
            assert(scanned(escaped, third) == Ok::<Scan, Seq<char>>(end));
            assert(scanned(bare, second) == Ok::<Scan, Seq<char>>(end));
        } else {
            assert(scan_step(read, text[0]) == Ok::<Scan, Seq<char>>(end));
            assert(scanned(end, text.drop_first()) == Ok::<Scan, Seq<char>>(end));
        }
        assert(scanned(read, text) == Ok::<Scan, Seq<char>>(end));
    }
}

proof fn lemma_quoted_word(s: Scan, word: Seq<char>)
    requires
        s.quote == Quote::Bare,
        !s.escaped,
        !s.started,
        s.word.len() == 0,
    ensures
        scanned(s, quoted(word)) == Ok::<Scan, Seq<char>>(
            Scan { word, started: true, fresh: false, ..s },
        ),
{
    let open = Scan { quote: Quote::Single, started: true, fresh: false, ..s };
    let read = Scan { word, ..open };
    assert(s.word + word =~= word);
    lemma_scanned_add(s, seq!['\''] + quoted_inside(word), seq!['\'']);
    lemma_scanned_add(s, seq!['\''], quoted_inside(word));
    assert(scanned(open, seq!['\''].drop_first()) == Ok::<Scan, Seq<char>>(open));
    assert(scanned(s, seq!['\'']) == Ok::<Scan, Seq<char>>(open));
    lemma_inside_quotes(open, word);
    let closed = Scan { quote: Quote::Bare, ..read };
    assert(scan_step(read, '\'') == Ok::<Scan, Seq<char>>(closed));
    assert(scanned(closed, seq!['\''].drop_first()) == Ok::<Scan, Seq<char>>(closed));
    assert(scanned(read, seq!['\'']) == Ok::<Scan, Seq<char>>(closed));
}

/// A character as it stands inside double quotes: itself, behind a backslash where it would
/// otherwise have a meaning there.
pub open spec fn double_quoted_char(c: char) -> Seq<char> {
    if c == '$' || c == '`' || c == '"' || c == '\\' {
        seq!['\\', c]
    } else {
        seq![c]
    }
}

/// The word as it stands inside double quotes.
pub open spec fn double_quoted_inside(word: Seq<char>) -> Seq<char>
    decreases word.len(),
{
    if word.len() == 0 {
        Seq::empty()
    } else {
        double_quoted_inside(word.drop_last()) + double_quoted_char(word.last())
    }
}

/// The word in double quotes.
pub open spec fn double_quoted(word: Seq<char>) -> Seq<char> {
    seq!['"'] + double_quoted_inside(word) + seq!['"']
}

/// The word with a backslash before each of its characters.
pub open spec fn backslashed(word: Seq<char>) -> Seq<char>
    decreases word.len(),
{
    if word.len() == 0 {
        Seq::empty()
    } else {
        backslashed(word.drop_last()) + seq!['\\', word.last()]
    }
}

/// Whether the character has no meaning of its own outside quotes.
pub open spec fn plain_char(c: char) -> bool {
    &&& !text::whitespace(c)
    &&& c != '\'' && c != '"' && c != '\\' && c != '|'
    &&& c != ';' && c != '&' && c != '<' && c != '>' && c != '`' && c != '$'
    &&& c != '(' && c != ')' && c != '{' && c != '}'
    &&& c != '?' && c != '*' && c != '['
}

/// Whether the form is one in which the word can be written: in single quotes, in double quotes,
/// with backslashes where it holds no line break, or as it is where it holds nothing that has a
/// meaning of its own.
pub open spec fn spells(form: Seq<char>, word: Seq<char>) -> bool {
    ||| form == quoted(word)
    ||| form == double_quoted(word)
    ||| form == backslashed(word) && word.len() > 0 && !word.contains('\n') && !word.contains('\r')
    ||| form == word && word.len() > 0 && word[0] != '#' && forall|k: int|
        0 <= k < word.len() ==> plain_char(#[trigger] word[k])
}

/// The forms of the words, with spaces between them.
pub open spec fn spaced(forms: Seq<Seq<char>>) -> Seq<char> {
    text::join(forms, seq![' '])
}

/// The forms of the words of each stage, with bars between the stages.
pub open spec fn piped(stages: Seq<Seq<Seq<char>>>) -> Seq<char> {
    text::join(stages.map_values(|forms: Seq<Seq<char>>| spaced(forms)), seq![' ', '|', ' '])
}

proof fn lemma_inside_double_quotes(s: Scan, word: Seq<char>)
    requires
        s.quote == Quote::Double,
        !s.escaped,
        s.started,
        !s.fresh,
    ensures
        scanned(s, double_quoted_inside(word)) == Ok::<Scan, Seq<char>>(
            Scan { word: s.word + word, ..s },
        ),
    decreases word.len(),
{
    if word.len() == 0 {
        assert(s.word + word =~= s.word);
    } else {
        let front = word.drop_last();
        let c = word.last();
        let read = Scan { word: s.word + front, ..s };
        let end = Scan { word: s.word + word, ..s };
        lemma_inside_double_quotes(s, front);
        lemma_scanned_add(s, double_quoted_inside(front), double_quoted_char(c));
        assert(read.word.push(c) =~= end.word);
        let text = double_quoted_char(c);
        if c == '$' || c == '`' || c == '"' || c == '\\' {
            let escaped = Scan { escaped: true, ..read };
            assert(scan_step(read, text[0]) == Ok::<Scan, Seq<char>>(escaped));
            assert(scan_step(escaped, text[1]) == Ok::<Scan, Seq<char>>(end));
            let second = text.drop_first();
            assert(second[0] == text[1]);
            assert(scanned(end, second.drop_first()) == Ok::<Scan, Seq<char>>(end));
            assert(scanned(escaped, second) == Ok::<Scan, Seq<char>>(end));
        } else {
            assert(scan_step(read, text[0]) == Ok::<Scan, Seq<char>>(end));
            assert(scanned(end, text.drop_first()) == Ok::<Scan, Seq<char>>(end));
        }
        assert(scanned(read, text) == Ok::<Scan, Seq<char>>(end));
    }
}

proof fn lemma_double_quotes_open(s: Scan, word: Seq<char>)
    requires
        s.quote == Quote::Bare,
        !s.escaped,
        s.word.len() == 0,
    ensures
        scanned(s, seq!['"'] + double_quoted_inside(word)) == Ok::<Scan, Seq<char>>(
            Scan { word, quote: Quote::Double, started: true, fresh: false, ..s },
        ),
{
    let open = Scan { quote: Quote::Double, started: true, fresh: false, ..s };
    assert(s.word + word =~= word);
    lemma_scanned_add(s, seq!['"'], double_quoted_inside(word));
    assert(scanned(open, seq!['"'].drop_first()) == Ok::<Scan, Seq<char>>(open));
    assert(scanned(s, seq!['"']) == Ok::<Scan, Seq<char>>(open));
    lemma_inside_double_quotes(open, word);
}

proof fn lemma_double_quotes_close(s: Scan)
    requires
        s.quote == Quote::Double,
        !s.escaped,
        s.started,
    ensures
        scanned(s, seq!['"']) == Ok::<Scan, Seq<char>>(Scan { quote: Quote::Bare, ..s }),
{
    let closed = Scan { quote: Quote::Bare, ..s };
    assert(scan_step(s, '"') == Ok::<Scan, Seq<char>>(closed));
    assert(scanned(closed, seq!['"'].drop_first()) == Ok::<Scan, Seq<char>>(closed));
}

proof fn lemma_backslashed(s: Scan, word: Seq<char>)
    requires
        s.quote == Quote::Bare,
        !s.escaped,
        word.len() > 0,
        !word.contains('\n'),
        !word.contains('\r'),
    ensures
        scanned(s, backslashed(word)) == Ok::<Scan, Seq<char>>(
            Scan { word: s.word + word, started: true, fresh: false, ..s },
        ),
    decreases word.len(),
{
    let front = word.drop_last();
    let c = word.last();
    let text = seq!['\\', c];
    let read = if front.len() == 0 {
        s
    } else {
        Scan { word: s.word + front, started: true, fresh: false, ..s }
    };
    let end = Scan { word: s.word + word, started: true, fresh: false, ..s };
    assert(word.contains(c)) by {
        assert(word[word.len() - 1] == c);
    }
    if front.len() > 0 {
        assert(!front.contains('\n') && !front.contains('\r')) by {
            assert(forall|k: int| 0 <= k < front.len() ==> front[k] == word[k]);
            assert(forall|k: int| 0 <= k < front.len() ==> word.contains(#[trigger] word[k]));
        }
        lemma_backslashed(s, front);
    }
    lemma_scanned_add(s, backslashed(front), text);
    assert(scanned(s, backslashed(front)) == Ok::<Scan, Seq<char>>(read));
    assert(read.word.push(c) =~= end.word);
    let escaped = Scan { escaped: true, started: true, fresh: false, ..read };
    assert(scan_step(read, text[0]) == Ok::<Scan, Seq<char>>(escaped));
    assert(scan_step(escaped, text[1]) == Ok::<Scan, Seq<char>>(end));
    let second = text.drop_first();
    assert(second[0] == text[1]);
    assert(scanned(end, second.drop_first()) == Ok::<Scan, Seq<char>>(end));
    assert(scanned(escaped, second) == Ok::<Scan, Seq<char>>(end));
    assert(scanned(read, text) == Ok::<Scan, Seq<char>>(end));
}

proof fn lemma_plain_word(s: Scan, word: Seq<char>)
    requires
        s.quote == Quote::Bare,
        !s.escaped,
        word.len() > 0,
        s.fresh ==> word[0] != '#',
        forall|k: int| 0 <= k < word.len() ==> plain_char(#[trigger] word[k]),
    ensures
        scanned(s, word) == Ok::<Scan, Seq<char>>(
            Scan { word: s.word + word, started: true, fresh: false, ..s },
        ),
    decreases word.len(),
{
    let c = word[0];
    let rest = word.drop_first();
    let next = Scan { word: s.word.push(c), started: true, fresh: false, ..s };
    assert(plain_char(word[0]));
    assert(text::whitespace('\n') && text::whitespace('\r'));
    assert(scan_step(s, c) == Ok::<Scan, Seq<char>>(next));
    if rest.len() == 0 {
        assert(s.word + word =~= s.word.push(c));
    } else {
        assert forall|k: int| 0 <= k < rest.len() implies plain_char(#[trigger] rest[k]) by {
            assert(rest[k] == word[k + 1]);
        }
        lemma_plain_word(next, rest);
        assert(next.word + rest =~= s.word + word);
    }
}

proof fn lemma_spelled_word(s: Scan, form: Seq<char>, word: Seq<char>)
    requires
        s.quote == Quote::Bare,
        !s.escaped,
        !s.started,
        s.word.len() == 0,
        spells(form, word),
    ensures
        scanned(s, form) == Ok::<Scan, Seq<char>>(
            Scan { word, started: true, fresh: false, ..s },
        ),
{
    assert(s.word + word =~= word);
    if form == quoted(word) {
        lemma_quoted_word(s, word);
    } else if form == double_quoted(word) {
        let read = Scan { word, quote: Quote::Double, started: true, fresh: false, ..s };
        lemma_double_quotes_open(s, word);
        lemma_scanned_add(s, seq!['"'] + double_quoted_inside(word), seq!['"']);
        lemma_double_quotes_close(read);
    } else if form == backslashed(word) && word.len() > 0 && !word.contains('\n')
        && !word.contains('\r') {
        lemma_backslashed(s, word);
    } else {
        lemma_plain_word(s, word);
    }
}

/// The tokenizer before a stage, behind these stages.
spec fn before_words(done: Seq<Seq<Seq<char>>>) -> Scan {
    Scan { stages: done.push(Seq::empty()), ..scan_start() }
}

/// The tokenizer behind the words of a stage, behind these stages.
spec fn after_words(done: Seq<Seq<Seq<char>>>, words: Seq<Seq<char>>) -> Scan {
    Scan {
        stages: done.push(words.drop_last()),
        word: words.last(),
        started: true,
        quote: Quote::Bare,
        escaped: false,
        fresh: false,
    }
}

/// The tokenizer behind a space that follows the words.
proof fn lemma_space(done: Seq<Seq<Seq<char>>>, words: Seq<Seq<char>>)
    requires
        words.len() > 0,
    ensures
        scan_step(after_words(done, words), ' ') == Ok::<Scan, Seq<char>>(
            Scan { stages: done.push(words), ..scan_start() },
        ),
{
    let closed = word_closed(after_words(done, words));
    assert(words.drop_last().push(words.last()) =~= words);
    assert(closed.stages =~= done.push(words));
    assert(text::whitespace(' '));
}

proof fn lemma_quoted_command(done: Seq<Seq<Seq<char>>>, words: Seq<Seq<char>>)
    requires
        words.len() > 0,
    ensures
        scanned(before_words(done), quoted_command(words)) == Ok::<Scan, Seq<char>>(
            after_words(done, words),
        ),
    decreases words.len(),
{
    let pieces = words.map_values(|word: Seq<char>| quoted(word));
    let start = before_words(done);
    if words.len() == 1 {
        assert(pieces[0] == quoted(words[0]));
        lemma_quoted_word(start, words[0]);
        assert(words.drop_last() =~= Seq::<Seq<char>>::empty());
    } else {
        let rest = words.drop_last();
        lemma_quoted_command(done, rest);
        assert(pieces.drop_last() =~= rest.map_values(|word: Seq<char>| quoted(word)));
        let head = quoted_command(rest);
        lemma_scanned_add(start, head + seq![' '], quoted(words.last()));
        lemma_scanned_add(start, head, seq![' ']);
        let before = after_words(done, rest);
        let spaced = Scan { stages: done.push(rest), ..scan_start() };
        lemma_space(done, rest);
        assert(scanned(spaced, seq![' '].drop_first()) == Ok::<Scan, Seq<char>>(spaced));
        assert(scanned(before, seq![' ']) == Ok::<Scan, Seq<char>>(spaced));
        lemma_quoted_word(spaced, words.last());
    }
}

proof fn lemma_quoted_pipeline(stages: Seq<Seq<Seq<char>>>)
    requires
        1 <= stages.len() <= MAX_PIPELINE_STAGES,
        forall|k: int| 0 <= k < stages.len() ==> (#[trigger] stages[k]).len() > 0,
    ensures
        scanned(scan_start(), quoted_pipeline(stages)) == Ok::<Scan, Seq<char>>(
            after_words(stages.drop_last(), stages.last()),
        ),
    decreases stages.len(),
{
    let pieces = stages.map_values(|words: Seq<Seq<char>>| quoted_command(words));
    let start = scan_start();
    let rest = stages.drop_last();
    assert(stages[stages.len() - 1].len() > 0);
    assert(pieces.last() == quoted_command(stages.last()));
    lemma_quoted_command(rest, stages.last());
    if stages.len() == 1 {
        assert(before_words(rest).stages =~= start.stages);
    } else {
        assert forall|k: int| 0 <= k < rest.len() implies (#[trigger] rest[k]).len() > 0 by {
            assert(rest[k] == stages[k]);
        }
        lemma_quoted_pipeline(rest);
        assert(pieces.drop_last() =~= rest.map_values(
            |words: Seq<Seq<char>>| quoted_command(words),
        ));
        let head = quoted_pipeline(rest);
        let bar = seq![' ', '|', ' '];
        lemma_scanned_add(start, head + bar, pieces.last());
        lemma_scanned_add(start, head, bar);
        let before = after_words(rest.drop_last(), rest.last());
        let spaced = Scan { stages: rest, ..start };
        let next = before_words(rest);
        lemma_space(rest.drop_last(), rest.last());
        assert(rest.drop_last().push(rest.last()) =~= rest);
        assert(rest[rest.len() - 1].len() > 0);
        assert(scan_step(spaced, '|') == Ok::<Scan, Seq<char>>(next));
        assert(text::whitespace(' '));
        assert(scan_step(next, ' ') == Ok::<Scan, Seq<char>>(next));
        let second = bar.drop_first();
        let third = second.drop_first();
        assert(second[0] == '|' && third[0] == ' ');
        assert(scanned(next, third.drop_first()) == Ok::<Scan, Seq<char>>(next));
        assert(scanned(next, third) == Ok::<Scan, Seq<char>>(next));
        assert(scanned(spaced, second) == Ok::<Scan, Seq<char>>(next));
        assert(scanned(before, bar) == Ok::<Scan, Seq<char>>(next));
    }
}

/// Words in single quotes come out as they went in, whatever they hold, in every stage of a
/// pipeline: no character inside the quotes is expanded, split or dropped.
pub proof fn law_quoted_words_are_literal(stages: Seq<Seq<Seq<char>>>)
    requires
        1 <= stages.len() <= MAX_PIPELINE_STAGES,
        forall|k: int| 0 <= k < stages.len() ==> (#[trigger] stages[k]).len() > 0,
    ensures
        tokenized(quoted_pipeline(stages)) == Ok::<Seq<Seq<Seq<char>>>, Seq<char>>(stages),
{
    lemma_quoted_pipeline(stages);
    let words = stages[stages.len() - 1];
    let end = word_closed(after_words(stages.drop_last(), words));
    assert(words.len() > 0);
    assert(words.drop_last().push(words.last()) =~= words);
    assert(end.stages =~= stages);
}

proof fn lemma_spelled_command(
    done: Seq<Seq<Seq<char>>>,
    forms: Seq<Seq<char>>,
    words: Seq<Seq<char>>,
)
    requires
        words.len() > 0,
        forms.len() == words.len(),
        forall|m: int| 0 <= m < words.len() ==> spells(#[trigger] forms[m], words[m]),
    ensures
        scanned(before_words(done), spaced(forms)) == Ok::<Scan, Seq<char>>(
            after_words(done, words),
        ),
    decreases words.len(),
{
    let start = before_words(done);
    let m = words.len() - 1;
    assert(spells(forms[m], words[m]));
    if words.len() == 1 {
        lemma_spelled_word(start, forms[0], words[0]);
        assert(words.drop_last() =~= Seq::<Seq<char>>::empty());
    } else {
        let rest = words.drop_last();
        let front = forms.drop_last();
        assert forall|m: int| 0 <= m < rest.len() implies spells(#[trigger] front[m], rest[m]) by {
            assert(front[m] == forms[m] && rest[m] == words[m]);
        }
        lemma_spelled_command(done, front, rest);
        let head = spaced(front);
        lemma_scanned_add(start, head + seq![' '], forms.last());
        lemma_scanned_add(start, head, seq![' ']);
        let before = after_words(done, rest);
        let spaced = Scan { stages: done.push(rest), ..scan_start() };
        lemma_space(done, rest);
        assert(scanned(spaced, seq![' '].drop_first()) == Ok::<Scan, Seq<char>>(spaced));
        assert(scanned(before, seq![' ']) == Ok::<Scan, Seq<char>>(spaced));
        lemma_spelled_word(spaced, forms.last(), words.last());
    }
}

proof fn lemma_spelled_pipeline(forms: Seq<Seq<Seq<char>>>, stages: Seq<Seq<Seq<char>>>)
    requires
        1 <= stages.len() <= 8,
        forms.len() == stages.len(),
        forall|k: int|
            0 <= k < stages.len() ==> (#[trigger] stages[k]).len() > 0 && forms[k].len()
                == stages[k].len(),
        forall|k: int, m: int|
            0 <= k < stages.len() && 0 <= m < stages[k].len() ==> spells(
                #[trigger] forms[k][m],
                stages[k][m],
            ),
    ensures
        scanned(scan_start(), piped(forms)) == Ok::<Scan, Seq<char>>(
            after_words(stages.drop_last(), stages.last()),
        ),
    decreases stages.len(),
{
    let pieces = forms.map_values(|words: Seq<Seq<char>>| spaced(words));
    let start = scan_start();
    let rest = stages.drop_last();
    let front = forms.drop_last();
    let last = stages.len() - 1;
    assert(stages[last].len() > 0 && forms[last].len() == stages[last].len());
    assert(pieces.last() == spaced(forms.last()));
    assert forall|m: int| 0 <= m < stages[last].len() implies spells(
        #[trigger] forms.last()[m],
        stages.last()[m],
    ) by {
        assert(spells(forms[last][m], stages[last][m]));
    }
    lemma_spelled_command(rest, forms.last(), stages.last());
    if stages.len() == 1 {
        assert(before_words(rest).stages =~= start.stages);
    } else {
        assert forall|k: int| 0 <= k < rest.len() implies (#[trigger] rest[k]).len() > 0
            && front[k].len() == rest[k].len() by {
            assert(rest[k] == stages[k] && front[k] == forms[k]);
        }
        assert forall|k: int, m: int| 0 <= k < rest.len() && 0 <= m < rest[k].len() implies spells(
            #[trigger] front[k][m],
            rest[k][m],
        ) by {
            assert(rest[k] == stages[k] && front[k] == forms[k]);
            assert(spells(forms[k][m], stages[k][m]));
        }
        lemma_spelled_pipeline(front, rest);
        assert(pieces.drop_last() =~= front.map_values(|words: Seq<Seq<char>>| spaced(words)));
        let head = piped(front);
        let bar = seq![' ', '|', ' '];
        lemma_scanned_add(start, head + bar, pieces.last());
        lemma_scanned_add(start, head, bar);
        let before = after_words(rest.drop_last(), rest.last());
        let spaced = Scan { stages: rest, ..start };
        let next = before_words(rest);
        lemma_space(rest.drop_last(), rest.last());
        assert(rest.drop_last().push(rest.last()) =~= rest);
        assert(rest[rest.len() - 1].len() > 0);
        assert(scan_step(spaced, '|') == Ok::<Scan, Seq<char>>(next));
        assert(text::whitespace(' '));
        assert(scan_step(next, ' ') == Ok::<Scan, Seq<char>>(next));
        let second = bar.drop_first();
        let third = second.drop_first();
        assert(second[0] == '|' && third[0] == ' ');
        assert(scanned(next, third.drop_first()) == Ok::<Scan, Seq<char>>(next));
        assert(scanned(next, third) == Ok::<Scan, Seq<char>>(next));
        assert(scanned(spaced, second) == Ok::<Scan, Seq<char>>(next));
        assert(scanned(before, bar) == Ok::<Scan, Seq<char>>(next));
    }
}

/// Words come out as they went in, whatever they hold, in every stage of a pipeline and however
/// each of them is written: in single quotes, in double quotes with a backslash before each
/// character that would have a meaning there, with backslashes alone, or plainly.
pub proof fn law_spelled_words_are_read_back(
    forms: Seq<Seq<Seq<char>>>,
    stages: Seq<Seq<Seq<char>>>,
)
    requires
        1 <= stages.len() <= 8,
        forms.len() == stages.len(),
        forall|k: int|
            0 <= k < stages.len() ==> (#[trigger] stages[k]).len() > 0 && forms[k].len()
                == stages[k].len(),
        forall|k: int, m: int|
            0 <= k < stages.len() && 0 <= m < stages[k].len() ==> spells(
                #[trigger] forms[k][m],
                stages[k][m],
            ),
    ensures
        tokenized(piped(forms)) == Ok::<Seq<Seq<Seq<char>>>, Seq<char>>(stages),
{
    lemma_spelled_pipeline(forms, stages);
    let words = stages[stages.len() - 1];
    let end = word_closed(after_words(stages.drop_last(), words));
    assert(words.len() > 0);
    assert(words.drop_last().push(words.last()) =~= words);
    assert(end.stages =~= stages);
}

/// A word in double quotes, with a backslash before each of `$`, the grave accent, `"` and the
/// backslash itself, is read back as exactly that word.
pub proof fn law_double_quoted_words_are_literal(word: Seq<char>)
    ensures
        tokenized(double_quoted(word)) == Ok::<Seq<Seq<Seq<char>>>, Seq<char>>(seq![seq![word]]),
{
    let forms = seq![seq![double_quoted(word)]];
    law_spelled_words_are_read_back(forms, seq![seq![word]]);
    let pieces = forms.map_values(|words: Seq<Seq<char>>| spaced(words));
    assert(pieces[0] == spaced(forms[0]));
    assert(piped(forms) == double_quoted(word));
}

/// Inside double quotes a backslash before any other character stands for itself, and one before
/// a line break takes the line break away with it.
pub proof fn law_other_backslashes_in_double_quotes(before: Seq<char>, c: char, after: Seq<char>)
    requires
        c != '$' && c != '`' && c != '"' && c != '\\',
    ensures
        tokenized(
            seq!['"'] + double_quoted_inside(before) + seq!['\\', c] + double_quoted_inside(after)
                + seq!['"'],
        ) == Ok::<Seq<Seq<Seq<char>>>, Seq<char>>(
            seq![
                seq![
                    if c == '\n' || c == '\r' {
                        before + after
                    } else {
                        before + seq!['\\', c] + after
                    },
                ],
            ],
        ),
{
    let s = scan_start();
    let head = seq!['"'] + double_quoted_inside(before);
    let pair = seq!['\\', c];
    let tail = double_quoted_inside(after);
    let read = Scan { word: before, quote: Quote::Double, started: true, fresh: false, ..s };
    let escaped = Scan { escaped: true, ..read };
    let middle = if c == '\n' || c == '\r' {
        before
    } else {
        before + pair
    };
    let passed = Scan { word: middle, ..read };
    let all = Scan { word: middle + after, ..read };
    lemma_double_quotes_open(s, before);
    assert(scan_step(read, pair[0]) == Ok::<Scan, Seq<char>>(escaped));
    assert(before.push('\\').push(c) =~= before + pair);
    assert(scan_step(escaped, pair[1]) == Ok::<Scan, Seq<char>>(passed));
    let second = pair.drop_first();
    assert(second[0] == pair[1]);
    assert(scanned(passed, second.drop_first()) == Ok::<Scan, Seq<char>>(passed));
    assert(scanned(escaped, second) == Ok::<Scan, Seq<char>>(passed));
    assert(scanned(read, pair) == Ok::<Scan, Seq<char>>(passed));
    lemma_inside_double_quotes(passed, after);
    lemma_double_quotes_close(all);
    lemma_scanned_add(s, head, pair);
    lemma_scanned_add(s, head + pair, tail);
    lemma_scanned_add(s, head + pair + tail, seq!['"']);
    let closed = word_closed(Scan { quote: Quote::Bare, ..all });
    assert(closed.stages =~= seq![seq![middle + after]]) by {
        assert(closed.stages[0] =~= seq![middle + after]);
    }
}

/// Inside double quotes an expansion is refused, whatever stands before and behind it.
pub proof fn law_quoted_expansions_are_refused(before: Seq<char>, c: char, rest: Seq<char>)
    requires
        c == '$' || c == '`',
    ensures
        tokenized(seq!['"'] + double_quoted_inside(before) + seq![c] + rest) == Err::<
            Seq<Seq<Seq<char>>>,
            Seq<char>,
        >("shell expansions are forbidden"@),
{
    let s = scan_start();
    let head = seq!['"'] + double_quoted_inside(before);
    lemma_double_quotes_open(s, before);
    lemma_scanned_add(s, head, seq![c]);
    lemma_scanned_add(s, head + seq![c], rest);
}

/// A quote that is not closed is refused, and so is a backslash with nothing behind it.
pub proof fn law_open_quotes_are_refused(word: Seq<char>)
    ensures
        tokenized(seq!['"'] + double_quoted_inside(word)) == Err::<
            Seq<Seq<Seq<char>>>,
            Seq<char>,
        >("command syntax is invalid: incomplete quote or escape"@),
        tokenized(seq!['\''] + quoted_inside(word)) == Err::<Seq<Seq<Seq<char>>>, Seq<char>>(
            "command syntax is invalid: incomplete quote or escape"@,
        ),
        tokenized(double_quoted(word) + seq!['\\']) == Err::<Seq<Seq<Seq<char>>>, Seq<char>>(
            "command syntax is invalid: incomplete quote or escape"@,
        ),
{
    let s = scan_start();
    lemma_double_quotes_open(s, word);
    let open = Scan { quote: Quote::Single, started: true, fresh: false, ..s };
    lemma_scanned_add(s, seq!['\''], quoted_inside(word));
    assert(scanned(open, seq!['\''].drop_first()) == Ok::<Scan, Seq<char>>(open));
    assert(scanned(s, seq!['\'']) == Ok::<Scan, Seq<char>>(open));
    lemma_inside_quotes(open, word);
    lemma_spelled_word(s, double_quoted(word), word);
    let read = Scan { word, started: true, fresh: false, ..s };
    let escaped = Scan { escaped: true, ..read };
    lemma_scanned_add(s, double_quoted(word), seq!['\\']);
    assert(scan_step(read, '\\') == Ok::<Scan, Seq<char>>(escaped));
    assert(scanned(escaped, seq!['\\'].drop_first()) == Ok::<Scan, Seq<char>>(escaped));
    assert(scanned(read, seq!['\\']) == Ok::<Scan, Seq<char>>(escaped));
}

/// Behind a word, outside quotes, an operator of the shell, a glob and a line break are refused,
/// and so is the mark of a comment where a word could begin.
pub proof fn law_bare_syntax_is_refused(word: Seq<char>, c: char, rest: Seq<char>)
    ensures
        tokenized(double_quoted(word) + seq![c] + rest) == (if c == '\n' || c == '\r' {
            Err::<Seq<Seq<Seq<char>>>, Seq<char>>(
                "newlines outside quoted arguments are forbidden"@,
            )
        } else if c == ';' || c == '&' || c == '<' || c == '>' || c == '`' || c == '$' || c == '('
            || c == ')' || c == '{' || c == '}' {
            Err("shell operator is forbidden: "@.push(c))
        } else if c == '?' || c == '*' || c == '[' {
            Err("unquoted glob syntax is forbidden"@)
        } else {
            tokenized(double_quoted(word) + seq![c] + rest)
        }),
        tokenized(double_quoted(word) + seq![' '] + seq!['#'] + rest) == Err::<
            Seq<Seq<Seq<char>>>,
            Seq<char>,
        >("shell comments are forbidden"@),
{
    let s = scan_start();
    let head = double_quoted(word);
    let read = Scan { word, started: true, fresh: false, ..s };
    lemma_spelled_word(s, head, word);
    lemma_scanned_add(s, head, seq![c]);
    lemma_scanned_add(s, head + seq![c], rest);
    assert(!text::whitespace(';') && !text::whitespace('&') && !text::whitespace('<')
        && !text::whitespace('>') && !text::whitespace('`') && !text::whitespace('$')
        && !text::whitespace('(') && !text::whitespace(')') && !text::whitespace('{')
        && !text::whitespace('}') && !text::whitespace('?') && !text::whitespace('*')
        && !text::whitespace('[') && !text::whitespace('#'));
    let spaced = Scan { stages: seq![seq![word]], ..s };
    lemma_scanned_add(s, head, seq![' ']);
    lemma_scanned_add(s, head + seq![' '], seq!['#']);
    lemma_scanned_add(s, head + seq![' '] + seq!['#'], rest);
    lemma_space(Seq::empty(), seq![word]);
    assert(after_words(Seq::empty(), seq![word]).stages =~= s.stages) by {
        assert(seq![word].drop_last() =~= Seq::<Seq<char>>::empty());
    }
    assert(Seq::<Seq<Seq<char>>>::empty().push(seq![word]) =~= seq![seq![word]]);
    assert(scan_step(read, ' ') == Ok::<Scan, Seq<char>>(spaced));
    assert(scanned(spaced, seq![' '].drop_first()) == Ok::<Scan, Seq<char>>(spaced));
    assert(scanned(read, seq![' ']) == Ok::<Scan, Seq<char>>(spaced));
}

/// A character that is neither a quote nor an escape.
pub open spec fn unquoting(c: char) -> bool {
    c != '\'' && c != '"' && c != '\\'
}

proof fn lemma_bare_scan(s: Scan, source: Seq<char>, i: int)
    requires
        s.quote == Quote::Bare,
        !s.escaped,
        forall|k: int| 0 <= k < source.len() ==> unquoting(#[trigger] source[k]),
        0 <= i < source.len(),
        shell_operator(source[i]) || glob(source[i]) || line_break(source[i]),
    ensures
        scanned(s, source) is Err,
    decreases source.len(),
{
    if let Ok(next) = scan_step(s, source[0]) {
        if i > 0 {
            let rest = source.drop_first();
            assert forall|k: int| 0 <= k < rest.len() implies unquoting(#[trigger] rest[k]) by {
                assert(rest[k] == source[k + 1]);
            }
            assert(unquoting(source[0]));
            lemma_bare_scan(next, rest, i - 1);
        } else {
            assert(unquoting(source[0]));
        }
    }
}

/// A command without quotes and escapes that holds an operator of the shell, a glob or a line
/// break is refused.
pub proof fn law_bare_operators_are_refused(source: Seq<char>, i: int)
    requires
        forall|k: int| 0 <= k < source.len() ==> unquoting(#[trigger] source[k]),
        0 <= i < source.len(),
        shell_operator(source[i]) || glob(source[i]) || line_break(source[i]),
    ensures
        tokenized(source) is Err,
{
    lemma_bare_scan(scan_start(), source, i);
}

proof fn lemma_not_refused(policy: PolicyModel, stages: Seq<Seq<Seq<char>>>, from: int, k: int)
    requires
        0 <= from <= k < stages.len(),
        stages_refused(policy, stages, from) is None,
    ensures
        stage_allowed(policy, stages[k]),
    decreases k - from,
{
    if from < k {
        lemma_not_refused(policy, stages, from + 1, k);
    }
}

/// Every stage of an authorized command names an executable that has a rule, and the command
/// runs within the approved roots.
pub proof fn law_authorized_commands_have_rules(
    policy: PolicyModel,
    command: Seq<char>,
    cwd: Seq<char>,
    current_directory: Seq<char>,
    tree: Result<Seq<NodeModel>, SyntaxFailure>,
)
    ensures
        authorized(policy, command, cwd, current_directory, tree) matches Ok(stages) ==> {
            &&& tokenized(command) == Ok::<Seq<Seq<Seq<char>>>, Seq<char>>(stages)
            &&& forall|k: int|
                0 <= k < stages.len() ==> (#[trigger] stages[k]).len() > 0
                    && policy.executables.contains(stages[k][0])
            &&& paths::within(
                paths::absolute_form(cwd, current_directory),
                policy.working_roots,
                current_directory,
            )
        },
{
    law_accepted_stages_are_bounded(command);
    if let Ok(stages) = authorized(policy, command, cwd, current_directory, tree) {
        assert forall|k: int| 0 <= k < stages.len() implies (#[trigger] stages[k]).len() > 0
            && policy.executables.contains(stages[k][0]) by {
            lemma_not_refused(policy, stages, 0, k);
        }
    }
}

proof fn lemma_none_refused(policy: PolicyModel, stages: Seq<Seq<Seq<char>>>, from: int)
    requires
        0 <= from <= stages.len(),
        forall|k: int|
            from <= k < stages.len() ==> (#[trigger] stages[k]).len() > 0
                && policy.executables.contains(stages[k][0]),
    ensures
        stages_refused(policy, stages, from) is None,
    decreases stages.len() - from,
{
    if from < stages.len() {
        assert(stages[from].len() > 0);
        lemma_none_refused(policy, stages, from + 1);
    }
}

/// A command is allowed exactly if it is there and no longer than a command may be, holds no null
/// character, splits into stages whose tree is the one that their words call for, runs within the
/// approved roots, and each of its stages begins with an executable that has a rule. The stages
/// that are allowed are those that it splits into.
pub proof fn law_authorized_commands(
    policy: PolicyModel,
    command: Seq<char>,
    cwd: Seq<char>,
    current_directory: Seq<char>,
    tree: Result<Seq<NodeModel>, SyntaxFailure>,
)
    ensures
        authorized(policy, command, cwd, current_directory, tree) is Ok <==> {
            &&& 1 <= text::utf16_units(command) <= 32768
            &&& forall|i: int| 0 <= i < command.len() ==> #[trigger] command[i] != '\0'
            &&& tokenized(command) is Ok
            &&& paths::within(
                paths::absolute_form(cwd, current_directory),
                policy.working_roots,
                current_directory,
            )
            &&& tree is Ok
            &&& tree_problem(tree->Ok_0, tokenized(command)->Ok_0) is None
            &&& forall|k: int|
                0 <= k < tokenized(command)->Ok_0.len() ==> policy.executables.contains(
                    (#[trigger] tokenized(command)->Ok_0[k])[0],
                )
        },
        authorized(policy, command, cwd, current_directory, tree) is Ok ==> authorized(
            policy,
            command,
            cwd,
            current_directory,
            tree,
        )->Ok_0 == tokenized(command)->Ok_0,
{
    law_accepted_stages_are_bounded(command);
    if command.contains('\0') {
        let i = choose|i: int| 0 <= i < command.len() && command[i] == '\0';
        assert(command[i] == '\0');
    } else {
        assert forall|i: int| 0 <= i < command.len() implies #[trigger] command[i] != '\0' by {
            assert(command.contains(command[i]));
        }
    }
    if let Ok(stages) = tokenized(command) {
        if stages_refused(policy, stages, 0) is None {
            assert forall|k: int| 0 <= k < stages.len() implies policy.executables.contains(
                (#[trigger] stages[k])[0],
            ) by {
                lemma_not_refused(policy, stages, 0, k);
            }
        } else if forall|k: int|
            0 <= k < stages.len() ==> policy.executables.contains((#[trigger] stages[k])[0]) {
            lemma_none_refused(policy, stages, 0);
        }
    }
}

/// The environment that a command sees holds the search path of the policy, the home directory and
/// a plain terminal, and nothing else.
pub proof fn law_commands_see_a_plain_environment(policy: PolicyModel, home: Seq<char>, k: int)
    requires
        0 <= k < command_environment(policy, home).len(),
    ensures
        command_environment(policy, home).len() == 6,
        ({
            let (name, value) = command_environment(policy, home)[k];
            ||| name == "PATH"@ && value == text::join(policy.path, ":"@)
            ||| name == "HOME"@ && value == home
            ||| (name == "LANG"@ || name == "LC_ALL"@) && value == "C.UTF-8"@
            ||| name == "NO_COLOR"@ && value == "1"@
            ||| name == "TERM"@ && value == "dumb"@
        }),
{
}

proof fn lemma_chosen(candidates: Seq<Candidate>, current_directory: Seq<char>, from: int)
    requires
        0 <= from <= candidates.len(),
    ensures
        chosen(candidates, current_directory, from) matches Some(Ok(path)) ==> exists|i: int|
            {
                &&& from <= i < candidates.len()
                &&& (#[trigger] candidates[i]).present
                &&& !candidates[i].symlink
                &&& candidates[i].regular
                &&& candidates[i].canonical is Ok
                &&& candidates[i].canonical->Ok_0@ == path
                &&& paths::within(path, seq![candidates[i].directory@], current_directory)
            },
        (forall|i: int|
            from <= i < candidates.len() ==> !(#[trigger] candidates[i]).present
                || candidates[i].symlink || !candidates[i].regular) ==> chosen(
            candidates,
            current_directory,
            from,
        ) is None,
    decreases candidates.len() - from,
{
    if from < candidates.len() {
        lemma_chosen(candidates, current_directory, from + 1);
        assert(candidates[from] == candidates[from]);
    }
}

/// The program that is run is a plain file that was found in a directory of the search path and
/// lies in it, and is no link. Where there is no plain file, none is run.
pub proof fn law_programs_lie_in_the_search_path(
    candidates: Seq<Candidate>,
    current_directory: Seq<char>,
)
    ensures
        chosen(candidates, current_directory, 0) matches Some(Ok(path)) ==> exists|i: int|
            {
                &&& 0 <= i < candidates.len()
                &&& (#[trigger] candidates[i]).present
                &&& !candidates[i].symlink
                &&& candidates[i].regular
                &&& candidates[i].canonical is Ok
                &&& candidates[i].canonical->Ok_0@ == path
                &&& paths::within(path, seq![candidates[i].directory@], current_directory)
            },
        (forall|i: int|
            0 <= i < candidates.len() ==> !(#[trigger] candidates[i]).present
                || candidates[i].symlink || !candidates[i].regular) ==> chosen(
            candidates,
            current_directory,
            0,
        ) is None,
{
    lemma_chosen(candidates, current_directory, 0);
}

/// Each stage runs the program that was found for it, with its words behind the first one as
/// arguments, in their order.
pub proof fn law_stages_keep_their_arguments(
    commands: Seq<Seq<Seq<char>>>,
    executables: Seq<Seq<char>>,
    k: int,
    i: int,
)
    requires
        commands.len() == executables.len(),
        0 <= k < commands.len(),
        0 < i < commands[k].len(),
    ensures
        staging(commands, executables).len() == commands.len(),
        staging(commands, executables)[k].executable == executables[k],
        staging(commands, executables)[k].arguments.len() == commands[k].len() - 1,
        staging(commands, executables)[k].arguments[i - 1] == commands[k][i],
{
}

/// A pipeline goes on behind a stage exactly where the stage ended by itself with zero.
pub proof fn law_pipelines_stop_at_failures(output: ProcessOutput)
    ensures
        !halts(output) <==> output.failure is None && output.exit_code is Some
            && output.exit_code->0 == 0,
        output.exit_code is Some ==> shown_code(output) == output.exit_code->0,
        output.exit_code is None ==> shown_code(output) == -1,
{
}

} // verus!
