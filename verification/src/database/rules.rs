//! What may be stored of the texts that a run hands over, and what is read out of the output of
//! its commands.
use vstd::prelude::*;

use crate::paths;
use crate::text;

verus! {

// ---------------------------------------------------------------------------------------------
// Stored texts
// ---------------------------------------------------------------------------------------------

/// The reason that is stored for the end of a turn: one of the known ones, or none.
pub open spec fn stop_reason(value: Option<Seq<char>>) -> Option<Seq<char>> {
    if value == Some("stop"@) || value == Some("length"@) || value == Some("toolUse"@) || value
        == Some("error"@) || value == Some("aborted"@) {
        value
    } else {
        None
    }
}

/// The reason that is stored for the end of a turn.
pub fn safe_stop_reason(value: &Option<String>) -> (out: Option<String>)
    ensures
        text::opt_text(out) == stop_reason(text::opt_text(*value)),
{
    if text::is_text(value, "stop") || text::is_text(value, "length") || text::is_text(
        value,
        "toolUse",
    ) || text::is_text(value, "error") || text::is_text(value, "aborted") {
        text::copy_opt(value)
    } else {
        None
    }
}

/// The known reasons for the end of a run.
pub open spec fn termination_reasons() -> Seq<Seq<char>> {
    seq![
        "completed"@,
        "failed"@,
        "model_error"@,
        "wall_timeout"@,
        "turn_limit"@,
        "aborted"@,
        "context_limit"@,
        "process_exit"@,
        "superseded_attempt"@,
    ]
}

/// The reason that is stored for the end of a run: one of the known ones.
pub open spec fn termination_reason(value: Seq<char>) -> Seq<char> {
    if termination_reasons().contains(value) {
        value
    } else {
        "failed"@
    }
}

/// The reason that is stored for the end of a run.
pub fn safe_termination_reason(value: &str) -> (out: &'static str)
    ensures
        out@ == termination_reason(value@),
{
    let ghost known = termination_reasons();
    proof {
        assert(known[0] == "completed"@ && known[1] == "failed"@ && known[2] == "model_error"@);
        assert(known[3] == "wall_timeout"@ && known[4] == "turn_limit"@ && known[5] == "aborted"@);
        assert(known[6] == "context_limit"@ && known[7] == "process_exit"@);
        assert(known[8] == "superseded_attempt"@);
    }
    if text::same(value, "completed") {
        "completed"
    } else if text::same(value, "model_error") {
        "model_error"
    } else if text::same(value, "wall_timeout") {
        "wall_timeout"
    } else if text::same(value, "turn_limit") {
        "turn_limit"
    } else if text::same(value, "aborted") {
        "aborted"
    } else if text::same(value, "context_limit") {
        "context_limit"
    } else if text::same(value, "process_exit") {
        "process_exit"
    } else if text::same(value, "superseded_attempt") {
        "superseded_attempt"
    } else {
        "failed"
    }
}

/// Whether the character may stand in the name of a tool.
pub open spec fn tool_char(c: char) -> bool {
    text::ascii_alphanumeric(c) || c == '_' || c == '.' || c == ':' || c == '-'
}

/// The name that is stored for a tool: its own where that is a plain one.
pub open spec fn tool_name(value: Seq<char>) -> Seq<char> {
    if text::byte_len(value) <= 80 && value.len() > 0 && text::ascii_letter(value[0]) && (forall|
        i: int,
    |
        0 <= i < value.len() ==> tool_char(#[trigger] value[i])) {
        value
    } else {
        "tool"@
    }
}

/// The name that is stored for a tool.
pub fn safe_tool_name(value: &str) -> (out: String)
    ensures
        out@ == tool_name(value@),
{
    let chars = text::chars_of(value);
    if chars.len() == 0 || !text::is_ascii_letter(chars[0]) || text::byte_count(&chars) > 80 {
        return "tool".to_owned();
    }
    let mut i: usize = 0;
    while i < chars.len()
        invariant
            i <= chars@.len(),
            chars@ == value@,
            forall|k: int| 0 <= k < i ==> tool_char(#[trigger] value@[k]),
        decreases chars@.len() - i,
    {
        let c = chars[i];
        if !(text::is_ascii_alphanumeric(c) || c == '_' || c == '.' || c == ':' || c == '-') {
            return "tool".to_owned();
        }
        i += 1;
    }
    value.to_owned()
}

/// Whether the character is stored.
pub open spec fn detail_char(c: char) -> bool {
    c == '\t' || c == '\n' || c == '\r' || (!text::control(c) && c != '\u{7f}')
}

/// The text without blanks around it and characters that are not stored.
pub open spec fn plain_detail(s: Seq<char>) -> Seq<char> {
    text::trim(s).filter(|c: char| detail_char(c))
}

/// What is stored of a text: so many characters, with an ellipsis where something was cut off.
pub open spec fn detail(s: Seq<char>, limit: nat) -> Seq<char> {
    let plain = plain_detail(s);
    if plain.len() <= limit {
        plain
    } else {
        plain.take(limit as int).push('…')
    }
}

/// What is stored of a text.
pub fn bounded_detail(value: &str, limit: usize) -> (out: String)
    ensures
        out@ == detail(value@, limit as nat),
{
    let chars = text::chars_of(text::trim_str(value).as_str());
    let ghost keep = |c: char| detail_char(c);
    let mut plain: Vec<char> = Vec::new();
    let mut i: usize = 0;
    assert(plain@ =~= chars@.take(0).filter(keep)) by {
        reveal(Seq::filter);
    }
    while i < chars.len()
        invariant
            i <= chars@.len(),
            keep == (|c: char| detail_char(c)),
            plain@ == chars@.take(i as int).filter(keep),
        decreases chars@.len() - i,
    {
        assert(chars@.take(i + 1).drop_last() =~= chars@.take(i as int));
        proof {
            reveal(Seq::filter);
        }
        let c = chars[i];
        if c == '\t' || c == '\n' || c == '\r' || (!text::is_control(c) && c != '\u{7f}') {
            plain.push(c);
        }
        i += 1;
    }
    assert(chars@.take(i as int) =~= chars@);
    if plain.len() <= limit {
        text::collect(&plain)
    } else {
        let mut out = text::string_of(&plain, 0, limit);
        assert(out@ =~= plain@.take(limit as int));
        out.push('…');
        out
    }
}

// ---------------------------------------------------------------------------------------------
// References
// ---------------------------------------------------------------------------------------------

/// Whether the character belongs to a word that may be a reference.
pub open spec fn reference_char(c: char) -> bool {
    text::ascii_alphanumeric(c) || c == '-'
}

/// Whether the character may stand in a part of a reference.
pub open spec fn reference_part_char(c: char) -> bool {
    text::ascii_upper(c) || text::ascii_digit(c)
}

/// Whether the text may be a part of a reference.
pub open spec fn reference_part(s: Seq<char>) -> bool {
    forall|i: int| 0 <= i < s.len() ==> reference_part_char(#[trigger] s[i])
}

/// Whether the word is a reference: capital letters and digits, a dash, and at least three of
/// these again.
pub open spec fn is_reference(word: Seq<char>) -> bool {
    match text::find_from(word, "-"@, 0) {
        None => false,
        Some(dash) => {
            &&& dash > 0
            &&& text::ascii_upper(word[0])
            &&& reference_part(word.take(dash))
            &&& word.len() - dash - 1 >= 3
            &&& reference_part(word.skip(dash + 1))
        },
    }
}

/// The words of an output that may be references.
pub open spec fn reference_words(output: Seq<char>) -> Seq<Seq<char>> {
    text::split_on(
        output.map_values(
            |c: char|
                if reference_char(c) {
                    c
                } else {
                    ' '
                },
        ),
        ' ',
    )
}

/// The first reference among the words from `from` on.
pub open spec fn first_reference(words: Seq<Seq<char>>, from: int) -> Option<Seq<char>>
    decreases words.len() - from,
{
    if from < 0 || from >= words.len() {
        None
    } else if is_reference(words[from]) {
        Some(words[from])
    } else {
        first_reference(words, from + 1)
    }
}

fn is_reference_part(chars: &Vec<char>, start: usize, end: usize) -> (b: bool)
    requires
        start <= end <= chars@.len(),
    ensures
        b == reference_part(chars@.subrange(start as int, end as int)),
{
    let ghost part = chars@.subrange(start as int, end as int);
    let mut i: usize = start;
    while i < end
        invariant
            start <= i <= end <= chars@.len(),
            part == chars@.subrange(start as int, end as int),
            forall|k: int| 0 <= k < i - start ==> reference_part_char(#[trigger] part[k]),
        decreases end - i,
    {
        assert(part[i - start] == chars@[i as int]);
        if !(text::is_ascii_upper(chars[i]) || text::is_ascii_digit(chars[i])) {
            return false;
        }
        i += 1;
    }
    true
}

fn is_reference_word(word: &Vec<char>) -> (b: bool)
    ensures
        b == is_reference(word@),
{
    let dash = text::chars_of("-");
    proof {
        reveal_strlit("-");
    }
    match text::find_in(word, &dash, 0) {
        None => false,
        Some(place) => {
            proof {
                text::lemma_find(word@, dash@, 0);
                assert(word@.take(place as int) =~= word@.subrange(0, place as int));
                assert(word@.skip(place + 1) =~= word@.subrange(place + 1, word@.len() as int));
            }
            let total: usize = word.len();
            place > 0 && text::is_ascii_upper(word[0]) && is_reference_part(word, 0, place) && total
                - place - 1 >= 3 && is_reference_part(word, place + 1, total)
        },
    }
}

/// The first reference to a task in the output of a command.
pub fn find_aven_reference(output: &str) -> (reference: Option<String>)
    ensures
        text::opt_text(reference) == first_reference(reference_words(output@), 0),
{
    let chars = text::chars_of(output);
    let ghost blank = |c: char|
        if reference_char(c) {
            c
        } else {
            ' '
        };
    let mut blanked: Vec<char> = Vec::new();
    let mut i: usize = 0;
    while i < chars.len()
        invariant
            i <= chars@.len(),
            blanked@.len() == i,
            blank == (|c: char|
                if reference_char(c) {
                    c
                } else {
                    ' '
                }),
            forall|k: int| 0 <= k < i ==> #[trigger] blanked@[k] == blank(chars@[k]),
        decreases chars@.len() - i,
    {
        let c = chars[i];
        blanked.push(
            if text::is_ascii_alphanumeric(c) || c == '-' {
                c
            } else {
                ' '
            },
        );
        i += 1;
    }
    assert(blanked@ =~= output@.map_values(blank));
    let words = text::split_chars(&blanked, ' ');
    let ghost all = reference_words(output@);
    let mut at: usize = 0;
    while at < words.len()
        invariant
            at <= words@.len() == all.len(),
            all == reference_words(output@),
            forall|k: int| 0 <= k < words@.len() ==> (#[trigger] words@[k])@ == all[k],
            first_reference(all, 0) == first_reference(all, at as int),
        decreases words@.len() - at,
    {
        assert(words@[at as int]@ == all[at as int]);
        if is_reference_word(&words[at]) {
            return Some(text::collect(&words[at]));
        }
        at += 1;
    }
    None
}

// ---------------------------------------------------------------------------------------------
// Handles
// ---------------------------------------------------------------------------------------------

/// Whether the character may stand in a handle.
pub open spec fn handle_char(c: char) -> bool {
    text::ascii_alphanumeric(c) || c == '.' || c == '_' || c == '-'
}

/// Whether the text is a handle.
pub open spec fn is_handle(value: Seq<char>) -> bool {
    &&& value.len() > 0
    &&& text::byte_len(value) <= 128
    &&& text::ascii_alphanumeric(value[0])
    &&& forall|i: int| 0 <= i < value.len() ==> handle_char(#[trigger] value[i])
}

/// Whether the text is a handle.
pub fn valid_handle(value: &str) -> (b: bool)
    ensures
        b == is_handle(value@),
{
    let chars = text::chars_of(value);
    if chars.len() == 0 || text::byte_count(&chars) > 128 || !text::is_ascii_alphanumeric(
        chars[0],
    ) {
        return false;
    }
    let mut i: usize = 0;
    while i < chars.len()
        invariant
            i <= chars@.len(),
            chars@ == value@,
            forall|k: int| 0 <= k < i ==> handle_char(#[trigger] value@[k]),
        decreases chars@.len() - i,
    {
        let c = chars[i];
        if !(text::is_ascii_alphanumeric(c) || c == '.' || c == '_' || c == '-') {
            return false;
        }
        i += 1;
    }
    true
}

/// What a line says of the handle.
pub enum HandleLine {
    /// Nothing: the next line is looked at.
    Silent,
    /// It announces one and names none: there is none.
    Empty,
    Named(Seq<char>),
}

/// The path that a line announces as a worktree.
pub open spec fn worktree_path(line: Seq<char>) -> Option<Seq<char>> {
    if text::starts_with(line, "Worktree:"@) {
        Some(text::trim(line.skip("Worktree:"@.len() as int)))
    } else {
        None
    }
}

/// Where a line announces a handle: at the first `handle:` in it, or else at the first
/// `handle=`, whatever the case of the letters.
pub open spec fn handle_mark(line: Seq<char>) -> Option<int> {
    match text::find_from(text::lower(line), "handle:"@, 0) {
        Some(place) => Some(place),
        None => text::find_from(text::lower(line), "handle="@, 0),
    }
}

/// What a line says of the handle by announcing it.
pub open spec fn announced(line: Seq<char>) -> HandleLine {
    match handle_mark(line) {
        None => HandleLine::Silent,
        Some(place) => {
            let words = text::words(line.skip(place + 7));
            if words.len() == 0 {
                HandleLine::Empty
            } else if is_handle(words[0]) {
                HandleLine::Named(words[0])
            } else {
                HandleLine::Silent
            }
        },
    }
}

/// What a line, without blanks around it, says of the handle.
pub open spec fn handle_line(line: Seq<char>) -> HandleLine {
    match worktree_path(line) {
        Some(path) => match paths::base_name(path) {
            None => HandleLine::Empty,
            Some(name) => if is_handle(name) {
                HandleLine::Named(name)
            } else {
                announced(line)
            },
        },
        None => announced(line),
    }
}

/// The handle that the lines from `from` on name.
pub open spec fn named_handle(lines: Seq<Seq<char>>, from: int) -> Option<Seq<char>>
    decreases lines.len() - from,
{
    if from < 0 || from >= lines.len() {
        None
    } else {
        match handle_line(text::trim(lines[from])) {
            HandleLine::Silent => named_handle(lines, from + 1),
            HandleLine::Empty => None,
            HandleLine::Named(name) => Some(name),
        }
    }
}

/// What a line says of the handle.
enum LineVerdict {
    Silent,
    Empty,
    Named(String),
}

impl LineVerdict {
    spec fn model(self) -> HandleLine {
        match self {
            LineVerdict::Silent => HandleLine::Silent,
            LineVerdict::Empty => HandleLine::Empty,
            LineVerdict::Named(name) => HandleLine::Named(name@),
        }
    }
}

fn read_announced(line: &str) -> (verdict: LineVerdict)
    ensures
        verdict.model() == announced(line@),
{
    let chars = text::chars_of(line);
    let small = text::lower_chars(&chars);
    let colon = text::chars_of("handle:");
    let equals = text::chars_of("handle=");
    proof {
        reveal_strlit("handle:");
        reveal_strlit("handle=");
        text::lemma_find(small@, colon@, 0);
        text::lemma_find(small@, equals@, 0);
    }
    let place = match text::find_in(&small, &colon, 0) {
        Some(place) => place,
        None => match text::find_in(&small, &equals, 0) {
            Some(place) => place,
            None => {
                return LineVerdict::Silent;
            },
        },
    };
    let total: usize = chars.len();
    let rest = text::string_of(&chars, place + 7, total);
    assert(rest@ =~= line@.skip(place + 7));
    let mut words = text::split_words(&text::chars_of(rest.as_str()));
    let ghost all = text::words(rest@);
    assert(all == text::texts(words@));
    if words.len() == 0 {
        return LineVerdict::Empty;
    }
    assert(all[0] == words@[0]@);
    let name = words.remove(0);
    if valid_handle(name.as_str()) {
        LineVerdict::Named(name)
    } else {
        LineVerdict::Silent
    }
}

fn read_line(line: &str) -> (verdict: LineVerdict)
    ensures
        verdict.model() == handle_line(line@),
{
    match text::strip_prefix_str(line, "Worktree:") {
        Some(value) => match paths::file_name(text::trim_str(value.as_str()).as_str()) {
            None => LineVerdict::Empty,
            Some(name) => {
                if valid_handle(name.as_str()) {
                    LineVerdict::Named(name)
                } else {
                    read_announced(line)
                }
            },
        },
        None => read_announced(line),
    }
}

/// The handle that the output of a command names.
pub fn find_workmux_handle(output: &str) -> (handle: Option<String>)
    ensures
        text::opt_text(handle) == named_handle(text::split_on(output@, '\n'), 0),
{
    let lines = text::split_chars(&text::chars_of(output), '\n');
    let ghost all = text::split_on(output@, '\n');
    let mut i: usize = 0;
    while i < lines.len()
        invariant
            i <= lines@.len() == all.len(),
            all == text::split_on(output@, '\n'),
            forall|k: int| 0 <= k < lines@.len() ==> (#[trigger] lines@[k])@ == all[k],
            named_handle(all, 0) == named_handle(all, i as int),
        decreases lines@.len() - i,
    {
        assert(lines@[i as int]@ == all[i as int]);
        let line = text::trim_str(text::collect(&lines[i]).as_str());
        match read_line(line.as_str()) {
            LineVerdict::Silent => {},
            LineVerdict::Empty => {
                return None;
            },
            LineVerdict::Named(name) => {
                return Some(name);
            },
        }
        i += 1;
    }
    None
}

// ---------------------------------------------------------------------------------------------
// Laws
// ---------------------------------------------------------------------------------------------

proof fn lemma_first_reference(words: Seq<Seq<char>>, from: int)
    ensures
        first_reference(words, from) matches Some(word) ==> is_reference(word),
    decreases words.len() - from,
{
    if 0 <= from < words.len() && !is_reference(words[from]) {
        lemma_first_reference(words, from + 1);
    }
}

proof fn lemma_named_handle(lines: Seq<Seq<char>>, from: int)
    ensures
        named_handle(lines, from) matches Some(name) ==> is_handle(name),
    decreases lines.len() - from,
{
    if 0 <= from < lines.len() {
        lemma_named_handle(lines, from + 1);
    }
}

/// Whatever the output of a command, only references and handles are read out of it.
pub proof fn law_effects_are_well_formed(output: Seq<char>)
    ensures
        first_reference(reference_words(output), 0) matches Some(word) ==> is_reference(word),
        named_handle(text::split_on(output, '\n'), 0) matches Some(name) ==> is_handle(name),
{
    lemma_first_reference(reference_words(output), 0);
    lemma_named_handle(text::split_on(output, '\n'), 0);
}

/// What is stored of a text has at most so many characters and the ellipsis.
pub proof fn law_details_are_bounded(s: Seq<char>, limit: nat)
    ensures
        detail(s, limit).len() <= limit + 1,
{
}

} // verus!
