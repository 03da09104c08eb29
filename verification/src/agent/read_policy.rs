//! The files that the agent may read, and how their lines are shown.
use vstd::prelude::*;

use crate::errors::stated;
use crate::paths;
use crate::text;

verus! {

pub const MAX_READ_PATH_BYTES: usize = 4096;

pub const MAX_READ_FILE_BYTES: usize = 1_000_000;

pub const MAX_READ_LINES: usize = 2000;

pub const MAX_READ_LINE_NUMBER: usize = 1_000_000;

/// A request to read lines of a file. Lines are counted from one.
#[derive(Clone, Debug, PartialEq, Eq)]
pub struct ReadInput {
    pub path: String,
    pub offset: Option<usize>,
    pub limit: Option<usize>,
}

/// The lines that were read, and where they stand in the file.
#[derive(Clone, Debug, PartialEq, Eq)]
pub struct ReadResult {
    pub path: String,
    pub size: usize,
    pub total_lines: usize,
    pub start_line: usize,
    pub end_line: usize,
    pub truncated: bool,
    pub text: String,
}

/// A root that may be read from, as it was written, and its canonical form where it has one.
#[derive(Clone, Debug)]
pub struct ReadRoot {
    pub path: String,
    pub canonical: Option<String>,
}

/// Where files may be read, and how much of them is shown.
#[derive(Clone, Debug)]
pub struct ReadPolicy {
    roots: Vec<String>,
    max_output_bytes: usize,
}

/// What is wrong with a request, before any file is looked at.
pub open spec fn input_problem(input: ReadInput) -> Option<Seq<char>> {
    if input.path@.len() == 0 || text::byte_len(input.path@) > MAX_READ_PATH_BYTES {
        Some("file path length is outside read policy bounds"@)
    } else if input.path@.contains('\0') {
        Some("NUL bytes are forbidden"@)
    } else if input.offset matches Some(value) && (value == 0 || value > MAX_READ_LINE_NUMBER) {
        Some("offset is outside read policy bounds"@)
    } else if input.limit matches Some(value) && (value == 0 || value > MAX_READ_LINES) {
        Some("limit is outside read policy bounds"@)
    } else {
        None
    }
}

fn has_nul(chars: &Vec<char>) -> (found: bool)
    ensures
        found == chars@.contains('\0'),
{
    let mut i: usize = 0;
    while i < chars.len()
        invariant
            i <= chars@.len(),
            forall|k: int| 0 <= k < i ==> chars@[k] != '\0',
        decreases chars@.len() - i,
    {
        if chars[i] == '\0' {
            return true;
        }
        i += 1;
    }
    false
}

/// Checks a request before any file is looked at.
pub fn validate_input(input: &ReadInput) -> (result: Result<(), String>)
    ensures
        stated(result) == input_problem(*input),
{
    let chars = text::chars_of(input.path.as_str());
    if chars.len() == 0 || text::byte_count(&chars) > MAX_READ_PATH_BYTES as u128 {
        return Err("file path length is outside read policy bounds".to_owned());
    }
    if has_nul(&chars) {
        return Err("NUL bytes are forbidden".to_owned());
    }
    if let Some(value) = input.offset {
        if value == 0 || value > MAX_READ_LINE_NUMBER {
            return Err("offset is outside read policy bounds".to_owned());
        }
    }
    if let Some(value) = input.limit {
        if value == 0 || value > MAX_READ_LINES {
            return Err("limit is outside read policy bounds".to_owned());
        }
    }
    Ok(())
}

// ---------------------------------------------------------------------------------------------
// Lines
// ---------------------------------------------------------------------------------------------

/// The line without a trailing carriage return.
pub open spec fn without_return(line: Seq<char>) -> Seq<char> {
    if line.len() > 0 && line.last() == '\r' {
        line.drop_last()
    } else {
        line
    }
}

/// The lines of a file: what stands between the line breaks, of either sort.
pub open spec fn file_lines(content: Seq<char>) -> Seq<Seq<char>> {
    text::split_on(content, '\n').map_values(|line: Seq<char>| without_return(line))
}

/// A line as it is shown: its number and its text.
pub open spec fn rendered(lines: Seq<Seq<char>>, index: int) -> Seq<char> {
    text::decimal((index + 1) as nat) + "\t"@ + lines[index]
}

/// The lines from `start` to before `index` as they are shown.
pub open spec fn shown(lines: Seq<Seq<char>>, start: int, index: int) -> Seq<Seq<char>> {
    Seq::new((index - start) as nat, |k: int| rendered(lines, start + k))
}

/// The lines from `start` to before `index` as one text.
pub open spec fn shown_text(lines: Seq<Seq<char>>, start: int, index: int) -> Seq<char> {
    text::join(shown(lines, start, index), "\n"@)
}

/// The notice below lines that end at `last` because no more fit.
pub open spec fn cut_notice(
    max_bytes: nat,
    start: int,
    last: int,
    total: nat,
) -> Seq<char> {
    "[Output truncated at "@ + text::decimal(max_bytes) + " bytes. Showing lines "@
        + text::decimal((start + 1) as nat) + "-"@ + text::decimal(last as nat) + " of "@
        + text::decimal(total) + ". Use offset="@ + text::decimal((last + 1) as nat)
        + " to continue.]"@
}

/// The notice below lines that end at `last` because no more were asked for.
pub open spec fn page_notice(start: int, last: int, total: nat) -> Seq<char> {
    "[Showing lines "@ + text::decimal((start + 1) as nat) + "-"@ + text::decimal(last as nat)
        + " of "@ + text::decimal(total) + ". Use offset="@ + text::decimal((last + 1) as nat)
        + " to continue.]"@
}

/// The notice below a single line that does not fit.
pub open spec fn line_notice(max_bytes: nat, number: int, total: nat) -> Seq<char> {
    "\n[Output truncated at "@ + text::decimal(max_bytes) + " bytes on line "@ + text::decimal(
        number as nat,
    ) + " of "@ + text::decimal(total) + ". Use offset="@ + text::decimal(number as nat)
        + " to reread the line.]"@
}

/// What must still fit below the line at `index`: the notice that may follow it.
pub open spec fn reserve(lines: Seq<Seq<char>>, start: int, index: int, max_bytes: nat) -> nat {
    if index + 1 < lines.len() {
        text::byte_len("\n"@ + cut_notice(max_bytes, start, index + 1, lines.len()))
    } else {
        0
    }
}

/// Whether the lines up to the one at `index`, with the notice that may follow, fit.
pub open spec fn fits(lines: Seq<Seq<char>>, start: int, index: int, max_bytes: nat) -> bool {
    text::byte_len(shown_text(lines, start, index + 1)) + reserve(lines, start, index, max_bytes)
        <= max_bytes
}

/// The first line from `index` on that does not fit, or else `end`.
pub open spec fn stop(
    lines: Seq<Seq<char>>,
    start: int,
    end: int,
    max_bytes: nat,
    index: int,
) -> int
    decreases end - index,
{
    if index >= end || !fits(lines, start, index, max_bytes) {
        index
    } else {
        stop(lines, start, end, max_bytes, index + 1)
    }
}

/// Lines as they are shown: their text, the last of them, and whether some were cut off.
pub struct FormattedModel {
    pub text: Seq<char>,
    pub end_line: int,
    pub truncated: bool,
}

/// The line at `start` where not even it fits: as much of it as there is room for.
pub open spec fn cut_line(lines: Seq<Seq<char>>, start: int, max_bytes: nat) -> Seq<char> {
    let prefix = text::decimal((start + 1) as nat) + "\t"@;
    let notice = line_notice(max_bytes, start + 1, lines.len());
    let taken = text::byte_len(prefix) + text::byte_len(notice);
    let available = if taken >= max_bytes {
        0
    } else {
        (max_bytes - taken) as nat
    };
    prefix + text::byte_prefix(lines[start], available) + notice
}

/// The lines from `start` to before `end`, as many as fit.
pub open spec fn formatted(
    lines: Seq<Seq<char>>,
    start: int,
    end: int,
    max_bytes: nat,
) -> FormattedModel {
    let last = stop(lines, start, end, max_bytes, start);
    if last < end {
        if last > start {
            FormattedModel {
                text: shown_text(lines, start, last) + "\n"@ + cut_notice(
                    max_bytes,
                    start,
                    last,
                    lines.len(),
                ),
                end_line: last,
                truncated: true,
            }
        } else {
            FormattedModel {
                text: cut_line(lines, start, max_bytes),
                end_line: start + 1,
                truncated: true,
            }
        }
    } else {
        let end_line = if start + 1 > end {
            start + 1
        } else {
            end
        };
        let body = shown(lines, start, last);
        FormattedModel {
            text: text::join(
                if end < lines.len() {
                    body.push(page_notice(start, end_line, lines.len()))
                } else {
                    body
                },
                "\n"@,
            ),
            end_line,
            truncated: false,
        }
    }
}

/// Lines as they are shown.
#[derive(Clone, Debug)]
pub struct FormattedLines {
    pub text: String,
    pub end_line: usize,
    pub truncated: bool,
}

impl View for FormattedLines {
    type V = FormattedModel;

    open spec fn view(&self) -> FormattedModel {
        FormattedModel {
            text: self.text@,
            end_line: self.end_line as int,
            truncated: self.truncated,
        }
    }
}

fn number(n: usize) -> (out: String)
    ensures
        out@ == text::decimal(n as nat),
{
    text::decimal_of(n as u128)
}

fn cut_notice_text(max_bytes: usize, start: usize, last: usize, total: usize) -> (out: String)
    requires
        start < usize::MAX,
        last < usize::MAX,
    ensures
        out@ == cut_notice(max_bytes as nat, start as int, last as int, total as nat),
{
    let mut out = "[Output truncated at ".to_owned();
    out.append(number(max_bytes).as_str());
    out.append(" bytes. Showing lines ");
    out.append(number(start + 1).as_str());
    out.append("-");
    out.append(number(last).as_str());
    out.append(" of ");
    out.append(number(total).as_str());
    out.append(". Use offset=");
    out.append(number(last + 1).as_str());
    out.append(" to continue.]");
    out
}

fn page_notice_text(start: usize, last: usize, total: usize) -> (out: String)
    requires
        start < usize::MAX,
        last < usize::MAX,
    ensures
        out@ == page_notice(start as int, last as int, total as nat),
{
    let mut out = "[Showing lines ".to_owned();
    out.append(number(start + 1).as_str());
    out.append("-");
    out.append(number(last).as_str());
    out.append(" of ");
    out.append(number(total).as_str());
    out.append(". Use offset=");
    out.append(number(last + 1).as_str());
    out.append(" to continue.]");
    out
}

fn line_notice_text(max_bytes: usize, line: usize, total: usize) -> (out: String)
    ensures
        out@ == line_notice(max_bytes as nat, line as int, total as nat),
{
    let mut out = "\n[Output truncated at ".to_owned();
    out.append(number(max_bytes).as_str());
    out.append(" bytes on line ");
    out.append(number(line).as_str());
    out.append(" of ");
    out.append(number(total).as_str());
    out.append(". Use offset=");
    out.append(number(line).as_str());
    out.append(" to reread the line.]");
    out
}

fn render_line(lines: &Vec<String>, index: usize) -> (out: String)
    requires
        index < lines@.len(),
        index < usize::MAX,
    ensures
        out@ == rendered(text::texts(lines@), index as int),
{
    let mut out = number(index + 1);
    out.append("\t");
    out.append(lines[index].as_str());
    out
}

/// The bytes of a string.
fn bytes_of(s: &str) -> (n: u128)
    ensures
        n == text::byte_len(s@),
        n <= 4 * usize::MAX,
{
    let chars = text::chars_of(s);
    let total: usize = chars.len();
    text::byte_count(&chars)
}

/// The longest prefix of at most so many bytes.
pub fn truncate_utf8(value: &str, max_bytes: u64) -> (out: String)
    ensures
        out@ == text::byte_prefix(value@, max_bytes as nat),
{
    text::take_bytes(value, max_bytes)
}

fn cut_line_text(lines: &Vec<String>, start: usize, max_bytes: usize) -> (out: String)
    requires
        start < lines@.len(),
        start < usize::MAX,
    ensures
        out@ == cut_line(text::texts(lines@), start as int, max_bytes as nat),
{
    let mut out = number(start + 1);
    out.append("\t");
    let notice = line_notice_text(max_bytes, start + 1, lines.len());
    let taken: u128 = bytes_of(out.as_str()) + bytes_of(notice.as_str());
    let available: u64 = if taken >= max_bytes as u128 {
        0
    } else {
        (max_bytes as u128 - taken) as u64
    };
    out.append(truncate_utf8(lines[start].as_str(), available).as_str());
    out.append(notice.as_str());
    out
}

/// The lines from `start` to before `end`, each with its number, as many as fit in the limit,
/// with a notice where lines are left out.
#[verifier::rlimit(40)]
pub fn format_lines(lines: &Vec<String>, start: usize, end: usize, max_bytes: usize) -> (out:
    FormattedLines)
    requires
        start < end <= lines@.len(),
    ensures
        out@ == formatted(text::texts(lines@), start as int, end as int, max_bytes as nat),
{
    let ghost all = text::texts(lines@);
    let total: usize = lines.len();
    let mut output: Vec<String> = Vec::new();
    assert(text::texts(output@) =~= shown(all, start as int, start as int));
    let mut index: usize = start;
    while index < end
        invariant
            start <= index <= end,
            start < end <= lines@.len() == total,
            all == text::texts(lines@),
            text::texts(output@) == shown(all, start as int, index as int),
            output@.len() == index - start,
            stop(all, start as int, end as int, max_bytes as nat, start as int) == stop(
                all,
                start as int,
                end as int,
                max_bytes as nat,
                index as int,
            ),
        decreases end - index,
    {
        let line = render_line(lines, index);
        let ghost before = output@;
        let reserved: u128 = if index + 1 < total {
            let mut tail = "\n".to_owned();
            tail.append(cut_notice_text(max_bytes, start, index + 1, total).as_str());
            bytes_of(tail.as_str())
        } else {
            0
        };
        let ghost line_text = line@;
        output.push(line);
        assert(text::texts(output@) =~= text::texts(before).push(line_text));
        assert(shown(all, start as int, index + 1) =~= shown(
            all,
            start as int,
            index as int,
        ).push(line_text));
        let candidate = text::join_strings(&output, "\n");
        let needed: u128 = bytes_of(candidate.as_str()) + reserved;
        if needed > max_bytes as u128 {
            assert(!fits(all, start as int, index as int, max_bytes as nat));
            if index > start {
                output.pop();
                assert(output@ =~= before);
                let mut shown_lines = text::join_strings(&output, "\n");
                shown_lines.append("\n");
                shown_lines.append(cut_notice_text(max_bytes, start, index, total).as_str());
                assert(shown_lines@ =~= shown_text(all, start as int, index as int) + "\n"@
                    + cut_notice(max_bytes as nat, start as int, index as int, all.len()));
                return FormattedLines { text: shown_lines, end_line: index, truncated: true };
            }
            return FormattedLines {
                text: cut_line_text(lines, start, max_bytes),
                end_line: start + 1,
                truncated: true,
            };
        }
        assert(fits(all, start as int, index as int, max_bytes as nat));
        index += 1;
    }
    let end_line: usize = if start + 1 > end {
        start + 1
    } else {
        end
    };
    if end < total {
        let ghost body = output@;
        output.push(page_notice_text(start, end_line, total));
        assert(text::texts(output@) =~= text::texts(body).push(
            page_notice(start as int, end_line as int, all.len()),
        ));
    }
    FormattedLines { text: text::join_strings(&output, "\n"), end_line, truncated: false }
}

fn split_lines(content: &str) -> (lines: Vec<String>)
    ensures
        text::texts(lines@) == file_lines(content@),
        lines@.len() > 0,
{
    proof {
        text::lemma_split_on_some(content@, '\n');
    }
    let parts = text::split_chars(&text::chars_of(content), '\n');
    let ghost all = file_lines(content@);
    let mut lines: Vec<String> = Vec::new();
    let mut i: usize = 0;
    while i < parts.len()
        invariant
            i <= parts@.len() == all.len(),
            all == file_lines(content@),
            parts@.len() == text::split_on(content@, '\n').len(),
            forall|k: int|
                0 <= k < parts@.len() ==> (#[trigger] parts@[k])@ == text::split_on(
                    content@,
                    '\n',
                )[k],
            lines@.len() == i,
            text::texts(lines@) == all.take(i as int),
        decreases parts@.len() - i,
    {
        let part = &parts[i];
        assert(all[i as int] == without_return(part@));
        let end: usize = if part.len() > 0 && part[part.len() - 1] == '\r' {
            part.len() - 1
        } else {
            part.len()
        };
        let line = text::string_of(part, 0, end);
        assert(line@ =~= all[i as int]);
        let ghost before = lines@;
        lines.push(line);
        assert(text::texts(lines@) =~= text::texts(before).push(all[i as int]));
        assert(all.take(i + 1) =~= all.take(i as int).push(all[i as int]));
        i += 1;
    }
    assert(all.take(i as int) =~= all);
    lines
}

// ---------------------------------------------------------------------------------------------
// The policy
// ---------------------------------------------------------------------------------------------

/// The end of the lines that are asked for.
pub open spec fn page_end(start: int, limit: Option<usize>, total: int) -> int {
    match limit {
        Some(limit) => if start + limit < total {
            start + limit
        } else {
            total
        },
        None => total,
    }
}

/// What reading lines of a content gives, or why it is refused.
pub open spec fn read_outcome(
    input: ReadInput,
    path: Seq<char>,
    bytes: Seq<u8>,
    max_output_bytes: nat,
    result: Result<ReadResult, String>,
) -> bool {
    let offset = match input.offset {
        Some(offset) => offset as int,
        None => 1,
    };
    if bytes.len() > MAX_READ_FILE_BYTES {
        stated(result) == Some(
            "file exceeds the "@ + text::decimal(MAX_READ_FILE_BYTES as nat)
                + " byte read limit: "@ + input.path@,
        )
    } else if !vstd::utf8::valid_utf8(bytes) {
        stated(result) == Some("file is not valid UTF-8 text: "@ + input.path@)
    } else {
        let lines = file_lines(vstd::utf8::decode_utf8(bytes));
        let end = page_end(offset - 1, input.limit, lines.len() as int);
        if offset > lines.len() {
            stated(result) == Some(
                "offset "@ + text::decimal(offset as nat) + " is beyond end of file ("@
                    + text::decimal(lines.len()) + " lines)"@,
            )
        } else {
            let page = formatted(lines, offset - 1, end, max_output_bytes);
            &&& result is Ok
            &&& result->Ok_0.path@ == path
            &&& result->Ok_0.size == bytes.len()
            &&& result->Ok_0.total_lines == lines.len()
            &&& result->Ok_0.start_line == offset
            &&& result->Ok_0.end_line == page.end_line
            &&& result->Ok_0.truncated == (page.truncated || end < lines.len())
            &&& result->Ok_0.text@ == page.text
        }
    }
}

fn size_refusal(input: &ReadInput) -> (out: String)
    ensures
        out@ == "file exceeds the "@ + text::decimal(MAX_READ_FILE_BYTES as nat)
            + " byte read limit: "@ + input.path@,
{
    let mut out = "file exceeds the ".to_owned();
    out.append(number(MAX_READ_FILE_BYTES).as_str());
    out.append(" byte read limit: ");
    out.append(input.path.as_str());
    out
}

impl ReadPolicy {
    /// The roots in normal form: those given, and their canonical forms.
    pub closed spec fn roots(self) -> Seq<Seq<char>> {
        text::texts(self.roots@)
    }

    pub closed spec fn limit(self) -> nat {
        self.max_output_bytes as nat
    }

    /// A policy for the roots. Every root must have a canonical form; the policy approves the
    /// root as it was written, in normal form, and its canonical form.
    pub fn new(roots: &Vec<ReadRoot>, max_output_bytes: usize, current_directory: &str) -> (result:
        Result<Self, String>)
        ensures
            match result {
                Ok(policy) => {
                    &&& policy.limit() == max_output_bytes
                    &&& policy.roots() == approved_roots(
                        roots@,
                        current_directory@,
                        roots@.len() as int,
                    )
                    &&& first_unavailable(roots@, 0) is None
                },
                Err(message) => first_unavailable(roots@, 0) matches Some(path) && message@
                    == "approved read root is unavailable: "@ + path,
            },
    {
        let mut approved: Vec<String> = Vec::new();
        let mut i: usize = 0;
        assert(text::texts(approved@) =~= approved_roots(roots@, current_directory@, 0));
        while i < roots.len()
            invariant
                i <= roots@.len(),
                text::texts(approved@) == approved_roots(
                    roots@,
                    current_directory@,
                    i as int,
                ),
                first_unavailable(roots@, 0) == first_unavailable(roots@, i as int),
            decreases roots@.len() - i,
        {
            let root = &roots[i];
            let canonical = match &root.canonical {
                Some(canonical) => canonical.clone(),
                None => {
                    let mut message = "approved read root is unavailable: ".to_owned();
                    message.append(root.path.as_str());
                    return Err(message);
                },
            };
            let lexical = paths::absolute_path(root.path.as_str(), current_directory);
            let ghost before = approved@;
            approved.push(lexical);
            approved.push(canonical);
            assert(text::texts(approved@) =~= text::texts(before).push(lexical@).push(
                canonical@,
            ));
            i += 1;
        }
        Ok(ReadPolicy { roots: approved, max_output_bytes })
    }

    /// How much of a file is shown at most.
    pub fn max_output_bytes(&self) -> (bytes: usize)
        ensures
            bytes == self.limit(),
    {
        self.max_output_bytes
    }

    /// The path that the request names, where it is in order and lies in an approved root.
    pub fn authorize(&self, input: &ReadInput, cwd: &str, current_directory: &str) -> (result:
        Result<String, String>)
        ensures
            ({
                let requested = paths::absolute_form(
                    paths::joined(cwd@, input.path@),
                    current_directory@,
                );
                if input_problem(*input) is Some {
                    stated(result) == input_problem(*input)
                } else if !paths::within(requested, self.roots(), current_directory@) {
                    stated(result) == Some("file is outside approved roots: "@ + input.path@)
                } else {
                    result matches Ok(path) && path@ == requested
                }
            }),
    {
        if let Err(message) = validate_input(input) {
            return Err(message);
        }
        let requested = paths::absolute_path(
            paths::join(cwd, input.path.as_str()).as_str(),
            current_directory,
        );
        if !paths::is_within(requested.as_str(), &self.roots, current_directory) {
            let mut message = "file is outside approved roots: ".to_owned();
            message.append(input.path.as_str());
            return Err(message);
        }
        Ok(requested)
    }

    /// Holds the canonical form of the path against the roots once more, so that no link leads
    /// out of them.
    pub fn confirm(
        &self,
        input: &ReadInput,
        canonical: Option<&str>,
        current_directory: &str,
    ) -> (result: Result<(), String>)
        ensures
            stated(result) == (match canonical {
                None => Some("file is unavailable: "@ + input.path@),
                Some(path) => if paths::within(path@, self.roots(), current_directory@) {
                    None
                } else {
                    Some("canonical file path is outside approved roots: "@ + input.path@)
                },
            }),
    {
        match canonical {
            None => {
                let mut message = "file is unavailable: ".to_owned();
                message.append(input.path.as_str());
                Err(message)
            },
            Some(path) => {
                if paths::is_within(path, &self.roots, current_directory) {
                    Ok(())
                } else {
                    let mut message = "canonical file path is outside approved roots: ".to_owned();
                    message.append(input.path.as_str());
                    Err(message)
                }
            },
        }
    }

    /// Checks an opened file: it is a regular one, and not too large.
    pub fn accept_file(input: &ReadInput, regular: bool, size: u64) -> (result: Result<(), String>)
        ensures
            stated(result) == (if !regular {
                Some("path is not a regular file: "@ + input.path@)
            } else if size > MAX_READ_FILE_BYTES {
                Some(
                    "file exceeds the "@ + text::decimal(MAX_READ_FILE_BYTES as nat)
                        + " byte read limit: "@ + input.path@,
                )
            } else {
                None
            }),
    {
        if !regular {
            let mut message = "path is not a regular file: ".to_owned();
            message.append(input.path.as_str());
            return Err(message);
        }
        if size > MAX_READ_FILE_BYTES as u64 {
            return Err(size_refusal(input));
        }
        Ok(())
    }

    /// The lines that the request asks for, out of the bytes of the file.
    pub fn read(&self, input: &ReadInput, path: &str, bytes: &Vec<u8>) -> (result: Result<
        ReadResult,
        String,
    >)
        requires
            input_problem(*input) is None,
        ensures
            read_outcome(*input, path@, bytes@, self.limit(), result),
    {
        if bytes.len() > MAX_READ_FILE_BYTES {
            return Err(size_refusal(input));
        }
        let content = match text::from_utf8(bytes) {
            Some(content) => content,
            None => {
                let mut message = "file is not valid UTF-8 text: ".to_owned();
                message.append(input.path.as_str());
                return Err(message);
            },
        };
        let lines = split_lines(content.as_str());
        let total: usize = lines.len();
        let offset: usize = match input.offset {
            Some(offset) => offset,
            None => 1,
        };
        if offset > total {
            let mut message = "offset ".to_owned();
            message.append(number(offset).as_str());
            message.append(" is beyond end of file (");
            message.append(number(total).as_str());
            message.append(" lines)");
            return Err(message);
        }
        let start: usize = offset - 1;
        let end: usize = match input.limit {
            Some(limit) => if limit < total - start {
                start + limit
            } else {
                total
            },
            None => total,
        };
        let page = format_lines(&lines, start, end, self.max_output_bytes);
        Ok(
            ReadResult {
                path: path.to_owned(),
                size: bytes.len(),
                total_lines: total,
                start_line: offset,
                end_line: page.end_line,
                truncated: page.truncated || end < total,
                text: page.text,
            },
        )
    }
}

/// The approved forms of the first `count` roots.
pub open spec fn approved_roots(
    roots: Seq<ReadRoot>,
    current_directory: Seq<char>,
    count: int,
) -> Seq<Seq<char>>
    decreases count,
{
    if count <= 0 {
        Seq::empty()
    } else {
        approved_roots(roots, current_directory, count - 1).push(
            paths::absolute_form(roots[count - 1].path@, current_directory),
        ).push(
            match roots[count - 1].canonical {
                Some(canonical) => canonical@,
                None => Seq::empty(),
            },
        )
    }
}

/// The first root from `from` on that has no canonical form.
pub open spec fn first_unavailable(roots: Seq<ReadRoot>, from: int) -> Option<Seq<char>>
    decreases roots.len() - from,
{
    if from < 0 || from >= roots.len() {
        None
    } else if roots[from].canonical is None {
        Some(roots[from].path@)
    } else {
        first_unavailable(roots, from + 1)
    }
}

// ---------------------------------------------------------------------------------------------
// Laws
// ---------------------------------------------------------------------------------------------

proof fn lemma_stop(
    lines: Seq<Seq<char>>,
    start: int,
    end: int,
    max_bytes: nat,
    index: int,
)
    requires
        start <= index <= end,
        index > start ==> fits(lines, start, index - 1, max_bytes),
    ensures
        index <= stop(lines, start, end, max_bytes, index) <= end,
        stop(lines, start, end, max_bytes, index) > start ==> fits(
            lines,
            start,
            stop(lines, start, end, max_bytes, index) - 1,
            max_bytes,
        ),
    decreases end - index,
{
    if index < end && fits(lines, start, index, max_bytes) {
        lemma_stop(lines, start, end, max_bytes, index + 1);
    }
}

proof fn lemma_notice_lengths(max_bytes: nat, start: int, last: int, total: nat)
    ensures
        text::byte_len("\n"@ + page_notice(start, last, total)) <= text::byte_len(
            "\n"@ + cut_notice(max_bytes, start, last, total),
        ),
{
    let a = "[Output truncated at "@ + text::decimal(max_bytes) + " bytes. Showing lines "@;
    let b = "[Showing lines "@;
    let c = text::decimal((start + 1) as nat) + "-"@ + text::decimal(last as nat) + " of "@
        + text::decimal(total) + ". Use offset="@ + text::decimal((last + 1) as nat)
        + " to continue.]"@;
    assert(cut_notice(max_bytes, start, last, total) =~= a + c);
    assert(page_notice(start, last, total) =~= b + c);
    text::lemma_byte_len_add("\n"@, a + c);
    text::lemma_byte_len_add("\n"@, b + c);
    text::lemma_byte_len_add(a, c);
    text::lemma_byte_len_add(b, c);
    reveal_strlit("[Output truncated at ");
    reveal_strlit(" bytes. Showing lines ");
    reveal_strlit("[Showing lines ");
    text::lemma_byte_len_bounds(a);
    text::lemma_byte_len_ascii(b);
}

/// What is shown of a file stays within the limit, unless not even the number of the first
/// line and the notice below it fit.
pub proof fn law_shown_lines_fit(
    lines: Seq<Seq<char>>,
    start: int,
    end: int,
    max_bytes: nat,
)
    requires
        0 <= start < end <= lines.len(),
    ensures
        ({
            let prefix = text::decimal((start + 1) as nat) + "\t"@;
            let notice = line_notice(max_bytes, start + 1, lines.len());
            text::byte_len(formatted(lines, start, end, max_bytes).text) <= max_bytes || (
            !fits(lines, start, start, max_bytes) && text::byte_len(prefix) + text::byte_len(
                notice,
            ) > max_bytes)
        }),
{
    let last = stop(lines, start, end, max_bytes, start);
    lemma_stop(lines, start, end, max_bytes, start);
    let body = shown_text(lines, start, last);
    if last < end {
        if last > start {
            let notice = "\n"@ + cut_notice(max_bytes, start, last, lines.len());
            text::lemma_byte_len_add(body, notice);
            assert(body + "\n"@ + cut_notice(max_bytes, start, last, lines.len()) =~= body
                + notice);
        } else {
            let prefix = text::decimal((start + 1) as nat) + "\t"@;
            let notice = line_notice(max_bytes, start + 1, lines.len());
            let taken = text::byte_len(prefix) + text::byte_len(notice);
            if fits(lines, start, start, max_bytes) {
                lemma_stop(lines, start, end, max_bytes, start + 1);
            }
            if taken <= max_bytes {
                let available = (max_bytes - taken) as nat;
                let part = text::byte_prefix(lines[start], available);
                text::lemma_fitting(lines[start], available);
                text::lemma_byte_len_add(prefix + part, notice);
                text::lemma_byte_len_add(prefix, part);
                assert(formatted(lines, start, end, max_bytes).text == prefix + part + notice);
            }
        }
    } else if end < lines.len() {
        let notice = page_notice(start, end, lines.len());
        let all = shown(lines, start, last).push(notice);
        assert(all.drop_last() =~= shown(lines, start, last));
        assert(text::join(all, "\n"@) == body + "\n"@ + notice);
        assert(body + "\n"@ + notice =~= body + ("\n"@ + notice));
        text::lemma_byte_len_add(body, "\n"@ + notice);
        lemma_notice_lengths(max_bytes, start, end, lines.len());
        assert(formatted(lines, start, end, max_bytes).text == text::join(all, "\n"@));
    } else {
        assert(formatted(lines, start, end, max_bytes).text == body);
    }
}

/// Every page shows at least one line, and the next page that its notice names begins behind
/// the lines that this one showed: no line is skipped.
pub proof fn law_pages_follow_each_other(
    lines: Seq<Seq<char>>,
    start: int,
    end: int,
    max_bytes: nat,
)
    requires
        0 <= start < end <= lines.len(),
    ensures
        start < formatted(lines, start, end, max_bytes).end_line <= end,
        !formatted(lines, start, end, max_bytes).truncated ==> formatted(
            lines,
            start,
            end,
            max_bytes,
        ).end_line == end,
{
    lemma_stop(lines, start, end, max_bytes, start);
}

/// A request is looked at exactly if its path is there, is not too long and holds no null
/// character, and its numbers lie in their ranges.
pub proof fn law_requests_in_bounds(input: ReadInput)
    ensures
        input_problem(input) is None <==> {
            &&& 0 < input.path@.len()
            &&& text::byte_len(input.path@) <= 4096
            &&& forall|i: int| 0 <= i < input.path@.len() ==> #[trigger] input.path@[i] != '\0'
            &&& input.offset is None || 1 <= input.offset->0 <= 1_000_000
            &&& input.limit is None || 1 <= input.limit->0 <= 2000
        },
{
    if !input.path@.contains('\0') {
        assert forall|i: int| 0 <= i < input.path@.len() implies #[trigger] input.path@[i]
            != '\0' by {
            assert(input.path@.contains(input.path@[i]));
        }
    }
}

/// The lines of a file are what was written with line breaks of either sort between the lines.
pub proof fn law_lines_are_read_back(lines: Seq<Seq<char>>, carried: Seq<bool>)
    requires
        lines.len() > 0,
        carried.len() == lines.len(),
        forall|k: int, i: int|
            0 <= k < lines.len() && 0 <= i < lines[k].len() ==> #[trigger] lines[k][i] != '\n'
                && lines[k][i] != '\r',
    ensures
        file_lines(
            text::join(
                Seq::new(
                    lines.len(),
                    |k: int|
                        if carried[k] {
                            lines[k].push('\r')
                        } else {
                            lines[k]
                        },
                ),
                seq!['\n'],
            ),
        ) == lines,
{
    let written = Seq::new(
        lines.len(),
        |k: int|
            if carried[k] {
                lines[k].push('\r')
            } else {
                lines[k]
            },
    );
    assert forall|k: int, i: int|
        0 <= k < written.len() && 0 <= i < written[k].len() implies #[trigger] written[k][i]
        != '\n' by {
        if i < lines[k].len() {
            assert(written[k][i] == lines[k][i]);
        }
    }
    text::law_joined_parts_are_the_parts(written, '\n');
    let read = file_lines(text::join(written, seq!['\n']));
    assert forall|k: int| 0 <= k < lines.len() implies #[trigger] read[k] =~= lines[k] by {
        if carried[k] {
            assert(written[k].drop_last() =~= lines[k]);
        } else if lines[k].len() > 0 {
            assert(lines[k][lines[k].len() - 1] != '\r');
        }
    }
    assert(read =~= lines);
}

/// Every line that is shown is shown under its own number, counted from one, behind a tab.
pub proof fn law_lines_are_numbered(lines: Seq<Seq<char>>, start: int, index: int, k: int)
    requires
        0 <= start <= k < index <= lines.len(),
    ensures
        shown(lines, start, index).len() == index - start,
        shown(lines, start, index)[k - start] == text::decimal((k + 1) as nat) + seq!['\t']
            + lines[k],
{
    reveal_strlit("\t");
    assert("\t"@ =~= seq!['\t']);
}

/// A page that fits and reaches the end of the file is the lines themselves, each under its number,
/// with nothing below them.
pub proof fn law_last_pages_are_the_lines(
    lines: Seq<Seq<char>>,
    start: int,
    max_bytes: nat,
)
    requires
        0 <= start < lines.len(),
        !formatted(lines, start, lines.len() as int, max_bytes).truncated,
    ensures
        formatted(lines, start, lines.len() as int, max_bytes).text == text::join(
            Seq::new(
                (lines.len() - start) as nat,
                |k: int| text::decimal((start + k + 1) as nat) + "\t"@ + lines[start + k],
            ),
            "\n"@,
        ),
        formatted(lines, start, lines.len() as int, max_bytes).end_line == lines.len(),
{
    let end = lines.len() as int;
    lemma_stop(lines, start, end, max_bytes, start);
    assert(shown(lines, start, end) =~= Seq::new(
        (lines.len() - start) as nat,
        |k: int| text::decimal((start + k + 1) as nat) + "\t"@ + lines[start + k],
    ));
}

/// A page ends where so many lines were asked for, and else with the file.
pub proof fn law_pages_end_where_asked(start: int, limit: usize, total: int)
    requires
        0 <= start <= total,
    ensures
        page_end(start, None, total) == total,
        page_end(start, Some(limit), total) - start <= limit,
        page_end(start, Some(limit), total) <= total,
        page_end(start, Some(limit), total) == total || page_end(start, Some(limit), total) - start
            == limit,
{
}

} // verus!
