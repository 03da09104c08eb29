//! The exchange with a source: what it is asked, and what it may answer.
use vstd::prelude::*;

use crate::database::records::{moment, rfc3339_millis};
use crate::errors::stated;
use crate::text;
use crate::urls;

verus! {

pub const PROTOCOL_VERSION: u8 = 1;

pub const MAX_STANDARD_INPUT_BYTES: u64 = 8_388_608;

/// What went wrong in the exchange with a source.
#[derive(Debug)]
pub enum ProtocolError {
    InputTooLarge,
    InvalidJson(String),
    InvalidRequest(String),
    InvalidResponse(String),
    Source(String),
    SourceUnavailable(String),
    Io(String),
}

fn labelled(label: &str, value: &String) -> (out: String)
    ensures
        out@ == label@ + value@,
{
    let mut out = label.to_owned();
    out.append(value.as_str());
    out
}

impl ProtocolError {
    pub open spec fn text(self) -> Seq<char> {
        match self {
            ProtocolError::InputTooLarge => "stdin exceeds "@ + text::decimal(
                MAX_STANDARD_INPUT_BYTES as nat,
            ) + " bytes"@,
            ProtocolError::InvalidJson(message) => "stdin does not contain one JSON request: "@
                + message@,
            ProtocolError::InvalidRequest(message) => "invalid poll request: "@ + message@,
            ProtocolError::InvalidResponse(message) => "invalid poll response: "@ + message@,
            ProtocolError::Source(message) => "source polling failed: "@ + message@,
            ProtocolError::SourceUnavailable(message) => "source polling is unavailable: "@
                + message@,
            ProtocolError::Io(message) => "standard stream error: "@ + message@,
        }
    }

    /// The text shown for the error.
    pub fn message(&self) -> (out: String)
        ensures
            out@ == self.text(),
    {
        match self {
            ProtocolError::InputTooLarge => {
                let mut out = "stdin exceeds ".to_owned();
                out.append(text::decimal_of(MAX_STANDARD_INPUT_BYTES as u128).as_str());
                out.append(" bytes");
                out
            },
            ProtocolError::InvalidJson(message) => {
                labelled("stdin does not contain one JSON request: ", message)
            },
            ProtocolError::InvalidRequest(message) => labelled("invalid poll request: ", message),
            ProtocolError::InvalidResponse(message) => {
                labelled("invalid poll response: ", message)
            },
            ProtocolError::Source(message) => labelled("source polling failed: ", message),
            ProtocolError::SourceUnavailable(message) => {
                labelled("source polling is unavailable: ", message)
            },
            ProtocolError::Io(message) => labelled("standard stream error: ", message),
        }
    }

    pub open spec fn category_name(self) -> Seq<char> {
        match self {
            ProtocolError::InputTooLarge => "input_limit"@,
            ProtocolError::InvalidJson(_) => "invalid_request"@,
            ProtocolError::InvalidRequest(_) => "invalid_request"@,
            ProtocolError::InvalidResponse(_) => "invalid_response"@,
            ProtocolError::Source(_) => "source"@,
            ProtocolError::SourceUnavailable(_) => "source"@,
            ProtocolError::Io(_) => "io"@,
        }
    }

    /// The category under which the error is logged.
    pub fn category(&self) -> (out: &'static str)
        ensures
            out@ == self.category_name(),
    {
        match self {
            ProtocolError::InputTooLarge => "input_limit",
            ProtocolError::InvalidJson(_) => "invalid_request",
            ProtocolError::InvalidRequest(_) => "invalid_request",
            ProtocolError::InvalidResponse(_) => "invalid_response",
            ProtocolError::Source(_) => "source",
            ProtocolError::SourceUnavailable(_) => "source",
            ProtocolError::Io(_) => "io",
        }
    }
}

/// What a source is asked. The checkpoint and the options are JSON texts.
#[derive(Clone, Debug)]
pub struct PollRequest {
    pub protocol_version: u8,
    pub source: String,
    pub checkpoint: String,
    pub now: String,
    pub item_limit: usize,
    pub options: String,
}

/// What a source answers. The checkpoint is a JSON text.
#[derive(Clone, Debug)]
pub struct PollResponse {
    pub protocol_version: u8,
    pub checkpoint: String,
    pub items: Vec<IntakeItem>,
}

/// Something that a source has seen. The metadata is the JSON text of an object.
#[derive(Clone, Debug)]
pub struct IntakeItem {
    pub entity_id: String,
    pub revision_id: String,
    pub kind: IntakeItemKind,
    pub title: String,
    pub body: String,
    pub url: Option<String>,
    pub occurred_at: String,
    pub metadata: String,
}

/// The kind of something that a source has seen.
#[derive(Clone, Copy, Debug, PartialEq, Eq, Structural)]
pub enum IntakeItemKind {
    Email,
    GithubIssue,
    GithubPullRequest,
    Generic,
}

impl IntakeItemKind {
    pub open spec fn name(self) -> Seq<char> {
        match self {
            IntakeItemKind::Email => "email"@,
            IntakeItemKind::GithubIssue => "github-issue"@,
            IntakeItemKind::GithubPullRequest => "github-pull-request"@,
            IntakeItemKind::Generic => "generic"@,
        }
    }

    /// The name under which the kind is written and stored.
    pub fn as_str(self) -> (out: &'static str)
        ensures
            out@ == self.name(),
    {
        match self {
            IntakeItemKind::Email => "email",
            IntakeItemKind::GithubIssue => "github-issue",
            IntakeItemKind::GithubPullRequest => "github-pull-request",
            IntakeItemKind::Generic => "generic",
        }
    }
}

// ---------------------------------------------------------------------------------------------
// Fields
// ---------------------------------------------------------------------------------------------

/// What is wrong with the length of a text, in UTF-16 code units.
pub open spec fn length_problem(
    name: Seq<char>,
    value: Seq<char>,
    minimum: nat,
    maximum: nat,
) -> Option<Seq<char>> {
    if minimum <= text::utf16_units(value) <= maximum {
        None
    } else {
        Some(
            name + ": must contain between "@ + text::decimal(minimum) + " and "@ + text::decimal(
                maximum,
            ) + " UTF-16 code units"@,
        )
    }
}

fn validate_utf16_range(name: &str, value: &str, minimum: u64, maximum: u64) -> (result: Result<
    (),
    String,
>)
    ensures
        stated(result) == length_problem(name@, value@, minimum as nat, maximum as nat),
{
    let length = text::utf16_count(&text::chars_of(value));
    if minimum as u128 <= length && length <= maximum as u128 {
        Ok(())
    } else {
        let mut message = name.to_owned();
        message.append(": must contain between ");
        message.append(text::decimal_of(minimum as u128).as_str());
        message.append(" and ");
        message.append(text::decimal_of(maximum as u128).as_str());
        message.append(" UTF-16 code units");
        Err(message)
    }
}

/// The first place from `from` on at which the byte stands.
pub open spec fn byte_place(bytes: Seq<u8>, byte: u8, from: int) -> Option<int>
    decreases bytes.len() - from,
{
    if from < 0 || from >= bytes.len() {
        None
    } else if bytes[from] == byte {
        Some(from)
    } else {
        byte_place(bytes, byte, from + 1)
    }
}

/// Whether the bytes have the shape of a time of day: hours and minutes, with seconds, or with
/// seconds and a fraction of them.
pub open spec fn time_shape(bytes: Seq<u8>) -> bool {
    ||| bytes.len() == 5 && bytes[2] == 0x3a
    ||| bytes.len() == 8 && bytes[2] == 0x3a && bytes[5] == 0x3a
    ||| {
        &&& bytes.len() > 9
        &&& bytes[2] == 0x3a
        &&& bytes[5] == 0x3a
        &&& bytes[8] == 0x2e
        &&& forall|i: int| 9 <= i < bytes.len() ==> 0x30 <= #[trigger] bytes[i] <= 0x39
    }
}

/// Whether the text has a date of ten bytes, a `T` behind it and a `Z` at its end.
pub open spec fn utc_frame(bytes: Seq<u8>) -> bool {
    bytes.len() > 10 && bytes[10] == 0x54 && bytes.last() == 0x5a
}

/// The bytes between the first `T` and the `Z` at the end.
pub open spec fn time_part(bytes: Seq<u8>) -> Seq<u8> {
    match byte_place(bytes, 0x54, 0) {
        Some(place) => bytes.subrange(place + 1, bytes.len() - 1),
        None => Seq::empty(),
    }
}

/// What is wrong with a moment: it has to be a UTC date-time that `chrono` reads as RFC 3339.
/// Seconds may be left out.
pub open spec fn datetime_problem(name: Seq<char>, value: Seq<char>) -> Option<Seq<char>> {
    let bytes = vstd::utf8::encode_utf8(value);
    if !utc_frame(bytes) {
        Some(name + ": must be a UTC date-time ending in Z"@)
    } else {
        let time = time_part(bytes);
        let read = if time.len() == 5 {
            rfc3339_millis(value.drop_last() + ":00Z"@)
        } else {
            rfc3339_millis(value)
        };
        if time_shape(time) && read is Some {
            None
        } else {
            Some(name + ": invalid UTC date-time"@)
        }
    }
}

fn has_time_shape(bytes: &[u8], start: usize, end: usize) -> (b: bool)
    requires
        start <= end <= bytes@.len(),
    ensures
        b == time_shape(bytes@.subrange(start as int, end as int)),
{
    let ghost time = bytes@.subrange(start as int, end as int);
    let length: usize = end - start;
    if length == 5 {
        assert(time[2] == bytes@[start + 2]);
        return bytes[start + 2] == 0x3a;
    }
    if length == 8 {
        assert(time[2] == bytes@[start + 2] && time[5] == bytes@[start + 5]);
        return bytes[start + 2] == 0x3a && bytes[start + 5] == 0x3a;
    }
    if length <= 9 {
        return false;
    }
    assert(time[2] == bytes@[start + 2] && time[5] == bytes@[start + 5] && time[8] == bytes@[start
        + 8]);
    if !(bytes[start + 2] == 0x3a && bytes[start + 5] == 0x3a && bytes[start + 8] == 0x2e) {
        return false;
    }
    let mut i: usize = 9;
    while i < length
        invariant
            9 <= i <= length,
            length == end - start,
            end <= bytes@.len(),
            time == bytes@.subrange(start as int, end as int),
            forall|k: int| 9 <= k < i ==> 0x30 <= #[trigger] time[k] <= 0x39,
        decreases length - i,
    {
        let byte = bytes[start + i];
        assert(time[i as int] == byte);
        if byte < 0x30 || byte > 0x39 {
            return false;
        }
        i += 1;
    }
    true
}

fn validate_utc_datetime(name: &str, value: &str) -> (result: Result<(), String>)
    ensures
        stated(result) == datetime_problem(name@, value@),
{
    let bytes = value.as_bytes();
    let total: usize = bytes.len();
    if total <= 10 || bytes[10] != 0x54 || bytes[total - 1] != 0x5a {
        let mut message = name.to_owned();
        message.append(": must be a UTC date-time ending in Z");
        return Err(message);
    }
    let mut place: usize = 0;
    while bytes[place] != 0x54
        invariant
            place <= 10 < total,
            total == bytes@.len(),
            bytes@[10] == 0x54,
            byte_place(bytes@, 0x54, 0) == byte_place(bytes@, 0x54, place as int),
        decreases 10 - place,
    {
        place += 1;
    }
    let valid_shape = has_time_shape(bytes, place + 1, total - 1);
    let chars = text::chars_of(value);
    proof {
        if chars@.len() == 0 {
            assert(vstd::utf8::encode_utf8(chars@).len() == 0);
        }
    }
    let read = if total - 1 - (place + 1) == 5 {
        let mut whole = text::string_of(&chars, 0, chars.len() - 1);
        assert(whole@ =~= value@.drop_last());
        whole.append(":00Z");
        moment(whole.as_str())
    } else {
        moment(value)
    };
    if valid_shape && read.is_some() {
        Ok(())
    } else {
        let mut message = name.to_owned();
        message.append(": invalid UTC date-time");
        Err(message)
    }
}

// ---------------------------------------------------------------------------------------------
// Messages
// ---------------------------------------------------------------------------------------------

/// The first of two problems.
pub open spec fn first_problem(a: Option<Seq<char>>, b: Option<Seq<char>>) -> Option<Seq<char>> {
    match a {
        Some(_) => a,
        None => b,
    }
}

/// What is wrong with an item.
pub open spec fn item_problem(item: IntakeItem) -> Option<Seq<char>> {
    first_problem(
        length_problem("entityId"@, item.entity_id@, 1, 1024),
        first_problem(
            length_problem("revisionId"@, item.revision_id@, 1, 1024),
            first_problem(
                length_problem("title"@, item.title@, 0, 4096),
                first_problem(
                    length_problem("body"@, item.body@, 0, 1_000_000),
                    first_problem(
                        match item.url {
                            Some(url) => if urls::url_parts(url@) is Some {
                                None
                            } else {
                                Some("url: invalid URL"@)
                            },
                            None => None,
                        },
                        datetime_problem("occurredAt"@, item.occurred_at@),
                    ),
                ),
            ),
        ),
    )
}

impl IntakeItem {
    /// Checks the item.
    pub fn validate(&self) -> (result: Result<(), String>)
        ensures
            stated(result) == item_problem(*self),
    {
        if let Err(message) = validate_utf16_range("entityId", self.entity_id.as_str(), 1, 1024) {
            return Err(message);
        }
        if let Err(message) = validate_utf16_range(
            "revisionId",
            self.revision_id.as_str(),
            1,
            1024,
        ) {
            return Err(message);
        }
        if let Err(message) = validate_utf16_range("title", self.title.as_str(), 0, 4096) {
            return Err(message);
        }
        if let Err(message) = validate_utf16_range("body", self.body.as_str(), 0, 1_000_000) {
            return Err(message);
        }
        if let Some(url) = &self.url {
            if urls::split_url(url.as_str()).is_none() {
                return Err("url: invalid URL".to_owned());
            }
        }
        validate_utc_datetime("occurredAt", self.occurred_at.as_str())
    }
}

/// What is wrong with a request, by the parts of it that are checked.
pub open spec fn asking_problem(
    protocol_version: u8,
    source: Seq<char>,
    now: Seq<char>,
    item_limit: usize,
) -> Option<Seq<char>> {
    if protocol_version != PROTOCOL_VERSION {
        Some("protocolVersion must equal 1"@)
    } else if source.len() == 0 {
        Some("source must not be empty"@)
    } else {
        first_problem(
            datetime_problem("now"@, now),
            if 1 <= item_limit <= 1000 {
                None
            } else {
                Some("itemLimit must be an integer between 1 and 1000"@)
            },
        )
    }
}

/// What is wrong with a request.
pub open spec fn request_problem(request: PollRequest) -> Option<Seq<char>> {
    asking_problem(
        request.protocol_version,
        request.source@,
        request.now@,
        request.item_limit,
    )
}

impl PollRequest {
    /// Checks the request.
    pub fn validate(&self) -> (result: Result<(), ProtocolError>)
        ensures
            match request_problem(*self) {
                None => result is Ok,
                Some(problem) => result matches Err(ProtocolError::InvalidRequest(message))
                    && message@ == problem,
            },
    {
        if self.protocol_version != PROTOCOL_VERSION {
            return Err(ProtocolError::InvalidRequest("protocolVersion must equal 1".to_owned()));
        }
        if self.source.as_str().is_empty() {
            return Err(ProtocolError::InvalidRequest("source must not be empty".to_owned()));
        }
        if let Err(message) = validate_utc_datetime("now", self.now.as_str()) {
            return Err(ProtocolError::InvalidRequest(message));
        }
        if self.item_limit < 1 || self.item_limit > 1000 {
            return Err(
                ProtocolError::InvalidRequest(
                    "itemLimit must be an integer between 1 and 1000".to_owned(),
                ),
            );
        }
        Ok(())
    }
}

/// What is wrong with the first of the items from `from` on that has something wrong.
pub open spec fn items_problem(items: Seq<IntakeItem>, from: int) -> Option<Seq<char>>
    decreases items.len() - from,
{
    if from < 0 || from >= items.len() {
        None
    } else {
        match item_problem(items[from]) {
            Some(message) => Some(
                "items."@ + text::decimal(from as nat) + "."@ + message,
            ),
            None => items_problem(items, from + 1),
        }
    }
}

/// What is wrong with an answer.
pub open spec fn response_problem(response: PollResponse) -> Option<Seq<char>> {
    if response.protocol_version != PROTOCOL_VERSION {
        Some("protocolVersion must equal 1"@)
    } else if response.items@.len() > 1000 {
        Some("items must contain at most 1000 entries"@)
    } else {
        items_problem(response.items@, 0)
    }
}

impl PollResponse {
    /// Checks the answer.
    pub fn validate(&self) -> (result: Result<(), ProtocolError>)
        ensures
            match response_problem(*self) {
                None => result is Ok,
                Some(problem) => result matches Err(ProtocolError::InvalidResponse(message))
                    && message@ == problem,
            },
    {
        if self.protocol_version != PROTOCOL_VERSION {
            return Err(ProtocolError::InvalidResponse("protocolVersion must equal 1".to_owned()));
        }
        if self.items.len() > 1000 {
            return Err(
                ProtocolError::InvalidResponse(
                    "items must contain at most 1000 entries".to_owned(),
                ),
            );
        }
        let mut i: usize = 0;
        while i < self.items.len()
            invariant
                i <= self.items@.len(),
                items_problem(self.items@, 0) == items_problem(self.items@, i as int),
                response_problem(*self) == items_problem(self.items@, 0),
            decreases self.items@.len() - i,
        {
            if let Err(message) = self.items[i].validate() {
                let mut out = "items.".to_owned();
                out.append(text::decimal_of(i as u128).as_str());
                out.append(".");
                out.append(message.as_str());
                return Err(ProtocolError::InvalidResponse(out));
            }
            i += 1;
        }
        Ok(())
    }
}

/// Takes a request that was read as JSON, given what the reading gave or why it failed.
pub fn parse_poll_request(parsed: Result<PollRequest, String>) -> (result: Result<
    PollRequest,
    ProtocolError,
>)
    ensures
        match parsed {
            Ok(request) => match request_problem(request) {
                None => result matches Ok(out) && out == request,
                Some(problem) => result matches Err(ProtocolError::InvalidRequest(message))
                    && message@ == problem,
            },
            Err(error) => result matches Err(ProtocolError::InvalidJson(message)) && message
                == error,
        },
{
    match parsed {
        Ok(request) => match request.validate() {
            Ok(()) => Ok(request),
            Err(error) => Err(error),
        },
        Err(error) => Err(ProtocolError::InvalidJson(error)),
    }
}

/// Why an answer is not taken, given what reading it as JSON gave or why that failed.
pub open spec fn answer_problem(parsed: Result<PollResponse, String>) -> Option<Seq<char>> {
    match parsed {
        Ok(response) => response_problem(response),
        Err(error) => Some(error@),
    }
}

/// Takes an answer that was read as JSON, given what the reading gave or why it failed.
pub fn parse_poll_response(parsed: Result<PollResponse, String>) -> (result: Result<
    PollResponse,
    ProtocolError,
>)
    ensures
        match answer_problem(parsed) {
            None => result == Ok::<PollResponse, ProtocolError>(parsed->Ok_0),
            Some(problem) => result matches Err(ProtocolError::InvalidResponse(message))
                && message@ == problem,
        },
{
    match parsed {
        Ok(response) => match response.validate() {
            Ok(()) => Ok(response),
            Err(error) => Err(error),
        },
        Err(error) => Err(ProtocolError::InvalidResponse(error)),
    }
}

/// Checks the size of what was read from the standard input.
pub fn check_input(bytes: u64) -> (result: Result<(), ProtocolError>)
    ensures
        result is Ok <==> bytes <= MAX_STANDARD_INPUT_BYTES,
        result matches Err(error) ==> error is InputTooLarge,
{
    if bytes > MAX_STANDARD_INPUT_BYTES {
        Err(ProtocolError::InputTooLarge)
    } else {
        Ok(())
    }
}

// ---------------------------------------------------------------------------------------------
// Laws
// ---------------------------------------------------------------------------------------------

proof fn lemma_items_problem(items: Seq<IntakeItem>, from: int, i: int)
    requires
        0 <= from <= i < items.len(),
        items_problem(items, from) is None,
    ensures
        item_problem(items[i]) is None,
    decreases i - from,
{
    if from < i {
        lemma_items_problem(items, from + 1, i);
    }
}

/// An answer that reads back as it was written is taken exactly if it passes its check, and one
/// that is taken has the version of the protocol and not too many items, none of which has
/// anything wrong with it. One that cannot be read is never taken.
pub proof fn law_taken_answers_are_valid(parsed: Result<PollResponse, String>)
    ensures
        parsed matches Ok(response) ==> (answer_problem(parsed) is None <==> response_problem(
            response,
        ) is None),
        answer_problem(parsed) is None ==> {
            &&& parsed is Ok
            &&& parsed->Ok_0.protocol_version == 1
            &&& parsed->Ok_0.items@.len() <= 1000
            &&& forall|i: int|
                0 <= i < parsed->Ok_0.items@.len() ==> item_problem(
                    #[trigger] parsed->Ok_0.items@[i],
                ) is None
        },
{
    if answer_problem(parsed) is None {
        let items = parsed->Ok_0.items@;
        assert forall|i: int| 0 <= i < items.len() implies item_problem(
            #[trigger] items[i],
        ) is None by {
            lemma_items_problem(items, 0, i);
        }
    }
}

/// Every item of an answer that passed its check has an entity, a revision and a moment at which
/// it occurred.
pub proof fn law_checked_items(response: PollResponse, i: int)
    requires
        response_problem(response) is None,
        0 <= i < response.items@.len(),
    ensures
        item_problem(response.items@[i]) is None,
        1 <= text::utf16_units(response.items@[i].entity_id@) <= 1024,
        1 <= text::utf16_units(response.items@[i].revision_id@) <= 1024,
        datetime_problem("occurredAt"@, response.items@[i].occurred_at@) is None,
{
    lemma_items_problem(response.items@, 0, i);
}

/// An item passes its check exactly if its entity and its revision are there, none of its texts is
/// too long, its URL can be read where it has one, and its moment is one in UTC.
pub proof fn law_sound_items(item: IntakeItem)
    ensures
        item_problem(item) is None <==> {
            &&& 1 <= text::utf16_units(item.entity_id@) <= 1024
            &&& 1 <= text::utf16_units(item.revision_id@) <= 1024
            &&& text::utf16_units(item.title@) <= 4096
            &&& text::utf16_units(item.body@) <= 1_000_000
            &&& item.url is Some ==> urls::url_parts(item.url->0@) is Some
            &&& datetime_problem("occurredAt"@, item.occurred_at@) is None
        },
{
}

} // verus!
