//! A run of the program: the order in which a command is prepared, carried out and closed.
use vstd::prelude::*;

use crate::cli::{self, Command, Invocation, Runtime};
use crate::config::InitializeResult;
use crate::dashboard;
use crate::monitor::CheckResult;
use crate::text;

verus! {

/// What a run waits for.
#[derive(Clone, Copy, Debug, PartialEq, Eq, Structural)]
pub enum SessionState {
    Ready,
    /// The user signs in.
    SigningIn,
    /// The configuration is looked for.
    Locating,
    /// The private configuration is created.
    Initializing,
    /// The configuration is read.
    Loading,
    /// The configuration is judged, because that is the command.
    Judging,
    /// The queue is locked.
    Locking,
    /// The database is opened.
    Opening,
    /// The configuration is judged, because the command needs a correct one.
    Vetting,
    /// The command is carried out.
    Serving,
    /// What came of a check is printed.
    Reporting,
    /// The queue is given free and the database is closed.
    Closing,
    Ended,
}

/// What happened.
#[derive(Debug)]
pub enum SessionEvent {
    Started,
    SignedIn(Result<(), String>),
    /// Where the configuration is.
    Located(Result<String, String>),
    Initialized(Result<InitializeResult, String>),
    Loaded(Result<(), String>),
    /// What is wrong with the configuration, or why that could not be found out.
    Judged(Result<Vec<String>, String>),
    Locked(Result<(), String>),
    Opened(Result<(), String>),
    /// The command, which is no check, was carried out.
    Served(Result<(), String>),
    /// The check was carried out.
    Checked(Result<CheckResult, String>),
    Reported,
    Closed(Result<(), String>),
}

/// What is done next.
#[derive(Debug)]
pub enum SessionAction {
    SignIn,
    Locate,
    Initialize,
    Load,
    Judge,
    Lock,
    Open,
    Serve(Command),
    /// Print the line, and the lines on the errors.
    Report { summary: String, errors: Vec<String> },
    /// Give the queue free, then close the database.
    Close,
    /// Print the line, if there is one, and end so.
    Finish { shown: Option<String>, result: Result<i32, String> },
    /// The event does not belong to this state.
    Ignore,
}

/// What the contracts say of an action.
#[verifier::ext_equal]
pub enum SessionActionModel {
    SignIn,
    Locate,
    Initialize,
    Load,
    Judge,
    Lock,
    Open,
    Serve(Command),
    Report { summary: Seq<char>, errors: Seq<Seq<char>> },
    Close,
    Finish { shown: Option<Seq<char>>, result: Result<i32, Seq<char>> },
    Ignore,
}

/// What the contracts say of a result.
pub open spec fn ending(result: Result<i32, String>) -> Result<i32, Seq<char>> {
    match result {
        Ok(code) => Ok(code),
        Err(error) => Err(error@),
    }
}

impl View for SessionAction {
    type V = SessionActionModel;

    open spec fn view(&self) -> SessionActionModel {
        match self {
            SessionAction::SignIn => SessionActionModel::SignIn,
            SessionAction::Locate => SessionActionModel::Locate,
            SessionAction::Initialize => SessionActionModel::Initialize,
            SessionAction::Load => SessionActionModel::Load,
            SessionAction::Judge => SessionActionModel::Judge,
            SessionAction::Lock => SessionActionModel::Lock,
            SessionAction::Open => SessionActionModel::Open,
            SessionAction::Serve(command) => SessionActionModel::Serve(*command),
            SessionAction::Report { summary, errors } => SessionActionModel::Report {
                summary: summary@,
                errors: text::texts(errors@),
            },
            SessionAction::Close => SessionActionModel::Close,
            SessionAction::Finish { shown, result } => SessionActionModel::Finish {
                shown: text::opt_text(*shown),
                result: ending(*result),
            },
            SessionAction::Ignore => SessionActionModel::Ignore,
        }
    }
}

/// A run of the program.
#[derive(Debug)]
pub struct Session {
    command: Option<Command>,
    name: String,
    path: String,
    operation: Result<i32, String>,
    state: SessionState,
}

/// What the contracts say of a run.
#[verifier::ext_equal]
pub struct SessionModel {
    /// The command; none where its name is not known.
    pub command: Option<Command>,
    /// The name of the command as it was given.
    pub name: Seq<char>,
    /// Where the configuration is, once that is known.
    pub path: Seq<char>,
    /// What the command came to, once the database is closed.
    pub operation: Result<i32, Seq<char>>,
    pub state: SessionState,
}

impl View for Session {
    type V = SessionModel;

    closed spec fn view(&self) -> SessionModel {
        SessionModel {
            command: self.command,
            name: self.name@,
            path: self.path@,
            operation: ending(self.operation),
            state: self.state,
        }
    }
}

/// What the command needs, where it is known.
pub open spec fn needs(command: Option<Command>) -> Option<Runtime> {
    match command {
        Some(command) => Some(cli::runtime_of(command)),
        None => None,
    }
}

/// Whether the command owns the queue while it runs.
pub open spec fn owns_queue(command: Option<Command>) -> bool {
    needs(command) matches Some(Runtime::Database { queue_owner, .. }) && queue_owner
}

/// Whether the command needs a correct configuration.
pub open spec fn needs_correct(command: Option<Command>) -> bool {
    needs(command) matches Some(Runtime::Database { validate_config, .. }) && validate_config
}

/// The run goes on in the state.
pub open spec fn moved(
    session: SessionModel,
    state: SessionState,
    action: SessionActionModel,
) -> (SessionModel, SessionActionModel) {
    (SessionModel { state, ..session }, action)
}

/// The run ends.
pub open spec fn finished(
    session: SessionModel,
    shown: Option<Seq<char>>,
    result: Result<i32, Seq<char>>,
) -> (SessionModel, SessionActionModel) {
    moved(session, SessionState::Ended, SessionActionModel::Finish { shown, result })
}

/// The command came to this, and the database is closed.
pub open spec fn concluded(session: SessionModel, operation: Result<i32, Seq<char>>) -> (
    SessionModel,
    SessionActionModel,
) {
    (
        SessionModel { operation, state: SessionState::Closing, ..session },
        SessionActionModel::Close,
    )
}

/// The command is carried out, where its name is known.
pub open spec fn served(session: SessionModel) -> (SessionModel, SessionActionModel) {
    match session.command {
        Some(command) => moved(
            session,
            SessionState::Serving,
            SessionActionModel::Serve(command),
        ),
        None => concluded(session, Err("Unknown command: "@ + session.name)),
    }
}

/// What a check ends with: zero where nothing failed, and else one.
pub open spec fn check_code(check: CheckResult) -> i32 {
    if check.errors@.len() == 0 {
        0i32
    } else {
        1i32
    }
}

/// What is printed of the errors of a check: of each only its public wording.
pub open spec fn error_lines(errors: Seq<Seq<char>>) -> Seq<Seq<char>> {
    errors.map_values(|error: Seq<char>| dashboard::error_shown(Some(error))->0)
}

/// The line that sums up a check.
pub open spec fn check_line(check: CheckResult) -> Seq<char> {
    "Observed "@ + text::decimal(check.observed as nat) + "; handled "@ + text::decimal(
        check.handled as nat,
    ) + "; errors "@ + text::decimal(check.errors@.len()) + "."@
}

/// The rule of a run: what follows an event.
pub open spec fn session_step(session: SessionModel, event: SessionEvent) -> (
    SessionModel,
    SessionActionModel,
) {
    match (session.state, event) {
        (SessionState::Ready, SessionEvent::Started) => if needs(session.command) == Some(
            Runtime::Login,
        ) {
            moved(session, SessionState::SigningIn, SessionActionModel::SignIn)
        } else {
            moved(session, SessionState::Locating, SessionActionModel::Locate)
        },
        (SessionState::SigningIn, SessionEvent::SignedIn(result)) => match result {
            Ok(_) => finished(session, None, Ok(0)),
            Err(error) => finished(session, None, Err(error@)),
        },
        (SessionState::Locating, SessionEvent::Located(result)) => match result {
            Ok(path) => {
                let found = SessionModel { path: path@, ..session };
                if needs(session.command) == Some(Runtime::Init) {
                    moved(found, SessionState::Initializing, SessionActionModel::Initialize)
                } else {
                    moved(found, SessionState::Loading, SessionActionModel::Load)
                }
            },
            Err(error) => finished(session, None, Err(error@)),
        },
        (SessionState::Initializing, SessionEvent::Initialized(result)) => match result {
            Ok(made) => finished(
                session,
                Some(
                    (if made.created@.len() > 0 {
                        "Created private configuration at "@
                    } else {
                        "Private configuration exists at "@
                    }) + made.config_path@,
                ),
                Ok(0),
            ),
            Err(error) => finished(session, None, Err(error@)),
        },
        (SessionState::Loading, SessionEvent::Loaded(result)) => match result {
            Ok(_) => if needs(session.command) == Some(Runtime::ValidateConfig) {
                moved(session, SessionState::Judging, SessionActionModel::Judge)
            } else if owns_queue(session.command) {
                moved(session, SessionState::Locking, SessionActionModel::Lock)
            } else {
                moved(session, SessionState::Opening, SessionActionModel::Open)
            },
            Err(error) => finished(session, None, Err(error@)),
        },
        (SessionState::Judging, SessionEvent::Judged(result)) => match result {
            Ok(problems) => if problems@.len() > 0 {
                finished(session, None, Err(text::join(text::texts(problems@), "\n"@)))
            } else {
                finished(session, Some("Configuration is valid: "@ + session.path), Ok(0))
            },
            Err(error) => finished(session, None, Err(error@)),
        },
        (SessionState::Locking, SessionEvent::Locked(result)) => match result {
            Ok(_) => moved(session, SessionState::Opening, SessionActionModel::Open),
            Err(error) => finished(session, None, Err(error@)),
        },
        (SessionState::Opening, SessionEvent::Opened(result)) => match result {
            Ok(_) => if needs_correct(session.command) {
                moved(session, SessionState::Vetting, SessionActionModel::Judge)
            } else {
                served(session)
            },
            Err(error) => finished(session, None, Err(error@)),
        },
        (SessionState::Vetting, SessionEvent::Judged(result)) => match result {
            Ok(problems) => if problems@.len() > 0 {
                concluded(
                    session,
                    Err(
                        "Configuration validation failed:\n"@ + text::join(
                            text::texts(problems@),
                            "\n"@,
                        ),
                    ),
                )
            } else {
                served(session)
            },
            Err(error) => concluded(session, Err(error@)),
        },
        (SessionState::Serving, SessionEvent::Served(result)) => if session.command == Some(
            Command::Check,
        ) {
            (session, SessionActionModel::Ignore)
        } else {
            match result {
                Ok(_) => concluded(session, Ok(0)),
                Err(error) => concluded(session, Err(error@)),
            }
        },
        (SessionState::Serving, SessionEvent::Checked(result)) => if session.command != Some(
            Command::Check,
        ) {
            (session, SessionActionModel::Ignore)
        } else {
            match result {
                Ok(check) => (
                    SessionModel {
                        operation: Ok(check_code(check)),
                        state: SessionState::Reporting,
                        ..session
                    },
                    SessionActionModel::Report {
                        summary: check_line(check),
                        errors: error_lines(text::texts(check.errors@)),
                    },
                ),
                Err(error) => concluded(session, Err(error@)),
            }
        },
        (SessionState::Reporting, SessionEvent::Reported) => concluded(session, session.operation),
        (SessionState::Closing, SessionEvent::Closed(shutdown)) => finished(
            session,
            None,
            match session.operation {
                Err(error) => Err(error),
                Ok(code) => match shutdown {
                    Ok(_) => Ok(code),
                    Err(error) => Err(error@),
                },
            },
        ),
        _ => (session, SessionActionModel::Ignore),
    }
}

fn copied(result: &Result<i32, String>) -> (out: Result<i32, String>)
    ensures
        ending(out) == ending(*result),
{
    match result {
        Ok(code) => Ok(*code),
        Err(error) => Err(error.clone()),
    }
}

impl Session {
    /// A run of the command.
    pub fn new(invocation: &Invocation) -> (session: Self)
        ensures
            session@ == (SessionModel {
                command: invocation.command,
                name: invocation.name@,
                path: Seq::empty(),
                operation: Ok(0),
                state: SessionState::Ready,
            }),
    {
        let path = String::new();
        assert(path@ =~= Seq::<char>::empty());
        Session {
            command: invocation.command,
            name: invocation.name.clone(),
            path,
            operation: Ok(0),
            state: SessionState::Ready,
        }
    }

    fn runtime(&self) -> (runtime: Option<Runtime>)
        ensures
            runtime == needs(self@.command),
    {
        match self.command {
            Some(command) => Some((cli::CommandSpec { command }).runtime()),
            None => None,
        }
    }

    fn finish(&mut self, shown: Option<String>, result: Result<i32, String>) -> (action:
        SessionAction)
        ensures
            (final(self)@, action@) == finished(old(self)@, text::opt_text(shown), ending(result)),
    {
        self.state = SessionState::Ended;
        SessionAction::Finish { shown, result }
    }

    fn conclude(&mut self, operation: Result<i32, String>) -> (action: SessionAction)
        ensures
            (final(self)@, action@) == concluded(old(self)@, ending(operation)),
    {
        self.operation = operation;
        self.state = SessionState::Closing;
        SessionAction::Close
    }

    fn serve(&mut self) -> (action: SessionAction)
        ensures
            (final(self)@, action@) == served(old(self)@),
    {
        match self.command {
            Some(command) => {
                self.state = SessionState::Serving;
                SessionAction::Serve(command)
            },
            None => {
                let error = cli::unknown_command(self.name.as_str());
                self.conclude(Err(error))
            },
        }
    }

    fn go_on(&mut self, state: SessionState, action: SessionAction) -> (out: SessionAction)
        ensures
            (final(self)@, out@) == moved(old(self)@, state, action@),
    {
        self.state = state;
        action
    }

    fn loaded(&mut self) -> (action: SessionAction)
        requires
            old(self)@.state == SessionState::Loading,
        ensures
            (final(self)@, action@) == session_step(old(self)@, SessionEvent::Loaded(Ok(()))),
    {
        match self.runtime() {
            Some(Runtime::ValidateConfig) => {
                self.go_on(SessionState::Judging, SessionAction::Judge)
            },
            Some(Runtime::Database { queue_owner, validate_config: _ }) if queue_owner => {
                self.go_on(SessionState::Locking, SessionAction::Lock)
            },
            _ => self.go_on(SessionState::Opening, SessionAction::Open),
        }
    }

    fn opened(&mut self) -> (action: SessionAction)
        requires
            old(self)@.state == SessionState::Opening,
        ensures
            (final(self)@, action@) == session_step(old(self)@, SessionEvent::Opened(Ok(()))),
    {
        match self.runtime() {
            Some(Runtime::Database { queue_owner: _, validate_config }) if validate_config => {
                self.go_on(SessionState::Vetting, SessionAction::Judge)
            },
            _ => self.serve(),
        }
    }

    fn checked(&mut self, check: CheckResult) -> (action: SessionAction)
        requires
            old(self)@.state == SessionState::Serving,
            old(self)@.command == Some(Command::Check),
        ensures
            (final(self)@, action@) == session_step(
                old(self)@,
                SessionEvent::Checked(Ok(check)),
            ),
    {
        self.operation = Ok(check.exit_code());
        self.state = SessionState::Reporting;
        let errors = cli::check_error_lines(&check.errors);
        assert(text::texts(errors@) =~= error_lines(text::texts(check.errors@)));
        SessionAction::Report { summary: check.summary(), errors }
    }

    /// What is done after the event.
    pub fn step(&mut self, event: SessionEvent) -> (action: SessionAction)
        ensures
            (final(self)@, action@) == session_step(old(self)@, event),
    {
        match (self.state, event) {
            (SessionState::Ready, SessionEvent::Started) => match self.runtime() {
                Some(Runtime::Login) => self.go_on(SessionState::SigningIn, SessionAction::SignIn),
                _ => self.go_on(SessionState::Locating, SessionAction::Locate),
            },
            (SessionState::SigningIn, SessionEvent::SignedIn(result)) => match result {
                Ok(()) => self.finish(None, Ok(0)),
                Err(error) => self.finish(None, Err(error)),
            },
            (SessionState::Locating, SessionEvent::Located(result)) => match result {
                Ok(path) => {
                    self.path = path;
                    match self.runtime() {
                        Some(Runtime::Init) => {
                            self.go_on(SessionState::Initializing, SessionAction::Initialize)
                        },
                        _ => self.go_on(SessionState::Loading, SessionAction::Load),
                    }
                },
                Err(error) => self.finish(None, Err(error)),
            },
            (SessionState::Initializing, SessionEvent::Initialized(result)) => match result {
                Ok(made) => {
                    let shown = cli::init_reply(made.created.len() > 0, made.config_path.as_str());
                    self.finish(Some(shown), Ok(0))
                },
                Err(error) => self.finish(None, Err(error)),
            },
            (SessionState::Loading, SessionEvent::Loaded(result)) => match result {
                Ok(()) => self.loaded(),
                Err(error) => self.finish(None, Err(error)),
            },
            (SessionState::Judging, SessionEvent::Judged(result)) => match result {
                Ok(problems) => match cli::validation_reply(&problems, self.path.as_str()) {
                    Ok(shown) => self.finish(Some(shown), Ok(0)),
                    Err(error) => self.finish(None, Err(error)),
                },
                Err(error) => self.finish(None, Err(error)),
            },
            (SessionState::Locking, SessionEvent::Locked(result)) => match result {
                Ok(()) => self.go_on(SessionState::Opening, SessionAction::Open),
                Err(error) => self.finish(None, Err(error)),
            },
            (SessionState::Opening, SessionEvent::Opened(result)) => match result {
                Ok(()) => self.opened(),
                Err(error) => self.finish(None, Err(error)),
            },
            (SessionState::Vetting, SessionEvent::Judged(result)) => match result {
                Ok(problems) => match cli::require_valid(&problems) {
                    Ok(()) => self.serve(),
                    Err(error) => self.conclude(Err(error)),
                },
                Err(error) => self.conclude(Err(error)),
            },
            (SessionState::Serving, SessionEvent::Served(result)) => match self.command {
                Some(Command::Check) => SessionAction::Ignore,
                _ => match result {
                    Ok(()) => self.conclude(Ok(0)),
                    Err(error) => self.conclude(Err(error)),
                },
            },
            (SessionState::Serving, SessionEvent::Checked(result)) => match self.command {
                Some(Command::Check) => match result {
                    Ok(check) => self.checked(check),
                    Err(error) => self.conclude(Err(error)),
                },
                _ => SessionAction::Ignore,
            },
            (SessionState::Reporting, SessionEvent::Reported) => {
                let operation = copied(&self.operation);
                self.conclude(operation)
            },
            (SessionState::Closing, SessionEvent::Closed(shutdown)) => {
                let result = cli::run_outcome(copied(&self.operation), shutdown);
                self.finish(None, result)
            },
            _ => SessionAction::Ignore,
        }
    }
}

// ---------------------------------------------------------------------------------------------
// Laws
// ---------------------------------------------------------------------------------------------

/// A run that has not begun.
pub open spec fn fresh(command: Option<Command>, name: Seq<char>) -> SessionModel {
    SessionModel {
        command,
        name,
        path: Seq::empty(),
        operation: Ok(0),
        state: SessionState::Ready,
    }
}

/// The run once these events have happened.
pub open spec fn after(session: SessionModel, events: Seq<SessionEvent>) -> SessionModel
    decreases events.len(),
{
    if events.len() == 0 {
        session
    } else {
        session_step(after(session, events.drop_last()), events.last()).0
    }
}

/// Whether the queue was locked before the place.
pub open spec fn locked_before(events: Seq<SessionEvent>, place: int) -> bool {
    exists|i: int| 0 <= i < place && (#[trigger] events[i] matches SessionEvent::Locked(Ok(_)))
}

/// Whether the database was opened, after the queue was locked where the command owns it.
pub open spec fn opened_in_turn(command: Option<Command>, events: Seq<SessionEvent>) -> bool {
    exists|j: int|
        0 <= j < events.len() && (#[trigger] events[j] matches SessionEvent::Opened(Ok(_))) && (
        owns_queue(command) ==> locked_before(events, j))
}

/// Whether the configuration was found to be correct.
pub open spec fn found_correct(events: Seq<SessionEvent>) -> bool {
    exists|i: int|
        0 <= i < events.len() && (#[trigger] events[i] matches SessionEvent::Judged(Ok(problems))
            && problems@.len() == 0)
}

/// What holds of a run in each state.
spec fn prepared(session: SessionModel, events: Seq<SessionEvent>) -> bool {
    match session.state {
        SessionState::Opening => owns_queue(session.command) ==> locked_before(
            events,
            events.len() as int,
        ),
        SessionState::Vetting => opened_in_turn(session.command, events),
        SessionState::Serving | SessionState::Reporting => {
            &&& opened_in_turn(session.command, events)
            &&& needs_correct(session.command) ==> found_correct(events)
        },
        SessionState::Closing => opened_in_turn(session.command, events),
        _ => true,
    }
}

proof fn lemma_prepared(session: SessionModel, events: Seq<SessionEvent>)
    requires
        session.state == SessionState::Ready,
    ensures
        prepared(after(session, events), events),
        after(session, events).command == session.command,
    decreases events.len(),
{
    if events.len() > 0 {
        let past = events.drop_last();
        let event = events.last();
        lemma_prepared(session, past);
        let before = after(session, past);
        let command = session.command;
        let n = past.len() as int;
        if owns_queue(command) && locked_before(past, n) {
            let i = choose|i: int|
                0 <= i < n && (#[trigger] past[i] matches SessionEvent::Locked(Ok(_)));
            assert(events[i] == past[i]);
            assert(locked_before(events, n));
            assert(locked_before(events, n + 1));
        }
        if opened_in_turn(command, past) {
            let j = choose|j: int|
                0 <= j < past.len() && (#[trigger] past[j] matches SessionEvent::Opened(Ok(_))) && (
                owns_queue(command) ==> locked_before(past, j));
            assert(events[j] == past[j]);
            if owns_queue(command) {
                let i = choose|i: int|
                    0 <= i < j && (#[trigger] past[i] matches SessionEvent::Locked(Ok(_)));
                assert(events[i] == past[i]);
                assert(locked_before(events, j));
            }
            assert(opened_in_turn(command, events));
        }
        if found_correct(past) {
            let i = choose|i: int|
                0 <= i < past.len() && (#[trigger] past[i] matches SessionEvent::Judged(
                    Ok(problems),
                ) && problems@.len() == 0);
            assert(events[i] == past[i]);
            assert(found_correct(events));
        }
        assert(events[n] == event);
        if event matches SessionEvent::Locked(Ok(_)) {
            assert(locked_before(events, n + 1));
        }
        if before.state == SessionState::Opening && (event matches SessionEvent::Opened(Ok(_))) {
            assert(opened_in_turn(command, events));
        }
        if event matches SessionEvent::Judged(Ok(problems)) && problems@.len() == 0 {
            assert(found_correct(events));
        }
    }
}

proof fn lemma_known_when_served(session: SessionModel, events: Seq<SessionEvent>)
    requires
        session.state == SessionState::Ready,
    ensures
        after(session, events).command == session.command,
        after(session, events).state == SessionState::Serving || after(session, events).state
            == SessionState::Reporting ==> session.command is Some,
    decreases events.len(),
{
    if events.len() > 0 {
        lemma_known_when_served(session, events.drop_last());
    }
}

/// A command is carried out only once the database is open. One that owns the queue has locked
/// it before the database was opened, and one that needs a correct configuration has found it
/// correct.
pub proof fn law_commands_wait_for_what_they_need(
    command: Option<Command>,
    name: Seq<char>,
    events: Seq<SessionEvent>,
)
    ensures
        ({
            let reached = after(fresh(command, name), events);
            reached.state == SessionState::Serving || reached.state == SessionState::Reporting ==> {
                &&& command is Some
                &&& opened_in_turn(command, events)
                &&& needs_correct(command) ==> found_correct(events)
            }
        }),
{
    lemma_prepared(fresh(command, name), events);
    lemma_known_when_served(fresh(command, name), events);
}

/// A database that was opened is closed before the run ends.
pub proof fn law_open_databases_are_closed(session: SessionModel, event: SessionEvent)
    ensures
        session.state == SessionState::Vetting || session.state == SessionState::Serving
            || session.state == SessionState::Reporting ==> !(session_step(session, event).1
            is Finish),
        session.state == SessionState::Closing && session_step(session, event).1 is Finish
            ==> event is Closed,
{
}

/// A check whose result is reported ends, where the database closes without an error, with zero
/// if nothing failed and else with one; of its errors only their public wording is printed.
pub proof fn law_checks_end_by_their_errors(
    session: SessionModel,
    check: CheckResult,
    shutdown: Result<(), String>,
)
    requires
        session.state == SessionState::Serving,
        session.command == Some(Command::Check),
        shutdown is Ok,
    ensures
        ({
            let (reporting, report) = session_step(session, SessionEvent::Checked(Ok(check)));
            let (closing, close) = session_step(reporting, SessionEvent::Reported);
            let (_, last) = session_step(closing, SessionEvent::Closed(shutdown));
            &&& report == SessionActionModel::Report {
                summary: check_line(check),
                errors: error_lines(text::texts(check.errors@)),
            }
            &&& close == SessionActionModel::Close
            &&& last == SessionActionModel::Finish {
                shown: None,
                result: Ok(
                    if check.errors@.len() == 0 {
                        0i32
                    } else {
                        1i32
                    },
                ),
            }
        }),
{
}

} // verus!
