use intake::cli::{plan, Command, Plan};
use intake::config::InitializeResult;
use intake::monitor::CheckResult;
use intake::session::{Session, SessionAction, SessionEvent};

fn session(command: &str) -> Session {
    match plan(vec![command.to_string()]).unwrap() {
        Plan::Run(invocation) => Session::new(&invocation),
        Plan::Print(_) => panic!("a command is printed"),
    }
}

fn down() -> String {
    "down".to_string()
}

fn finish(action: SessionAction) -> (Option<String>, Result<i32, String>) {
    match action {
        SessionAction::Finish { shown, result } => (shown, result),
        other => panic!("the run goes on: {other:?}"),
    }
}

/// A run up to the moment at which its configuration is read.
fn loaded(command: &str) -> (Session, SessionAction) {
    let mut session = session(command);
    assert!(matches!(session.step(SessionEvent::Started), SessionAction::Locate));
    let located = SessionEvent::Located(Ok("/c.yaml".to_string()));
    assert!(matches!(session.step(located), SessionAction::Load));
    let action = session.step(SessionEvent::Loaded(Ok(())));
    (session, action)
}

/// A check up to the moment at which it begins.
fn checking() -> Session {
    let (mut session, action) = loaded("check");
    assert!(matches!(action, SessionAction::Lock));
    assert!(matches!(session.step(SessionEvent::Opened(Ok(()))), SessionAction::Ignore));
    assert!(matches!(session.step(SessionEvent::Locked(Ok(()))), SessionAction::Open));
    assert!(matches!(session.step(SessionEvent::Opened(Ok(()))), SessionAction::Judge));
    assert!(matches!(
        session.step(SessionEvent::Judged(Ok(Vec::new()))),
        SessionAction::Serve(Command::Check)
    ));
    session
}

#[test]
fn checks_end_by_their_errors() {
    let mut session = checking();
    assert!(matches!(session.step(SessionEvent::Served(Ok(()))), SessionAction::Ignore));
    let mut check = CheckResult::default();
    check.polled(Err("404 with a token".to_string()));
    match session.step(SessionEvent::Checked(Ok(check))) {
        SessionAction::Report { summary, errors } => {
            assert_eq!(summary, "Observed 0; handled 0; errors 1.");
            assert_eq!(errors, vec!["Authentication failed".to_string()]);
        }
        _ => panic!("nothing is reported"),
    }
    assert!(matches!(session.step(SessionEvent::Reported), SessionAction::Close));
    assert_eq!(finish(session.step(SessionEvent::Closed(Ok(())))), (None, Ok(1)));

    let mut session = checking();
    let clean = SessionEvent::Checked(Ok(CheckResult::default()));
    assert!(matches!(session.step(clean), SessionAction::Report { .. }));
    session.step(SessionEvent::Reported);
    assert_eq!(finish(session.step(SessionEvent::Closed(Ok(())))), (None, Ok(0)));

    let mut session = checking();
    assert!(matches!(session.step(SessionEvent::Checked(Err(down()))), SessionAction::Close));
    let (_, result) = finish(session.step(SessionEvent::Closed(Err("late".to_string()))));
    assert_eq!(result, Err(down()));
}

#[test]
fn commands_close_what_they_opened() {
    let (mut session, action) = loaded("status");
    assert!(matches!(action, SessionAction::Open));
    assert!(matches!(
        session.step(SessionEvent::Opened(Ok(()))),
        SessionAction::Serve(Command::Status)
    ));
    assert!(matches!(session.step(SessionEvent::Served(Ok(()))), SessionAction::Close));
    let (_, result) = finish(session.step(SessionEvent::Closed(Err(down()))));
    assert_eq!(result, Err(down()));

    let (mut session, action) = loaded("no-such-command");
    assert!(matches!(action, SessionAction::Open));
    assert!(matches!(session.step(SessionEvent::Opened(Ok(()))), SessionAction::Close));
    let (_, result) = finish(session.step(SessionEvent::Closed(Ok(()))));
    assert_eq!(result, Err("Unknown command: no-such-command".to_string()));

    let (mut session, action) = loaded("watch");
    assert!(matches!(action, SessionAction::Lock));
    session.step(SessionEvent::Locked(Ok(())));
    session.step(SessionEvent::Opened(Ok(())));
    let wrong = SessionEvent::Judged(Ok(vec!["bad".to_string(), "worse".to_string()]));
    assert!(matches!(session.step(wrong), SessionAction::Close));
    let (_, result) = finish(session.step(SessionEvent::Closed(Ok(()))));
    assert_eq!(result, Err("Configuration validation failed:\nbad\nworse".to_string()));
}

#[test]
fn some_commands_need_no_database() {
    let mut login = session("login");
    assert!(matches!(login.step(SessionEvent::Started), SessionAction::SignIn));
    assert_eq!(finish(login.step(SessionEvent::SignedIn(Ok(())))), (None, Ok(0)));

    for (created, line) in [
        (vec!["/c.yaml".to_string()], "Created private configuration at /c.yaml"),
        (Vec::new(), "Private configuration exists at /c.yaml"),
    ] {
        let mut init = session("init");
        assert!(matches!(init.step(SessionEvent::Started), SessionAction::Locate));
        let located = SessionEvent::Located(Ok("/c.yaml".to_string()));
        assert!(matches!(init.step(located), SessionAction::Initialize));
        let made = InitializeResult { config_path: "/c.yaml".to_string(), created };
        let ended = finish(init.step(SessionEvent::Initialized(Ok(made))));
        assert_eq!(ended, (Some(line.to_string()), Ok(0)));
    }

    let (mut judging, action) = loaded("validate-config");
    assert!(matches!(action, SessionAction::Judge));
    let ended = finish(judging.step(SessionEvent::Judged(Ok(Vec::new()))));
    assert_eq!(ended, (Some("Configuration is valid: /c.yaml".to_string()), Ok(0)));
    let (mut judging, _) = loaded("validate-config");
    let ended = finish(judging.step(SessionEvent::Judged(Ok(vec!["bad".to_string()]))));
    assert_eq!(ended, (None, Err("bad".to_string())));
}

#[test]
fn runs_stop_at_the_first_error() {
    let mut lost = session("status");
    lost.step(SessionEvent::Started);
    assert_eq!(finish(lost.step(SessionEvent::Located(Err(down())))), (None, Err(down())));
    assert!(matches!(lost.step(SessionEvent::Started), SessionAction::Ignore));
    let (mut held, _) = loaded("check");
    assert_eq!(finish(held.step(SessionEvent::Locked(Err(down())))), (None, Err(down())));
    let (mut shut, _) = loaded("status");
    assert_eq!(finish(shut.step(SessionEvent::Opened(Err(down())))), (None, Err(down())));
    let mut session = session("login");
    session.step(SessionEvent::Started);
    assert_eq!(finish(session.step(SessionEvent::SignedIn(Err(down())))), (None, Err(down())));
}
