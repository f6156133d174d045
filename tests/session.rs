use ssm::config::{config_format, default_bind_address, AuthMethod, ConfigError, ConfigFormat, Secret};
use ssm::session::{first_step, next_action, CommandResult, SessionAction, SessionError, SessionStep, StepOutcome};

fn password() -> AuthMethod {
    AuthMethod::Password { password: Secret::new("pw".to_string()) }
}

fn keyfile() -> AuthMethod {
    AuthMethod::Keyfile { private_key: "/k".to_string(), public_key: None, passphrase: None }
}

fn is_run(a: &SessionAction, s: SessionStep) -> bool {
    matches!(a, SessionAction::Run(t) if *t == s)
}

#[test]
fn successful_session_follows_protocol_order() {
    for (auth, auth_step) in [(password(), SessionStep::AuthPassword), (keyfile(), SessionStep::AuthKeyfile)] {
        let expected = [
            SessionStep::Handshake,
            auth_step,
            SessionStep::CheckAuthenticated,
            SessionStep::OpenChannel,
            SessionStep::Exec,
            SessionStep::ReadOutput,
            SessionStep::WaitClose,
            SessionStep::ReadExitStatus,
        ];
        let mut step = first_step();
        assert_eq!(step, SessionStep::Connect);
        for want in expected {
            let outcome = if step == SessionStep::CheckAuthenticated {
                StepOutcome::Authenticated(true)
            } else {
                StepOutcome::Done
            };
            let a = next_action(&auth, step, outcome);
            assert!(is_run(&a, want));
            step = want;
        }
        assert!(matches!(next_action(&auth, step, StepOutcome::Done), SessionAction::Finish));
    }
}

#[test]
fn unauthenticated_session_fails() {
    let a = next_action(&password(), SessionStep::CheckAuthenticated, StepOutcome::Authenticated(false));
    assert!(matches!(a, SessionAction::Fail(SessionError::NotAuthenticated)));
    let a = next_action(&password(), SessionStep::CheckAuthenticated, StepOutcome::Done);
    assert!(matches!(a, SessionAction::Fail(SessionError::NotAuthenticated)));
}

#[test]
fn failures_are_sorted_by_stage() {
    let a = next_action(&keyfile(), SessionStep::Handshake, StepOutcome::Failed("h".to_string()));
    assert!(matches!(a, SessionAction::Fail(SessionError::Connection(m)) if m == "h"));
    let a = next_action(&keyfile(), SessionStep::ReadOutput, StepOutcome::Failed("r".to_string()));
    assert!(matches!(a, SessionAction::Fail(SessionError::Channel(m)) if m == "r"));
}

#[test]
fn exit_code_check() {
    let r = CommandResult { exit_code: 0, output: "x".to_string() };
    assert!(r.ok());
    assert_eq!(r.check_exit_code().ok().unwrap().output, "x");
    let e = CommandResult { exit_code: -1, output: String::new() }.check_exit_code().err().unwrap();
    assert_eq!(e.exit_code, -1);
    assert!(e.output.is_none());
    let e = CommandResult { exit_code: 3, output: "oops".to_string() }.check_exit_code().err().unwrap();
    assert_eq!(e.output.as_deref(), Some("oops"));
}

#[test]
fn config_helpers() {
    assert_eq!(default_bind_address(), "0.0.0.0:9091");
    assert!(matches!(config_format("yml"), Ok(ConfigFormat::Yaml)));
    assert!(matches!(config_format("yaml"), Ok(ConfigFormat::Yaml)));
    assert!(matches!(config_format("toml"), Ok(ConfigFormat::Toml)));
    assert!(matches!(config_format("json"), Err(ConfigError::UnknownFileType)));
    assert!(matches!(config_format(""), Err(ConfigError::UnknownFileType)));
}

#[test]
fn secrets_render_as_marker() {
    let s = Secret::new("hunter2".to_string());
    assert_eq!(s.redacted(), "***REDACTED***");
    assert_eq!(Secret::new(String::new()).redacted(), "***REDACTED***");
    assert_eq!(s.expose(), "hunter2");
}
