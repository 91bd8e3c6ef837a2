use deezco::auth::{arl_to_store, mask_arl, stored_arl, Login, LoginEvent, LoginStep};
use deezco::report::Line;

/// Runs the login with these answers; returns what it said and which cookies
/// were tried.
fn login(
    stored: &mut Option<String>,
    answers: Vec<Result<bool, String>>,
    prompt: Result<&str, &str>,
) -> (Result<bool, String>, Vec<String>) {
    login_with(None, None, stored, answers, prompt)
}

fn login_with(
    flag: Option<&str>,
    env: Option<&str>,
    stored: &mut Option<String>,
    answers: Vec<Result<bool, String>>,
    prompt: Result<&str, &str>,
) -> (Result<bool, String>, Vec<String>) {
    let mut calls: Vec<String> = Vec::new();
    let mut answers = answers.into_iter();
    let mut login = Login::new(
        flag.map(|s| s.to_string()),
        env.map(|s| s.to_string()),
        stored.as_deref().map(stored_arl),
    );
    loop {
        let event = match login.step() {
            LoginStep::Try(arl) => {
                calls.push(arl);
                LoginEvent::Tried(answers.next().unwrap_or(Ok(false)))
            }
            LoginStep::Remove => {
                *stored = None;
                LoginEvent::Removed
            }
            LoginStep::Ask => {
                LoginEvent::Typed(prompt.map(|s| s.to_string()).map_err(|e| e.to_string()))
            }
            LoginStep::Save(arl) => {
                *stored = Some(arl_to_store(&arl));
                LoginEvent::Saved(Ok(()))
            }
            LoginStep::Done(good) => return (Ok(good), calls),
            LoginStep::Fail(message) => return (Err(message), calls),
        };
        login.on_event(event);
    }
}

const NEVER: Result<&str, &str> = Err("prompt should not be called");

#[test]
fn valid_stored_arl_logs_in_without_prompting() {
    let mut stored = Some("valid-arl".to_string());
    let (result, calls) = login(&mut stored, vec![Ok(true)], NEVER);
    assert!(result.unwrap());
    assert_eq!(calls, vec!["valid-arl"]);
    // The valid stored ARL is kept
    assert_eq!(stored.as_deref(), Some("valid-arl"));
}

#[test]
fn invalid_stored_arl_is_removed_and_user_is_prompted() {
    let mut stored = Some("stale-arl".to_string());
    // Stored validation fails, the freshly prompted one succeeds
    let (result, calls) = login(&mut stored, vec![Ok(false), Ok(true)], Ok("fresh-arl"));
    assert!(result.unwrap());
    assert_eq!(calls, vec!["stale-arl", "fresh-arl"]);
    // The invalid stored ARL was replaced by the prompted one
    assert_eq!(stored.as_deref(), Some("fresh-arl"));
}

#[test]
fn errored_stored_validation_removes_arl_and_prompts() {
    let mut stored = Some("stale-arl".to_string());
    let answers = vec![Err("network down".to_string()), Ok(true)];
    let (result, calls) = login(&mut stored, answers, Ok("fresh-arl"));
    assert!(result.unwrap());
    assert_eq!(calls, vec!["stale-arl", "fresh-arl"]);
    assert_eq!(stored.as_deref(), Some("fresh-arl"));
}

#[test]
fn missing_stored_arl_prompts_and_saves() {
    let mut stored = None;
    let (result, calls) = login(&mut stored, vec![Ok(true)], Ok("typed-arl"));
    assert!(result.unwrap());
    assert_eq!(calls, vec!["typed-arl"]);
    assert_eq!(stored.as_deref(), Some("typed-arl"));
}

#[test]
fn empty_stored_arl_falls_back_to_prompt() {
    let mut stored = Some(arl_to_store("   ")); // trims to empty
    let (result, calls) = login(&mut stored, vec![Ok(true)], Ok("typed-arl"));
    assert!(result.unwrap());
    // The empty stored ARL is not validated
    assert_eq!(calls, vec!["typed-arl"]);
    assert_eq!(stored.as_deref(), Some("typed-arl"));
}

#[test]
fn invalid_prompted_arl_returns_false_without_saving() {
    let mut stored = None;
    let (result, calls) = login(&mut stored, vec![Ok(false)], Ok("bad-arl"));
    assert!(!result.unwrap());
    assert_eq!(calls, vec!["bad-arl"]);
    assert_eq!(stored, None);
}

#[test]
fn prompt_error_propagates() {
    let mut stored = None;
    let (result, calls) = login(&mut stored, vec![], Err("no tty"));
    assert!(result.is_err());
    assert!(calls.is_empty());
}

#[test]
fn save_and_read_arl_roundtrip() {
    // Stored value is trimmed
    assert_eq!(stored_arl(&arl_to_store("  abc  ")), "abc");
    assert_eq!(stored_arl("abc\n"), "abc");
}

#[test]
fn the_flag_wins_and_is_saved() {
    let mut stored = Some("old".to_string());
    let (result, calls) =
        login_with(Some(" new "), Some("env"), &mut stored, vec![Ok(true)], NEVER);
    assert!(result.unwrap());
    assert_eq!(calls, vec![" new "]);
    assert_eq!(stored.as_deref(), Some("new"));
}

#[test]
fn the_environment_is_never_saved() {
    let mut stored = Some("old".to_string());
    let (result, calls) = login_with(None, Some("env"), &mut stored, vec![Ok(true)], NEVER);
    assert!(result.unwrap());
    assert_eq!(calls, vec!["env"]);
    assert_eq!(stored.as_deref(), Some("old"));
    let (failed, _) =
        login_with(None, Some("env"), &mut stored, vec![Err("down".to_string())], NEVER);
    assert_eq!(failed.unwrap_err(), "down");
}

#[test]
fn cookies_are_masked() {
    assert_eq!(mask_arl("1234567890abcdef"), "1234****cdef");
    assert_eq!(mask_arl("12345678"), "****");
    assert_eq!(mask_arl(""), "****");
}

#[test]
fn refused_cookies_are_reported() {
    let mut login = Login::new(None, None, Some("old".to_string()));
    assert_eq!(login.step(), LoginStep::Try("old".to_string()));
    assert_eq!(
        login.on_event(LoginEvent::Tried(Err("down".to_string()))),
        Some(Line::Problem("Stored ARL is invalid, removing...".to_string()))
    );
    assert_eq!(login.step(), LoginStep::Remove);
    assert_eq!(login.on_event(LoginEvent::Removed), None);
    assert_eq!(login.step(), LoginStep::Ask);
    assert_eq!(login.on_event(LoginEvent::Typed(Ok("new".to_string()))), None);
    assert_eq!(
        login.on_event(LoginEvent::Tried(Ok(false))),
        Some(Line::Problem("Login failed. Invalid ARL.".to_string()))
    );
    assert_eq!(login.step(), LoginStep::Done(false));
}

#[test]
fn cookies_that_cannot_be_saved_fail_the_login() {
    let mut login = Login::new(Some(" a ".to_string()), None, None);
    login.on_event(LoginEvent::Tried(Ok(true)));
    assert_eq!(login.step(), LoginStep::Save("a".to_string()));
    login.on_event(LoginEvent::Saved(Err("full".to_string())));
    assert_eq!(login.step(), LoginStep::Fail("full".to_string()));
}
