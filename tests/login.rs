use ndlm::greeter::{login_step, LoginError, LoginPhase, LoginStep, Reply};
use ndlm::input::{key_from_byte, KeyEvent};
use ndlm::login::{FormAction, LoginForm, Mode};

fn typed(form: &mut LoginForm, keys: &str) -> Vec<FormAction> {
    keys.chars().map(|c| form.handle_key(c)).collect()
}

fn text(v: &[char]) -> String {
    v.iter().collect()
}

#[test]
fn test_username_input() {
    let mut form = LoginForm::new();
    typed(&mut form, "testuser");
    assert_eq!(text(form.username()), "testuser");
}

#[test]
fn test_password_input() {
    let mut form = LoginForm::new();
    form.set_mode(Mode::EditingPassword);
    typed(&mut form, "testpass");
    assert_eq!(text(form.password()), "testpass");
}

#[test]
fn test_input_mode_switching() {
    let mut form = LoginForm::new();
    typed(&mut form, "testuser\rtestpass");
    assert_eq!(text(form.username()), "testuser");
    assert_eq!(text(form.password()), "testpass");
    assert_eq!(form.mode(), Mode::EditingPassword);
}

#[test]
fn enter_with_password_asks_to_log_in() {
    let mut form = LoginForm::new();
    let actions = typed(&mut form, "ab\rcd\r");
    assert_eq!(
        actions.last(),
        Some(&FormAction::Login { username: vec!['a', 'b'], password: vec!['c', 'd'] })
    );
}

#[test]
fn editing_keys() {
    let mut form = LoginForm::new();
    typed(&mut form, "abc\x7F");
    assert_eq!(text(form.username()), "ab");
    typed(&mut form, "\x15");
    assert_eq!(text(form.username()), "");
    typed(&mut form, "\x7F\r");
    assert_eq!(form.mode(), Mode::EditingUsername);
    typed(&mut form, "u\tp\tq");
    assert_eq!(text(form.username()), "uq");
    assert_eq!(text(form.password()), "p");
    assert_eq!(form.masked_password(), vec!['*']);
}

#[test]
fn enter_on_empty_password_starts_over() {
    let mut form = LoginForm::with_username(vec!['x']);
    assert_eq!(form.handle_key('\r'), FormAction::Continue);
    assert_eq!(text(form.username()), "");
    assert_eq!(form.mode(), Mode::EditingUsername);
}

#[test]
fn ctrl_c_quits_and_clears() {
    let mut form = LoginForm::new();
    typed(&mut form, "ab\tcd");
    assert_eq!(form.handle_key('\x03'), FormAction::Quit);
    assert!(form.username().is_empty() && form.password().is_empty());
    form.reset();
    assert_eq!(form.mode(), Mode::EditingUsername);
}

#[test]
fn login_exchange() {
    let a = LoginPhase::Authenticating;
    assert_eq!(login_step(a, Reply::AuthMessage { secret: true }), (a, LoginStep::SendPassword));
    assert_eq!(login_step(a, Reply::AuthMessage { secret: false }), (a, LoginStep::SendEmpty));
    assert_eq!(login_step(a, Reply::Success), (LoginPhase::Starting, LoginStep::StartSession));
    assert_eq!(login_step(a, Reply::Error), (a, LoginStep::Failed(LoginError::WrongCredentials)));
    let s = LoginPhase::Starting;
    assert_eq!(login_step(s, Reply::Success), (s, LoginStep::LoggedIn));
    assert_eq!(login_step(s, Reply::Error), (s, LoginStep::Failed(LoginError::SessionFailedToStart)));
}

#[test]
fn bytes_become_characters() {
    assert_eq!(key_from_byte(b'a'), KeyEvent::Char('a'));
    assert_eq!(key_from_byte(0x7F), KeyEvent::Char('\x7F'));
}
