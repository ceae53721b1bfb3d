use vstd::prelude::*;

verus! {

/// The field of the login prompt being edited.
#[derive(Clone, Copy, Debug, PartialEq, Eq, Structural)]
pub enum Mode {
    EditingUsername,
    EditingPassword,
}

/// What the prompt asks of its owner after a keystroke.
#[derive(Debug, PartialEq, Eq)]
pub enum FormAction {
    /// Nothing beyond redrawing.
    Continue,
    /// Authenticate with these credentials.
    Login { username: Vec<char>, password: Vec<char> },
    /// Cancel the pending session and quit.
    Quit,
}

/// What a keystroke asks of the prompt's owner, in the model.
#[derive(Clone, Copy, Debug, PartialEq, Eq, Structural)]
pub enum KeyOutcome {
    Continue,
    Login,
    Quit,
}

/// The model of the prompt: the two fields and which one is being edited.
pub ghost struct FormView {
    pub username: Seq<char>,
    pub password: Seq<char>,
    pub mode: Mode,
}

/// Ctrl-U and Ctrl-K clear the field being edited.
pub open spec fn is_clear_key(c: char) -> bool {
    c == '\u{15}' || c == '\u{0B}'
}

/// Ctrl-C and Ctrl-D quit.
pub open spec fn is_quit_key(c: char) -> bool {
    c == '\u{03}' || c == '\u{04}'
}

/// The prompt after the keystroke `c`, and whether it asks to log in or quit. Enter in the username field moves to the
/// password field when a username was typed; Enter with an empty password
/// starts over; Enter with a password logs in. Tab switches fields; Backspace
/// deletes the last character; any other key is typed into the field.
pub open spec fn key_next(f: FormView, c: char) -> (FormView, KeyOutcome) {
    let editing_user = f.mode is EditingUsername;
    if is_clear_key(c) {
        if editing_user {
            (FormView { username: Seq::empty(), ..f }, KeyOutcome::Continue)
        } else {
            (FormView { password: Seq::empty(), ..f }, KeyOutcome::Continue)
        }
    } else if is_quit_key(c) {
        (FormView { username: Seq::empty(), password: Seq::empty(), ..f }, KeyOutcome::Quit)
    } else if c == '\u{7F}' {
        if editing_user {
            (FormView { username: if f.username.len() > 0 { f.username.drop_last() } else { f.username }, ..f }, KeyOutcome::Continue)
        } else {
            (FormView { password: if f.password.len() > 0 { f.password.drop_last() } else { f.password }, ..f }, KeyOutcome::Continue)
        }
    } else if c == '\t' {
        (FormView { mode: if editing_user { Mode::EditingPassword } else { Mode::EditingUsername }, ..f }, KeyOutcome::Continue)
    } else if c == '\r' {
        if editing_user {
            if f.username.len() > 0 {
                (FormView { mode: Mode::EditingPassword, ..f }, KeyOutcome::Continue)
            } else {
                (f, KeyOutcome::Continue)
            }
        } else if f.password.len() == 0 {
            (FormView { username: Seq::empty(), mode: Mode::EditingUsername, ..f }, KeyOutcome::Continue)
        } else {
            (f, KeyOutcome::Login)
        }
    } else if editing_user {
        (FormView { username: f.username.push(c), ..f }, KeyOutcome::Continue)
    } else {
        (FormView { password: f.password.push(c), ..f }, KeyOutcome::Continue)
    }
}

/// The username/password prompt of the login screen.
pub struct LoginForm {
    username: Vec<char>,
    password: Vec<char>,
    mode: Mode,
}

impl View for LoginForm {
    type V = FormView;

    closed spec fn view(&self) -> FormView {
        FormView { username: self.username@, password: self.password@, mode: self.mode }
    }
}

impl LoginForm {
    /// An empty prompt editing the username.
    pub fn new() -> (r: LoginForm)
        ensures
            r@ == (FormView { username: Seq::empty(), password: Seq::empty(), mode: Mode::EditingUsername }),
    {
        LoginForm { username: Vec::new(), password: Vec::new(), mode: Mode::EditingUsername }
    }

    /// A prompt with `username` filled in, editing the password, as after a
    /// remembered login.
    pub fn with_username(username: Vec<char>) -> (r: LoginForm)
        ensures
            r@ == (FormView { username: username@, password: Seq::empty(), mode: Mode::EditingPassword }),
    {
        LoginForm { username, password: Vec::new(), mode: Mode::EditingPassword }
    }

    pub fn username(&self) -> (r: &Vec<char>)
        ensures
            r@ == self@.username,
    {
        &self.username
    }

    pub fn password(&self) -> (r: &Vec<char>)
        ensures
            r@ == self@.password,
    {
        &self.password
    }

    pub fn mode(&self) -> (r: Mode)
        ensures
            r == self@.mode,
    {
        self.mode
    }

    /// Selects the field to edit.
    pub fn set_mode(&mut self, mode: Mode)
        ensures
            final(self)@ == (FormView { mode, ..old(self)@ }),
    {
        self.mode = mode;
    }

    /// Switches to the other field.
    pub fn goto_next_mode(&mut self)
        ensures
            final(self)@ == (FormView {
                mode: if old(self)@.mode is EditingUsername { Mode::EditingPassword } else { Mode::EditingUsername },
                ..old(self)@
            }),
    {
        self.mode = match self.mode {
            Mode::EditingUsername => Mode::EditingPassword,
            Mode::EditingPassword => Mode::EditingUsername,
        };
    }

    /// Starts over after a failed login: both fields empty, editing the username.
    pub fn reset(&mut self)
        ensures
            final(self)@ == (FormView { username: Seq::empty(), password: Seq::empty(), mode: Mode::EditingUsername }),
    {
        self.username = Vec::new();
        self.password = Vec::new();
        self.mode = Mode::EditingUsername;
    }

    /// One asterisk per password character, for display.
    pub fn masked_password(&self) -> (r: Vec<char>)
        ensures
            r@.len() == self@.password.len(),
            forall|i: int| 0 <= i < r@.len() ==> r@[i] == '*',
    {
        let mut r: Vec<char> = Vec::new();
        let mut i: usize = 0;
        while i < self.password.len()
            invariant
                i <= self.password@.len(),
                r@.len() == i,
                forall|k: int| 0 <= k < r@.len() ==> r@[k] == '*',
            decreases self.password@.len() - i,
        {
            r.push('*');
            i = i + 1;
        }
        r
    }

    /// Applies the keystroke `c`.
    pub fn handle_key(&mut self, c: char) -> (r: FormAction)
        ensures
            final(self)@ == key_next(old(self)@, c).0,
            match r {
                FormAction::Continue => key_next(old(self)@, c).1 == KeyOutcome::Continue,
                FormAction::Login { username, password } => key_next(old(self)@, c).1 == KeyOutcome::Login
                    && username@ == old(self)@.username && password@ == old(self)@.password,
                FormAction::Quit => key_next(old(self)@, c).1 == KeyOutcome::Quit,
            },
    {
        let editing_user = match self.mode {
            Mode::EditingUsername => true,
            Mode::EditingPassword => false,
        };
        if c == '\u{15}' || c == '\u{0B}' {
            if editing_user {
                self.username = Vec::new();
            } else {
                self.password = Vec::new();
            }
            FormAction::Continue
        } else if c == '\u{03}' || c == '\u{04}' {
            self.username = Vec::new();
            self.password = Vec::new();
            FormAction::Quit
        } else if c == '\u{7F}' {
            if editing_user {
                let _ = self.username.pop();
            } else {
                let _ = self.password.pop();
            }
            FormAction::Continue
        } else if c == '\t' {
            self.goto_next_mode();
            FormAction::Continue
        } else if c == '\r' {
            if editing_user {
                if self.username.len() > 0 {
                    self.mode = Mode::EditingPassword;
                }
                FormAction::Continue
            } else if self.password.len() == 0 {
                self.username = Vec::new();
                self.mode = Mode::EditingUsername;
                FormAction::Continue
            } else {
                FormAction::Login { username: self.username.clone(), password: self.password.clone() }
            }
        } else {
            if editing_user {
                self.username.push(c);
            } else {
                self.password.push(c);
            }
            FormAction::Continue
        }
    }
}

} // verus!
