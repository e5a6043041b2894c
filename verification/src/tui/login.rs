use vstd::prelude::*;

use crate::kodansha::user::Credentials;
use crate::tui::nav::Key;

verus! {

/// Which field of the login form is being edited.
#[derive(Clone, Copy, PartialEq, Eq, Structural, Debug)]
pub enum LoginState {
    Normal,
    Username,
    Password,
}

/// The login form: the two fields, whether the user submitted them, and
/// which field is being edited.
pub struct LoginScreen {
    pub username: String,
    pub password: String,
    pub submit: bool,
    pub state: LoginState,
}

/// Relies on String::push: appends one character to the string.
#[verifier::external_body]
fn push_char(s: &mut String, c: char)
    ensures
        final(s)@ == old(s)@.push(c),
{
    s.push(c)
}

/// Relies on String::pop: removes and returns the last character, if any.
#[verifier::external_body]
fn pop_char(s: &mut String) -> (r: Option<char>)
    ensures
        old(s)@.len() == 0 ==> r is None && final(s)@ == old(s)@,
        old(s)@.len() > 0 ==> r == Some(old(s)@.last()) && final(s)@ == old(s)@.drop_last(),
{
    s.pop()
}

impl Default for LoginScreen {
    /// An empty form in normal mode.
    fn default() -> (d: LoginScreen)
        ensures
            d.username@ == Seq::<char>::empty(),
            d.password@ == Seq::<char>::empty(),
            !d.submit,
            d.state is Normal,
    {
        LoginScreen { username: String::new(), password: String::new(), submit: false, state: LoginState::Normal }
    }
}

impl LoginScreen {
    /// The typed credentials, once the form was submitted; nothing before.
    pub fn get_credentials(&self) -> (r: Option<Credentials>)
        ensures
            !self.submit ==> r is None,
            self.submit ==> (r matches Some(c) && c.spec_username() == self.username@
                && c.spec_password() == self.password@),
    {
        if !self.submit {
            return None;
        }
        let username = crate::text::clone_string(&self.username);
        let password = crate::text::clone_string(&self.password);
        Some(Credentials::new(username, password))
    }

    /// One key press: typing fills the field being edited, backspace trims
    /// it, `u` and `p` pick a field, Esc leaves it, and Enter in normal mode
    /// submits the form.
    pub fn new_event(&mut self, normal_mode: &mut bool, key: Key) -> (handled: bool)
        ensures
            (old(self).state is Username ==> (match key {
                Key::Char(c) => handled && final(self).username@ == old(self).username@.push(c)
                    && final(self).password == old(self).password && final(self).state == old(self).state,
                Key::Backspace => handled && final(self).username@ == (if old(self).username@.len() > 0 {
                    old(self).username@.drop_last()
                } else {
                    old(self).username@
                }),
                Key::Esc => handled && final(self).state is Normal && *final(normal_mode),
                _ => !handled && *final(self) == *old(self),
            })),
            (old(self).state is Password ==> (match key {
                Key::Char(c) => handled && final(self).password@ == old(self).password@.push(c)
                    && final(self).username == old(self).username && final(self).state == old(self).state,
                Key::Backspace => handled && final(self).password@ == (if old(self).password@.len() > 0 {
                    old(self).password@.drop_last()
                } else {
                    old(self).password@
                }),
                Key::Esc => handled && final(self).state is Normal && *final(normal_mode),
                _ => !handled && *final(self) == *old(self),
            })),
            (old(self).state is Normal ==> (match key {
                Key::Char(c) => (c == 'u' ==> handled && final(self).state is Username && !*final(normal_mode)) && (c == 'p' ==> handled && final(self).state is Password && !*final(normal_mode)) && (c != 'u' && c != 'p' ==> !handled && *final(self) == *old(self)),
                Key::Enter => handled && final(self).submit && final(self).state == old(self).state,
                _ => !handled && *final(self) == *old(self),
            })),
            final(self).submit == old(self).submit || key == Key::Enter,
    {
        match (key, self.state) {
            (Key::Char(c), LoginState::Username) => {
                push_char(&mut self.username, c);
                true
            },
            (Key::Char(c), LoginState::Password) => {
                push_char(&mut self.password, c);
                true
            },
            (Key::Char(c), LoginState::Normal) => {
                if c == 'u' {
                    self.state = LoginState::Username;
                    *normal_mode = false;
                    true
                } else if c == 'p' {
                    self.state = LoginState::Password;
                    *normal_mode = false;
                    true
                } else {
                    false
                }
            },
            (Key::Backspace, LoginState::Username) => {
                let _ = pop_char(&mut self.username);
                true
            },
            (Key::Backspace, LoginState::Password) => {
                let _ = pop_char(&mut self.password);
                true
            },
            (Key::Esc, LoginState::Username) | (Key::Esc, LoginState::Password) => {
                self.state = LoginState::Normal;
                *normal_mode = true;
                true
            },
            (Key::Enter, LoginState::Normal) => {
                self.submit = true;
                true
            },
            _ => false,
        }
    }
}

} // verus!
