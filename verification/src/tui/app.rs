use vstd::prelude::*;

use crate::kodansha::user::Credentials;
use crate::tui::login::LoginScreen;
use crate::tui::nav::Key;

verus! {

/// Whether a user is logged in: their screen, or the login form.
pub enum AppState {
    User(crate::tui::user::User),
    NoUser(LoginScreen),
}

/// What the surrounding loop must do for the app before the next frame:
/// try the stored credentials, log in with the submitted ones, or drive the
/// logged-in user's screen.
pub enum AppAction {
    ConfigLogin,
    Login(Credentials),
    UserScreen,
}

/// The whole terminal app: either a login form or the user's screen.
pub struct App {
    pub state: AppState,
}

impl Default for App {
    /// Starts at the login form.
    fn default() -> (a: App)
        ensures
            a.state matches AppState::NoUser(l) && !l.submit,
    {
        App { state: AppState::NoUser(LoginScreen::default()) }
    }
}

impl App {
    /// One prerender step: with no user, try the stored credentials unless
    /// the form was submitted, in which case log in with the typed ones;
    /// with a user, their screen is driven instead.
    pub fn prerender(&self) -> (r: AppAction)
        ensures
            (self.state matches AppState::NoUser(l) ==> (match r {
                AppAction::Login(c) => l.submit && c.spec_username() == l.username@
                    && c.spec_password() == l.password@,
                AppAction::ConfigLogin => !l.submit,
                AppAction::UserScreen => false,
            })),
            (self.state is User ==> r is UserScreen),
    {
        match &self.state {
            AppState::NoUser(login) => {
                match login.get_credentials() {
                    Some(credentials) => AppAction::Login(credentials),
                    None => AppAction::ConfigLogin,
                }
            },
            AppState::User(_) => AppAction::UserScreen,
        }
    }

    /// A completed login: the user's screen takes over.
    pub fn login_complete(&mut self, screen: crate::tui::user::User)
        ensures
            final(self).state == AppState::User(screen),
    {
        self.state = AppState::User(screen);
    }

    /// One key press, handed to whichever screen is up.
    pub fn new_event(&mut self, normal_mode: &mut bool, key: Key, volume_count: usize) -> (handled:
        bool)
        ensures
            old(self).state is NoUser ==> final(self).state is NoUser,
            old(self).state is User ==> final(self).state is User,
    {
        match &mut self.state {
            AppState::NoUser(login) => login.new_event(normal_mode, key),
            AppState::User(user) => user.new_event(normal_mode, key, volume_count),
        }
    }
}

} // verus!
