//! The login state machine: phone, code, optional second factor.
//!
//! The machine is pure bookkeeping over plain values. The surrounding
//! program performs the network calls and the session-file writes, hands
//! the outcomes in, and carries out the [`SessionAction`] each transition
//! returns. A transition into `Ready` by code or password requires the
//! session write to have succeeded; without it the operation fails and
//! the state stands still.

use vstd::prelude::*;

verus! {

/// The authentication state observed by the UI.
#[derive(Debug, Clone, PartialEq, Eq)]
pub enum AuthState {
    WaitPhoneNumber,
    WaitCode { phone_number: String },
    WaitPassword { hint: String },
    Ready,
    LoggingOut,
    Closed,
}

/// An account user.
#[derive(Debug, Clone, PartialEq, Eq)]
pub struct User {
    pub id: i64,
    pub first_name: String,
    pub last_name: String,
    pub username: Option<String>,
    pub phone_number: Option<String>,
    pub profile_photo_url: Option<String>,
}

/// Spec-level user.
pub struct UserView {
    pub id: i64,
    pub first_name: Seq<char>,
    pub last_name: Seq<char>,
    pub username: Option<Seq<char>>,
    pub phone_number: Option<Seq<char>>,
    pub profile_photo_url: Option<Seq<char>>,
}

pub open spec fn opt_string_chars(o: Option<String>) -> Option<Seq<char>> {
    match o {
        Some(s) => Some(s@),
        None => None,
    }
}

impl View for User {
    type V = UserView;

    open spec fn view(&self) -> UserView {
        UserView {
            id: self.id,
            first_name: self.first_name@,
            last_name: self.last_name@,
            username: opt_string_chars(self.username),
            phone_number: opt_string_chars(self.phone_number),
            profile_photo_url: opt_string_chars(self.profile_photo_url),
        }
    }
}

/// What the sign-in call came back with.
#[derive(Debug, Clone, PartialEq, Eq)]
pub enum SignInOutcome {
    SignedIn(User),
    PasswordRequired { hint: String },
    InvalidCode,
    Failed(String),
}

/// What the password check came back with.
#[derive(Debug, Clone, PartialEq, Eq)]
pub enum PasswordOutcome {
    Accepted(User),
    Rejected(String),
}

/// What the caller must do to the session file after a transition.
#[derive(Debug, Clone, Copy, PartialEq, Eq)]
pub enum SessionAction {
    Save,
    Remove,
    Keep,
}

/// One input to the login machine.
pub enum AuthStep {
    Connected { authorized: bool },
    PhoneAccepted { phone: String },
    CodeChecked { outcome: SignInOutcome, persist_ok: bool },
    PasswordChecked { outcome: PasswordOutcome, persist_ok: bool },
    LoggedOut,
}

/// The state an input carries the machine to.
pub open spec fn auth_next(s: AuthState, step: AuthStep) -> AuthState {
    match step {
        AuthStep::Connected { authorized } => {
            if authorized {
                AuthState::Ready
            } else {
                AuthState::WaitPhoneNumber
            }
        },
        AuthStep::PhoneAccepted { phone } => AuthState::WaitCode { phone_number: phone },
        AuthStep::CodeChecked { outcome, persist_ok } => match outcome {
            SignInOutcome::SignedIn(_) => {
                if persist_ok {
                    AuthState::Ready
                } else {
                    s
                }
            },
            SignInOutcome::PasswordRequired { hint } => AuthState::WaitPassword { hint },
            SignInOutcome::InvalidCode => s,
            SignInOutcome::Failed(_) => s,
        },
        AuthStep::PasswordChecked { outcome, persist_ok } => match outcome {
            PasswordOutcome::Accepted(_) => {
                if persist_ok {
                    AuthState::Ready
                } else {
                    s
                }
            },
            PasswordOutcome::Rejected(_) => s,
        },
        AuthStep::LoggedOut => AuthState::WaitPhoneNumber,
    }
}

/// The state after a whole run of inputs.
pub open spec fn auth_run(s: AuthState, steps: Seq<AuthStep>) -> AuthState
    decreases steps.len(),
{
    if steps.len() == 0 {
        s
    } else {
        auth_run(auth_next(s, steps[0]), steps.drop_first())
    }
}

/// The states the login flow can actually stand in.
pub open spec fn reachable_auth_state(s: AuthState) -> bool {
    ||| s is WaitPhoneNumber
    ||| s is WaitCode
    ||| s is WaitPassword
    ||| s is Ready
}

/// Starting from `WaitPhoneNumber`, every run of inputs leaves the
/// machine in one of the enumerated states: waiting for a phone number,
/// a code, or a password, or ready. No other state is reachable.
pub proof fn lemma_auth_states_enumerated(steps: Seq<AuthStep>)
    ensures
        reachable_auth_state(auth_run(AuthState::WaitPhoneNumber, steps)),
{
    lemma_auth_run_preserves_reachable(AuthState::WaitPhoneNumber, steps);
}

proof fn lemma_auth_run_preserves_reachable(s: AuthState, steps: Seq<AuthStep>)
    requires
        reachable_auth_state(s),
    ensures
        reachable_auth_state(auth_run(s, steps)),
    decreases steps.len(),
{
    if steps.len() > 0 {
        lemma_auth_run_preserves_reachable(auth_next(s, steps[0]), steps.drop_first());
    }
}

/// The login machine and the values it remembers between steps.
pub struct AuthMachine {
    state: AuthState,
    current_user: Option<User>,
    has_login_token: bool,
    has_password_token: bool,
    phone_number: Option<String>,
}

impl AuthMachine {
    pub closed spec fn state(&self) -> AuthState {
        self.state
    }

    pub closed spec fn user(&self) -> Option<User> {
        self.current_user
    }

    pub closed spec fn holds_login_token(&self) -> bool {
        self.has_login_token
    }

    pub closed spec fn holds_password_token(&self) -> bool {
        self.has_password_token
    }

    pub closed spec fn phone(&self) -> Option<String> {
        self.phone_number
    }

    /// A fresh machine: waiting for a phone number, nobody signed in.
    pub fn new() -> (r: Self)
        ensures
            r.state() == AuthState::WaitPhoneNumber,
            r.user() is None,
            !r.holds_login_token(),
            !r.holds_password_token(),
            r.phone() is None,
    {
        AuthMachine {
            state: AuthState::WaitPhoneNumber,
            current_user: None,
            has_login_token: false,
            has_password_token: false,
            phone_number: None,
        }
    }

    /// The current authentication state.
    pub fn auth_state(&self) -> (r: &AuthState)
        ensures
            *r == self.state(),
    {
        &self.state
    }

    /// The signed-in user, if any.
    pub fn current_user(&self) -> (r: &Option<User>)
        ensures
            *r == self.user(),
    {
        &self.current_user
    }

    /// The phone number under login, if any.
    pub fn phone_number(&self) -> (r: &Option<String>)
        ensures
            *r == self.phone(),
    {
        &self.phone_number
    }

    /// The transport connected and reported whether the stored session is
    /// still authorized; `me` is the account user when it is. The session
    /// file is rewritten either way.
    pub fn connect_completed(&mut self, authorized: bool, me: Option<User>) -> (act: SessionAction)
        ensures
            final(self).state() == auth_next(old(self).state(), AuthStep::Connected { authorized }),
            final(self).user() == if authorized && me is Some {
                me
            } else {
                old(self).user()
            },
            final(self).holds_login_token() == old(self).holds_login_token(),
            final(self).holds_password_token() == old(self).holds_password_token(),
            final(self).phone() == old(self).phone(),
            act is Save,
            reachable_auth_state(final(self).state()),
    {
        if authorized {
            if let Some(user) = me {
                self.current_user = Some(user);
            }
            self.state = AuthState::Ready;
        } else {
            self.state = AuthState::WaitPhoneNumber;
        }
        SessionAction::Save
    }

    /// A login code was requested for `phone` and the server accepted:
    /// remember the login token and wait for the code.
    pub fn phone_accepted(&mut self, phone: String) -> (act: SessionAction)
        ensures
            final(self).state() == auth_next(
                old(self).state(),
                AuthStep::PhoneAccepted { phone },
            ),
            final(self).holds_login_token(),
            final(self).phone() matches Some(p) && p@ == phone@,
            final(self).user() == old(self).user(),
            final(self).holds_password_token() == old(self).holds_password_token(),
            act is Keep,
            reachable_auth_state(final(self).state()),
    {
        self.phone_number = Some(clone_string(&phone));
        self.has_login_token = true;
        self.state = AuthState::WaitCode { phone_number: phone };
        SessionAction::Keep
    }

    /// The sign-in call for the entered code finished. `persist_ok` says
    /// whether the session file could be written. Ready is reached only
    /// on a signed-in user with a persisted session; an invalid code
    /// keeps the login token for another try; a second-factor demand
    /// moves to the password step and surfaces as an error so the caller
    /// switches its UI.
    pub fn code_checked(&mut self, outcome: SignInOutcome, persist_ok: bool) -> (r: Result<
        (),
        crate::errors::TelegramError,
    >)
        requires
            old(self).state() is WaitCode,
            old(self).holds_login_token(),
        ensures
            final(self).state() == auth_next(
                old(self).state(),
                AuthStep::CodeChecked { outcome, persist_ok },
            ),
            final(self).state() is Ready ==> persist_ok,
            final(self).phone() == old(self).phone(),
            match outcome {
                SignInOutcome::SignedIn(u) => {
                    &&& final(self).user() == Some(u)
                    &&& !final(self).holds_login_token()
                    &&& if persist_ok {
                        r is Ok
                    } else {
                        match r {
                            Err(crate::errors::TelegramError::Session(_)) => true,
                            _ => false,
                        }
                    }
                },
                SignInOutcome::PasswordRequired { hint } => {
                    &&& final(self).holds_password_token()
                    &&& !final(self).holds_login_token()
                    &&& match r {
                        Err(crate::errors::TelegramError::TwoFactorRequired { hint: h }) => h@
                            == hint@,
                        _ => false,
                    }
                    &&& final(self).user() == old(self).user()
                },
                SignInOutcome::InvalidCode => {
                    &&& final(self).holds_login_token()
                    &&& r == Err::<(), _>(crate::errors::TelegramError::InvalidCode)
                    &&& final(self).user() == old(self).user()
                },
                SignInOutcome::Failed(msg) => {
                    &&& !final(self).holds_login_token()
                    &&& r == Err::<(), _>(crate::errors::TelegramError::Auth(msg))
                    &&& final(self).user() == old(self).user()
                },
            },
            reachable_auth_state(final(self).state()),
    {
        match outcome {
            SignInOutcome::SignedIn(user) => {
                self.has_login_token = false;
                self.current_user = Some(user);
                if persist_ok {
                    self.state = AuthState::Ready;
                    Ok(())
                } else {
                    Err(crate::errors::TelegramError::Session(
                        "failed to write the session file".to_owned(),
                    ))
                }
            },
            SignInOutcome::PasswordRequired { hint } => {
                self.has_login_token = false;
                self.has_password_token = true;
                let hint_copy = clone_string(&hint);
                self.state = AuthState::WaitPassword { hint };
                Err(crate::errors::TelegramError::TwoFactorRequired { hint: hint_copy })
            },
            SignInOutcome::InvalidCode => Err(crate::errors::TelegramError::InvalidCode),
            SignInOutcome::Failed(msg) => {
                self.has_login_token = false;
                Err(crate::errors::TelegramError::Auth(msg))
            },
        }
    }

    /// The password check for the second factor finished; as with the
    /// code, Ready is reached only with a persisted session.
    pub fn password_checked(&mut self, outcome: PasswordOutcome, persist_ok: bool) -> (r: Result<
        (),
        crate::errors::TelegramError,
    >)
        requires
            old(self).state() is WaitPassword,
            old(self).holds_password_token(),
        ensures
            final(self).state() == auth_next(
                old(self).state(),
                AuthStep::PasswordChecked { outcome, persist_ok },
            ),
            final(self).state() is Ready ==> persist_ok,
            !final(self).holds_password_token(),
            final(self).phone() == old(self).phone(),
            match outcome {
                PasswordOutcome::Accepted(u) => {
                    &&& final(self).user() == Some(u)
                    &&& if persist_ok {
                        r is Ok
                    } else {
                        r is Err
                    }
                },
                PasswordOutcome::Rejected(msg) => {
                    &&& r == Err::<(), _>(crate::errors::TelegramError::Auth(msg))
                    &&& final(self).user() == old(self).user()
                },
            },
            reachable_auth_state(final(self).state()),
    {
        self.has_password_token = false;
        match outcome {
            PasswordOutcome::Accepted(user) => {
                self.current_user = Some(user);
                if persist_ok {
                    self.state = AuthState::Ready;
                    Ok(())
                } else {
                    Err(crate::errors::TelegramError::Session(
                        "failed to write the session file".to_owned(),
                    ))
                }
            },
            PasswordOutcome::Rejected(msg) => Err(crate::errors::TelegramError::Auth(msg)),
        }
    }

    /// Log out: back to the start, nobody signed in, and the session
    /// file is to be removed.
    pub fn logged_out(&mut self) -> (act: SessionAction)
        ensures
            final(self).state() == auth_next(old(self).state(), AuthStep::LoggedOut),
            final(self).state() == AuthState::WaitPhoneNumber,
            final(self).user() is None,
            act is Remove,
            reachable_auth_state(final(self).state()),
    {
        self.current_user = None;
        self.state = AuthState::WaitPhoneNumber;
        SessionAction::Remove
    }
}

/// A copy of `s` with the same characters.
pub fn clone_string(s: &String) -> (r: String)
    ensures
        r@ == s@,
{
    s.as_str().to_owned()
}

/// Recognition of raw auth-state updates pushed by the server: no update
/// format is translated, so every update maps to `None` and state is
/// tracked through the machine's own transitions alone.
pub fn parse_auth_state_from_tdlib(update: &str) -> (r: Option<AuthState>)
    ensures
        r is None,
{
    let _ = update;
    None
}

} // verus!
