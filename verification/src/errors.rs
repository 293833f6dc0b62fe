//! The error taxonomy: typed error enumerations with stable upper-case
//! string codes for IPC and short human-readable messages.

use vstd::prelude::*;
use crate::strutil::{chars_of, string_from_chars, append_chars, i64_dec_chars, dec_rep_i64};

verus! {

/// Telegram-side errors.
#[derive(Debug, Clone, PartialEq, Eq)]
pub enum TelegramError {
    NotConnected,
    NotAuthorized,
    Session(String),
    Connection(String),
    Auth(String),
    TwoFactorRequired { hint: String },
    InvalidCode,
    Api(String),
    ChatNotFound(i64),
    UserNotFound(i64),
    RateLimited(String),
}

/// Database-side errors.
#[derive(Debug, Clone, PartialEq, Eq)]
pub enum DatabaseError {
    NotInitialized,
    Open(String),
    Query(String),
    Lock,
    NotFound(String),
}

/// Configuration errors.
#[derive(Debug, Clone, PartialEq, Eq)]
pub enum ConfigError {
    MissingEnvVar(String),
    Invalid(String),
    MissingTelegramCredentials,
}

/// Outreach-side errors.
#[derive(Debug, Clone, PartialEq, Eq)]
pub enum OutreachError {
    NoRecipients,
    EmptyTemplate,
    QueueNotFound(String),
    AlreadyCancelled,
    SendFailed { user_id: i64, reason: String },
}

/// Application-level error type.
#[derive(Debug, Clone, PartialEq, Eq)]
pub enum AppError {
    Telegram(TelegramError),
    Database(DatabaseError),
    Config(ConfigError),
    Outreach(OutreachError),
    Internal(String),
}

/// Serializable error response handed over IPC: a stable code and a
/// short message.
#[derive(Debug, Clone, PartialEq, Eq)]
pub struct ErrorResponse {
    pub code: String,
    pub message: String,
    pub details: Option<String>,
}

/// The stable code for a Telegram error.
pub open spec fn telegram_code_text(e: TelegramError) -> Seq<char> {
    match e {
        TelegramError::NotConnected => "NOT_CONNECTED"@,
        TelegramError::NotAuthorized => "NOT_AUTHORIZED"@,
        TelegramError::Session(_) => "SESSION_ERROR"@,
        TelegramError::Connection(_) => "CONNECTION_ERROR"@,
        TelegramError::Auth(_) => "AUTH_ERROR"@,
        TelegramError::TwoFactorRequired { .. } => "2FA_REQUIRED"@,
        TelegramError::InvalidCode => "INVALID_CODE"@,
        TelegramError::Api(_) => "API_ERROR"@,
        TelegramError::ChatNotFound(_) => "CHAT_NOT_FOUND"@,
        TelegramError::UserNotFound(_) => "USER_NOT_FOUND"@,
        TelegramError::RateLimited(_) => "RATE_LIMITED"@,
    }
}

/// The human-readable message for a Telegram error.
pub open spec fn telegram_message_text(e: TelegramError) -> Seq<char> {
    match e {
        TelegramError::NotConnected => "Not connected to Telegram"@,
        TelegramError::NotAuthorized => "Not authorized"@,
        TelegramError::Session(s) => "Session error: "@ + s@,
        TelegramError::Connection(s) => "Connection failed: "@ + s@,
        TelegramError::Auth(s) => "Authentication failed: "@ + s@,
        TelegramError::TwoFactorRequired { hint } => "2FA required. Hint: "@ + hint@,
        TelegramError::InvalidCode => "Invalid code. Please try again."@,
        TelegramError::Api(s) => "API error: "@ + s@,
        TelegramError::ChatNotFound(id) => "Chat not found: "@ + dec_rep_i64(id),
        TelegramError::UserNotFound(id) => "User not found: "@ + dec_rep_i64(id),
        TelegramError::RateLimited(s) => "Rate limited: "@ + s@,
    }
}

/// The stable code for an outreach error.
pub open spec fn outreach_code_text(e: OutreachError) -> Seq<char> {
    match e {
        OutreachError::NoRecipients => "NO_RECIPIENTS"@,
        OutreachError::EmptyTemplate => "EMPTY_TEMPLATE"@,
        OutreachError::QueueNotFound(_) => "QUEUE_NOT_FOUND"@,
        OutreachError::AlreadyCancelled => "ALREADY_CANCELLED"@,
        OutreachError::SendFailed { .. } => "SEND_FAILED"@,
    }
}

/// The human-readable message for an outreach error.
pub open spec fn outreach_message_text(e: OutreachError) -> Seq<char> {
    match e {
        OutreachError::NoRecipients => "No recipients specified"@,
        OutreachError::EmptyTemplate => "Message template is empty"@,
        OutreachError::QueueNotFound(s) => "Queue not found: "@ + s@,
        OutreachError::AlreadyCancelled => "Queue already cancelled"@,
        OutreachError::SendFailed { user_id, reason } => "Failed to send message to "@
            + dec_rep_i64(user_id) + ": "@ + reason@,
    }
}

/// The human-readable message for a database error.
pub open spec fn database_message_text(e: DatabaseError) -> Seq<char> {
    match e {
        DatabaseError::NotInitialized => "Database not initialized"@,
        DatabaseError::Open(s) => "Failed to open database: "@ + s@,
        DatabaseError::Query(s) => "Query failed: "@ + s@,
        DatabaseError::Lock => "Failed to lock database"@,
        DatabaseError::NotFound(s) => "Record not found: "@ + s@,
    }
}

/// The human-readable message for a configuration error.
pub open spec fn config_message_text(e: ConfigError) -> Seq<char> {
    match e {
        ConfigError::MissingEnvVar(s) => "Missing environment variable: "@ + s@,
        ConfigError::Invalid(s) => "Invalid configuration: "@ + s@,
        ConfigError::MissingTelegramCredentials
            => "Missing Telegram credentials. Set TELEGRAM_API_ID and TELEGRAM_API_HASH"@,
    }
}

/// The stable code for an application error.
pub open spec fn app_code_text(e: AppError) -> Seq<char> {
    match e {
        AppError::Telegram(inner) => telegram_code_text(inner),
        AppError::Database(_) => "DATABASE_ERROR"@,
        AppError::Config(_) => "CONFIG_ERROR"@,
        AppError::Outreach(inner) => outreach_code_text(inner),
        AppError::Internal(_) => "INTERNAL_ERROR"@,
    }
}

/// The human-readable message for an application error.
pub open spec fn app_message_text(e: AppError) -> Seq<char> {
    match e {
        AppError::Telegram(inner) => "Telegram error: "@ + telegram_message_text(inner),
        AppError::Database(inner) => "Database error: "@ + database_message_text(inner),
        AppError::Config(inner) => "Configuration error: "@ + config_message_text(inner),
        AppError::Outreach(inner) => "Outreach error: "@ + outreach_message_text(inner),
        AppError::Internal(s) => s@,
    }
}

/// The stable code of a Telegram error.
pub fn telegram_error_code(err: &TelegramError) -> (r: String)
    ensures
        r@ == telegram_code_text(*err),
{
    let text: &str = match err {
        TelegramError::NotConnected => "NOT_CONNECTED",
        TelegramError::NotAuthorized => "NOT_AUTHORIZED",
        TelegramError::Session(_) => "SESSION_ERROR",
        TelegramError::Connection(_) => "CONNECTION_ERROR",
        TelegramError::Auth(_) => "AUTH_ERROR",
        TelegramError::TwoFactorRequired { .. } => "2FA_REQUIRED",
        TelegramError::InvalidCode => "INVALID_CODE",
        TelegramError::Api(_) => "API_ERROR",
        TelegramError::ChatNotFound(_) => "CHAT_NOT_FOUND",
        TelegramError::UserNotFound(_) => "USER_NOT_FOUND",
        TelegramError::RateLimited(_) => "RATE_LIMITED",
    };
    text.to_owned()
}

/// The stable code of an outreach error.
pub fn outreach_error_code(err: &OutreachError) -> (r: String)
    ensures
        r@ == outreach_code_text(*err),
{
    let text: &str = match err {
        OutreachError::NoRecipients => "NO_RECIPIENTS",
        OutreachError::EmptyTemplate => "EMPTY_TEMPLATE",
        OutreachError::QueueNotFound(_) => "QUEUE_NOT_FOUND",
        OutreachError::AlreadyCancelled => "ALREADY_CANCELLED",
        OutreachError::SendFailed { .. } => "SEND_FAILED",
    };
    text.to_owned()
}

fn concat_str_string(prefix: &str, rest: &String) -> (r: String)
    ensures
        r@ == prefix@ + rest@,
{
    let mut out = chars_of(prefix);
    let rest_chars = chars_of(rest.as_str());
    append_chars(&mut out, &rest_chars);
    string_from_chars(&out)
}

fn concat_str_i64(prefix: &str, value: i64) -> (r: String)
    ensures
        r@ == prefix@ + dec_rep_i64(value),
{
    let mut out = chars_of(prefix);
    let digits = i64_dec_chars(value);
    append_chars(&mut out, &digits);
    string_from_chars(&out)
}

impl TelegramError {
    /// The short human-readable message.
    pub fn message(&self) -> (r: String)
        ensures
            r@ == telegram_message_text(*self),
    {
        match self {
            TelegramError::NotConnected => "Not connected to Telegram".to_owned(),
            TelegramError::NotAuthorized => "Not authorized".to_owned(),
            TelegramError::Session(s) => concat_str_string("Session error: ", s),
            TelegramError::Connection(s) => concat_str_string("Connection failed: ", s),
            TelegramError::Auth(s) => concat_str_string("Authentication failed: ", s),
            TelegramError::TwoFactorRequired { hint } => concat_str_string(
                "2FA required. Hint: ",
                hint,
            ),
            TelegramError::InvalidCode => "Invalid code. Please try again.".to_owned(),
            TelegramError::Api(s) => concat_str_string("API error: ", s),
            TelegramError::ChatNotFound(id) => concat_str_i64("Chat not found: ", *id),
            TelegramError::UserNotFound(id) => concat_str_i64("User not found: ", *id),
            TelegramError::RateLimited(s) => concat_str_string("Rate limited: ", s),
        }
    }
}

impl DatabaseError {
    /// The short human-readable message.
    pub fn message(&self) -> (r: String)
        ensures
            r@ == database_message_text(*self),
    {
        match self {
            DatabaseError::NotInitialized => "Database not initialized".to_owned(),
            DatabaseError::Open(s) => concat_str_string("Failed to open database: ", s),
            DatabaseError::Query(s) => concat_str_string("Query failed: ", s),
            DatabaseError::Lock => "Failed to lock database".to_owned(),
            DatabaseError::NotFound(s) => concat_str_string("Record not found: ", s),
        }
    }
}

impl ConfigError {
    /// The short human-readable message.
    pub fn message(&self) -> (r: String)
        ensures
            r@ == config_message_text(*self),
    {
        match self {
            ConfigError::MissingEnvVar(s) => concat_str_string(
                "Missing environment variable: ",
                s,
            ),
            ConfigError::Invalid(s) => concat_str_string("Invalid configuration: ", s),
            ConfigError::MissingTelegramCredentials =>
                "Missing Telegram credentials. Set TELEGRAM_API_ID and TELEGRAM_API_HASH".to_owned(),
        }
    }
}

impl OutreachError {
    /// The short human-readable message.
    pub fn message(&self) -> (r: String)
        ensures
            r@ == outreach_message_text(*self),
    {
        match self {
            OutreachError::NoRecipients => "No recipients specified".to_owned(),
            OutreachError::EmptyTemplate => "Message template is empty".to_owned(),
            OutreachError::QueueNotFound(s) => concat_str_string("Queue not found: ", s),
            OutreachError::AlreadyCancelled => "Queue already cancelled".to_owned(),
            OutreachError::SendFailed { user_id, reason } => {
                let mut out = chars_of("Failed to send message to ");
                let digits = i64_dec_chars(*user_id);
                append_chars(&mut out, &digits);
                let sep = chars_of(": ");
                append_chars(&mut out, &sep);
                let reason_chars = chars_of(reason.as_str());
                append_chars(&mut out, &reason_chars);
                string_from_chars(&out)
            },
        }
    }
}

impl AppError {
    /// The stable code of the error.
    pub fn code(&self) -> (r: String)
        ensures
            r@ == app_code_text(*self),
    {
        match self {
            AppError::Telegram(inner) => telegram_error_code(inner),
            AppError::Database(_) => "DATABASE_ERROR".to_owned(),
            AppError::Config(_) => "CONFIG_ERROR".to_owned(),
            AppError::Outreach(inner) => outreach_error_code(inner),
            AppError::Internal(_) => "INTERNAL_ERROR".to_owned(),
        }
    }

    /// The short human-readable message.
    pub fn message(&self) -> (r: String)
        ensures
            r@ == app_message_text(*self),
    {
        match self {
            AppError::Telegram(inner) => {
                let rest = inner.message();
                concat_str_string("Telegram error: ", &rest)
            },
            AppError::Database(inner) => {
                let rest = inner.message();
                concat_str_string("Database error: ", &rest)
            },
            AppError::Config(inner) => {
                let rest = inner.message();
                concat_str_string("Configuration error: ", &rest)
            },
            AppError::Outreach(inner) => {
                let rest = inner.message();
                concat_str_string("Outreach error: ", &rest)
            },
            AppError::Internal(s) => {
                let out = chars_of(s.as_str());
                string_from_chars(&out)
            },
        }
    }
}

impl ErrorResponse {
    /// The IPC response for an application error: its stable code, its
    /// message, no details.
    pub fn from(err: AppError) -> (r: ErrorResponse)
        ensures
            r.code@ == app_code_text(err),
            r.message@ == app_message_text(err),
            r.details is None,
    {
        ErrorResponse { code: err.code(), message: err.message(), details: None }
    }
}

} // verus!
