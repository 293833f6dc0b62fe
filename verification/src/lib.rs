//! Core logic of a desktop messaging assistant: the login state machine,
//! chat filtering, per-recipient rate limiting, a TTL cache keyed by chat-id
//! sets, an outreach queue with durable accounting, prompt construction and
//! sanitization for an LLM fan-out layer, and the error taxonomy that ties
//! them together.

pub mod rate_limiter;
pub mod strutil;
pub mod sanitize;
pub mod cache;
pub mod errors;
pub mod auth;
pub mod chats;
pub mod outreach;
pub mod ai_types;
pub mod prompts;
pub mod llm;
pub mod extract;
pub mod store;
pub mod contacts;
pub mod offboard;
pub mod briefing;

pub use rate_limiter::RateLimiter;
