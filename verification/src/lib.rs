//! Non-authoritative LayerX agent daemon library: durable tenant-scoped storage,
//! admission and rate limits, request deadlines, quotas, the submission outbox,
//! preparation lifecycle, sessions and their revocation, managed agents, shutdown,
//! observability and policy explanations.
pub mod assoc;
pub mod bytes;
pub mod digest;
pub mod human;
pub mod identity;
pub mod idempotency;
pub mod store;
pub mod limits;
pub mod managed_agent;
pub mod obs;
pub mod ops;
pub mod outbox;
pub mod owner;
pub mod owner_action;
pub mod policy;
pub mod prepare;
pub mod read;
pub mod session;
pub mod session_control;
pub mod session_keys;
pub mod shutdown;
pub mod sign_verify;
pub mod tenant;
pub mod text;
