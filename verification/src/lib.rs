//! Account attribution and shared-usage decisions for the agent quota sidebar.
pub mod codex_accounts;
pub mod digest;
pub mod model;
pub mod paths;
pub mod shared_usage;
