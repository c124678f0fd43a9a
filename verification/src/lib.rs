pub mod domain;
pub mod draft;
pub mod eval;
pub mod launch;
pub mod logging;
pub mod notify;
pub mod platform;
pub mod poller;
pub mod store;
pub mod text;
