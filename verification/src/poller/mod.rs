pub mod state_machine;
pub mod client;
pub mod request;
pub mod offline;
pub mod scheduler;
