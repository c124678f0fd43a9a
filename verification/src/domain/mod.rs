pub mod assertion;
pub mod check;
pub mod error;
pub mod json;
pub mod runtime;
pub mod settings;
pub mod service;
pub mod view;
