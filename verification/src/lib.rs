pub mod app;
pub mod command;
pub mod json;
pub mod model;
pub mod plot;
pub mod protocol;
pub mod sender;
pub mod text;
pub mod ui;
