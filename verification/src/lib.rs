pub mod clock;
pub mod model;
pub mod text;
pub mod url;
pub mod ui;
pub mod app;
pub mod keys;
pub mod laws;
pub mod layout;
pub mod session;
