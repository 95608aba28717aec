pub mod text;
pub mod kernel;
pub mod ui;
