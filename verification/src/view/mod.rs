pub mod controls;
pub mod settings;
