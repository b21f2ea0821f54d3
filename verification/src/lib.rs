//! Verified state and layout logic of the editor's settings controls:
//! buttons, text lists, key/value maps and the settings panel state.
pub mod json;
pub mod layout;
pub mod text;
pub mod view;
