pub mod items;
pub mod state;
