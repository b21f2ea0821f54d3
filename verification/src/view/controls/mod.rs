use vstd::prelude::*;

pub mod button;
pub mod map_input;
pub mod text_list;

verus! {

/// Focus state shared by all controls.
#[derive(Debug, Clone, Copy, PartialEq, Eq, Structural)]
pub enum FocusState {
    /// Not focused, can be interacted with
    Normal,
    /// Has keyboard focus
    Focused,
    /// Under the mouse pointer
    Hovered,
    /// Cannot be interacted with
    Disabled,
}

} // verus!
