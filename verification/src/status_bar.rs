pub mod add;
pub mod colour_overwrite;
pub mod dummy;
pub mod eval;
pub mod find;
pub mod font;
pub mod hard_reset;
pub mod on_board_init;
pub mod padding;
pub mod pencil_marks;
pub mod shorthands;

use vstd::prelude::*;

verus! {

/// How a status-bar item asks to be drawn.
pub enum DisplayMode {
    Normal,
    NameOnly,
    StatusOnly,
    Hidden,
}

/// What a drawing hook asks the caller to do next: carry on with the
/// given value, or stop the chain.
pub enum HookAction<T> {
    Continue(T),
    Stop,
}

} // verus!
