//! A dockable panel layout engine.
//!
//! A split container arranges its children along one axis, each child weighted
//! by a ratio. Between neighbouring children sit splitter handles that the user
//! drags to move weight from one side to the other.
//!
//! - `ratio`: ratio lists, their validation, and the two-panel redistribution
//!   that a drag performs (pair sum kept exactly, floor respected).
//! - `layout`: geometry, the grid layout handed to the host layout engine,
//!   splitter placement, cursor glyphs and panel decoration.
//! - `dock`: the store of containers and handles, the handle manager and the
//!   layout pass with its change-detection guard.
//! - `interaction`: the per-frame splitter positioner and the hover / drag
//!   state machine.

pub mod dock;
pub mod interaction;
pub mod layout;
pub mod ratio;
