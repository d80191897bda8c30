//! A verified core for a small native GUI widget toolkit.
//!
//! The crate models the two hard parts of such a toolkit: the single-line
//! text-input editing engine (caret/selection model, edit buffer with a
//! coalescing undo record, horizontal scrolling of a viewport) and the
//! popup-menu tree with its modal tracking state machine (hit-testing,
//! submenu lifecycles, keyboard navigation, monitor-aware placement).
//!
//! The widget host — window handles, painting, the text-shaping service,
//! the clipboard — stays outside. The host hands the library plain values
//! (code units, per-code-unit advance widths measured by its shaper,
//! rectangles in device-independent units, decoded input events) and takes
//! plain values back (new states, invalidation rectangles, commands).

pub mod buffer;
pub mod geometry;
pub mod input;
pub mod menu;
pub mod shaping;
