//! A retained-mode, flexbox-like layout engine over a tree of boxes.
//!
//! A tree of [`layout::Component`]s is laid out in three passes, each over
//! the whole tree: the measure pass resolves sizes ([`measure`]), the
//! position pass places every node ([`position`]), and the overflow pass
//! applies scroll offsets and clips every node to what its container shows
//! ([`overflow`]).  The draw pass then turns the tree into a list of drawing
//! commands ([`draw`]), and pointer, wheel and key events are routed back to
//! the nodes they concern ([`events`]).  [`root::UIRoot`] runs the passes in
//! their order and keeps what lives across frames: the scroll offsets and
//! the keyboard focus.
//!
//! The engine draws nothing itself and measures no text itself.  It is
//! handed a text metrics provider ([`metrics`]) and hands back drawing
//! commands and the numbers of the handlers to call.
//!
//! Every node is specified by a mathematical model, [`view::NodeView`], and
//! every pass by a function on that model.

pub mod arith;
pub mod common;
pub mod strings;
pub mod keyboard;
pub mod metrics;
pub mod text_rows;
pub mod scroll;
pub mod view;
pub mod sizing;
pub mod raw_text;
pub mod layout;
pub mod text_layout;
pub mod text_input;
pub mod measure;
pub mod position;
pub mod overflow;
pub mod draw;
pub mod events;
pub mod root;
