//! Scene-hierarchy inspector panel: a tree of named scene nodes with
//! per-node visibility flags, expand/collapse state that survives across
//! redraw frames, and a stable identity for every node derived from its
//! ancestry path.
//!
//! The panel itself is drawn by a host; this crate holds the model and
//! every decision the panel makes each frame: which rows are shown and in
//! what order, which key each row is filed under, and how user events
//! change the state.

pub mod identity;
pub mod node;
pub mod panel;
pub mod render;
pub mod store;

pub use identity::Identity;
pub use node::SceneNode;
pub use panel::{PanelEvent, State, Tab};
pub use render::Row;
pub use store::CollapseStore;
