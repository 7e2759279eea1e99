//! Widget core of a retained-mode GUI toolkit: an entity property store with
//! reference bindings, a widget tree, per-widget state with an init / update
//! lifecycle, key-event dispatch and the password box widget template.

pub mod store;
pub mod tree;
pub mod password_box;
pub mod world;
