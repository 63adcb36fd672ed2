//! A document engine: a scene tree of visual nodes with style records, a
//! dirty-flag protocol, the build and apply phases of a flexbox layout, pointer
//! hit-testing and the operations that scripts use to read and change the tree.

pub mod text;
pub mod children;
pub mod color;
pub mod style;
pub mod event;
pub mod scene;
pub mod layout;
pub mod dispatch;
pub mod xml;
pub mod parser;
pub mod capsule;
pub mod render;
