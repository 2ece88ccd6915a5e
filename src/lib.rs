//! Live regular-expression visualisation: the layering of nested capture
//! spans, syntax colouring of the pattern, the draw plan for a two-field
//! terminal view, and the cache that keeps all of it cheap per keystroke.

pub mod cache;
pub mod change;
pub mod color;
pub mod editor;
pub mod highlight;
pub mod input;
pub mod layering;
pub mod persist;
pub mod render;
pub mod syntax;
pub mod text;

pub use editor::App;
