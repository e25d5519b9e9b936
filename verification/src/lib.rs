//! Scoped style sheets for component-based user interfaces.
//!
//! A component declares its style once as a [`Style`]. The engine derives a
//! class-name prefix from the component's kind, turns the declaration into CSS
//! rule text whose class selectors carry that prefix, and hands the rules out
//! for insertion exactly once per component kind.

pub mod debug;
pub mod equality;
pub mod identity;
pub mod laws;
pub mod registry;
pub mod render;
pub mod selector;
pub mod style;
pub mod styled;
pub mod text;

pub use registry::{Injection, Registry};
pub use style::Style;
pub use styled::Styled;
