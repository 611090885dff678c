//! Entity-relationship diagrams: automatic grid layout of tables and
//! orthogonal routing of relationship lines, rendered as SVG.
pub mod error;
pub mod export;
pub mod ir;
pub mod layout;
pub mod render;
pub mod style;
