//! A content model and reflow/navigation engine for reading packaged books in
//! a character grid: markup is flattened into chapter text with style and link
//! metadata, wrapped into display lines, indexed, searched and navigated.

pub mod book;
pub mod compose;
pub mod extract;
pub mod line_index;
pub mod links;
pub mod render;
pub mod search;
pub mod session;
pub mod style;
pub mod text;
pub mod view;
pub mod width;
pub mod wrap;
pub mod xml;
