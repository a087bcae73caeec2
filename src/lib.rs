//! Navigation and traversal over a plain-data picture of a package: mapping a
//! cursor position to a definition, and listing the public function API.
pub mod text;
pub mod tokens;
pub mod resolve;
pub mod walker;
pub mod query;
