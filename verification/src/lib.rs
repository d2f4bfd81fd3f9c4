//! A lossless, persistent syntax tree: an immutable, structurally shared
//! value layer assembled by a stack-disciplined builder, a positioned
//! cursor layer derived from it on demand, and typed views that cast
//! generic cursors into grammar-specific accessors.

pub mod ast;
pub mod builder;
pub mod cursor;
pub mod green;
pub mod kinds;

pub use builder::GreenNodeBuilder;
pub use cursor::SyntaxElement;
pub use cursor::SyntaxNode;
pub use cursor::SyntaxToken;
pub use green::GreenChild;
pub use green::GreenNode;
pub use green::GreenToken;
pub use kinds::PureScript;
pub use kinds::SyntaxKind;
