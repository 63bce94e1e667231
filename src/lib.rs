//! Two leaf primitives of a binary RPC client: a length-prefixed frame codec
//! and a tokenizer that splits a Type Language schema into definitions.
pub mod definition;
pub mod text;
pub mod tl_iterator;
pub mod transport;

pub use definition::{Category, Definition, ParseError};
pub use tl_iterator::TLIterator;
pub use transport::{FrameError, TransportIntermediate, MAXIMUM_DATA};
