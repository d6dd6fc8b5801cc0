//! A streaming JSON engine that works directly on a byte buffer.
//!
//! Nothing is parsed into a tree: a cursor walks the bytes, and validation,
//! minification and key-path extraction are sequences of cursor operations.
//! Every value that is handed out is a half-open range of offsets into the
//! buffer.
//!
//! `grammar` says what a JSON text is. `descent` says what a reader finds
//! that goes forward through the bytes, failures included, and `agreement`
//! proves that the two say the same. `reader` holds the cursor and the
//! shallow reading operations. `bounding` proves that on well-formed input
//! they end a value where the grammar does, and `lookup` that a key is found
//! at the level of the object that is searched. `validation`, `minify` and
//! `engine` are the services, `query` splits a key path, and `result` holds
//! what is reported.

pub mod agreement;
pub mod bounding;
pub mod bytes;
pub mod descent;
pub mod engine;
pub mod grammar;
pub mod lookup;
pub mod minify;
pub mod query;
pub mod reader;
pub mod result;
pub mod validation;
