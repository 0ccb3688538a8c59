//! The parser's side of the front end. The grammar itself is a collaborator
//! outside this crate's core; only the string-part merging that the parser
//! needs lives here.

pub mod string;
