pub mod ast;
pub mod ir;
pub mod lexer;
pub mod minifier;
pub mod parser;

pub use lexer::Lexer;
pub use lexer::tokens::LexingError;
pub use lexer::tokens::Token;
