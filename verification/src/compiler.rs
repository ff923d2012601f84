pub mod parser;
pub mod readchars;
