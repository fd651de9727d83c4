//! Front end and object core of a small dynamic language: a tokenizer that
//! tracks source positions and indentation blocks, and prototype-based
//! runtime objects with lazily allocated metadata.

pub mod classes;
pub mod grammar;
pub mod lexer;
pub mod machine;
pub mod object;
pub mod space;
pub mod stream;
pub mod text;
pub mod token;
