//! Reads certificates written as nested decimal byte lists (`[[48,130,...],[...]]`)
//! and reports each one as issuer, subject and a PEM block.

pub mod syntax;
pub mod parser;
pub mod pem;
pub mod render;
pub mod report;
