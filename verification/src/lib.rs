pub mod ast;
pub mod data_as;
pub mod intermediate;
pub mod lexer;
pub mod preprocessor;
pub mod program_as;
pub mod text;
pub mod token;
pub mod util;
