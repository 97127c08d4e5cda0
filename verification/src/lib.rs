pub mod ast;
pub mod general;
pub mod ir;
pub mod numbers;
pub mod parser;
pub mod text;
