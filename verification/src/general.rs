pub mod path;
pub mod types;
