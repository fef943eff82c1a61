pub mod text;
pub mod compiler;
pub mod name_map;
pub mod types;
pub mod storage;
pub mod net;
pub mod repl;
pub mod expr;
pub mod parser;
