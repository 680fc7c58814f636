//! A user interface described by JSON documents: their model, the
//! resolution of references and properties, and the watching of the files.
pub mod canvas;
pub mod hot_reload;
pub mod parser;
pub mod renderer;
pub mod schema;
