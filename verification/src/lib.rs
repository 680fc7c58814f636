//! GPML: a component markup language for declarative user interfaces, with
//! its parser, component resolution and the small UI models around it.
pub mod ast;
pub mod bundled_assets;
pub mod button;
pub mod canvas;
pub mod clipboard;
pub mod component;
pub mod elements;
pub mod error;
pub mod grammar;
pub mod hot_reload;
pub mod json_ui;
pub mod parser;
pub mod parser_nom;
pub mod parser_simple;
pub mod renderer;
pub mod paths;
pub mod search;
pub mod style;
pub mod styled;
pub mod text;
pub mod viewport;
pub mod xml;
