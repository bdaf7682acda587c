//! Whitehall: a transpiler from `.wh` component files to Kotlin.

pub mod text;
pub mod ast;
pub mod analyzer;
pub mod optimizer;
pub mod parser;
pub mod view;
pub mod recyclerview;
pub mod compose;
pub mod compose_imports;
pub mod stores;
pub mod compose_scan;
pub mod compose_text;
pub mod compose_modifiers;
pub mod compose_props;
pub mod compose_components;
pub mod compose_markup;
pub mod compose_wrapper;
pub mod compose_backend;
pub mod markup_scan;
pub mod compose_body;
pub mod compose_generate;
pub mod codegen;
pub mod markup_grammar;
pub mod transpile;
