//! papyrust: turn a folder of Markdown into EPUB and print PDF.
pub mod commands;
pub mod config;
pub mod epub;
pub mod ir;
pub mod markdown;
pub mod parse;
pub mod pdf;
pub mod project;
pub mod text;
pub mod validate;
