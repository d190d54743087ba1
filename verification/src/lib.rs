//! Diagram source text in, diagram documents out.
pub mod diag;
pub mod dot;
pub mod drawio;
pub mod escape;
pub mod excalidraw;
pub mod ir;
pub mod keywords;
pub mod layout;
pub mod lines;
pub mod lsp;
pub mod mark;
pub mod measure;
pub mod mermaid;
pub mod offsets;
pub mod parts;
pub mod plantuml;
pub mod position;
pub mod pptx;
pub mod sound;
pub mod svg;
pub mod table;
pub mod term;
pub mod text;
pub mod wasm;
pub mod zip;
