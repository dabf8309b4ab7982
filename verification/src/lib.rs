//! AsciiDoc support for Zensical sites: Asciidoctor command-line planning and
//! the post-processing that makes Asciidoctor HTML match the Material theme.
//!
//! `config` and `renderer` describe and interpret `asciidoctor` runs; `html`,
//! `transform` and `xref` rewrite the produced HTML. `text`, `pattern`,
//! `blocks`, `dom` and `paths` hold the string, regular-expression, block,
//! element-selection and path machinery they share.

pub mod blocks;
pub mod config;
pub mod dom;
pub mod html;
pub mod paths;
pub mod pattern;
pub mod renderer;
pub mod text;
pub mod transform;
pub mod xref;

pub use config::Config;
