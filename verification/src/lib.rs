//! Front-matter parsing, Notion property mapping and the sync protocol of
//! the `ons` command line tool, with their contracts.

pub mod config;
pub mod frontmatter;
pub mod keyed;
pub mod laws;
pub mod notion;
pub mod parse_laws;
pub mod path;
pub mod sync;
pub mod text;
