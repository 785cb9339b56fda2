//! Parsing support for a TypeScript/JavaScript formatter: resolving the
//! syntax a file is parsed with from its name, creating display specifiers
//! for paths, rendering syntax diagnostics, and compiling the import group
//! configuration.

pub mod text;
pub mod syntax;
pub mod path;
pub mod text_info;
pub mod diagnostics;
pub mod import_groups;
pub mod parse;
pub mod format;
