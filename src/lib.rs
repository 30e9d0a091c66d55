//! Renders block-structured notes into HTML fragments: block and inline-mark
//! rendering, cross-note references and transclusion, tables of contents, and
//! the note link graph.
pub mod text;
pub mod style;
pub mod model;
pub mod resolve;
pub mod marks;
pub mod lang;
pub mod render;
pub mod toc;
pub mod graph;
pub mod page;
pub mod dates;
pub mod comment;
