//! A static site generator's page logic: front matter, escaping, dates,
//! callouts, code blocks, listings, and the generated HTML, XML and JSON-LD
//! documents.
pub mod text;
pub mod utils;
pub mod frontmatter;
pub mod render;
pub mod highlight;
pub mod site;
pub mod init;
pub mod ssg;
pub mod serve;
pub mod images;
pub mod listing;
pub mod publish;
