// A static-site build pipeline: content discovery rules, front matter
// parsing, markdown rendering, output-path routing, tag indexing,
// pagination, and the orchestration of one whole build.

pub mod config;
pub mod dates;
pub mod document;
pub mod errors;
pub mod frontmatter;
pub mod operations;
pub mod order;
pub mod paginate;
pub mod paths;
pub mod plan;
pub mod render;
pub mod tags;
pub mod text;
