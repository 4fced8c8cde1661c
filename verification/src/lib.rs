pub mod documents;
pub mod frontmatter;
pub mod glob;
pub mod init;
pub mod listing;
pub mod locate;
pub mod model;
pub mod paths;
pub mod permission;
pub mod plan;
pub mod prompt;
pub mod settings;
pub mod stream;
pub mod text;
pub mod tools;
