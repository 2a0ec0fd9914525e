pub mod text;
pub mod units;
pub mod paths;
pub mod crawler;
pub mod file_crawler;
pub mod crawl;
pub mod tree_renderer;
pub mod autodoc;
pub mod plan;
pub mod crawl_model;
