//! The site configuration (`bckt.yaml`) and its checks.

pub mod date_format;
pub mod model;
pub mod search;
pub mod timezone;

pub use crate::post::project::find_project_root;
pub use model::Config;
pub use search::{SearchConfig, SearchLanguageConfig};
