//! Template helpers: the `format_date` filter's pattern language, record keys
//! and the base URL the templates see.

pub mod strftime;
pub mod tid;
pub mod filters;
