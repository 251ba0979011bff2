//! The rules of the render pipeline: what gets rendered, where it goes and
//! when a cached output can be kept.

pub mod pagination;
pub mod feeds;
pub mod listing;
pub mod plan;
pub mod posts;
