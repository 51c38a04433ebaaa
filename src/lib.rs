//! A crawl engine: a depth-ordered frontier of locations, the classification
//! of fetched responses, the per-fetch handler chain and the coordinator that
//! bounds how many fetches run at once.
pub mod application;
pub mod error;
pub mod handler;
pub mod huaban;
pub mod location;
pub mod request;
pub mod url_manager;

pub use application::Scheduler;
pub use error::SpiderError;
pub use handler::Element;
pub use location::Url;
pub use url_manager::BreadthFirstUrlManager;
