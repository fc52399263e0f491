pub mod backend;
pub mod http_fetcher;
pub mod laws;
