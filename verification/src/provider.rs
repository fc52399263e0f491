pub mod cloudflare;
pub mod types;
