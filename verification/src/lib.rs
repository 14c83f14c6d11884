//! A crawler for the messages of chat channels, without the input and
//! output: it writes the requests to the service, reads the answers, decides
//! what a crawl does next, and says how the messages are kept. A caller
//! sends the requests, waits and writes what it is told to.

pub mod decimal;
pub mod discord_api;
pub mod json;
pub mod scraper;
pub mod seconds;
pub mod utils;
