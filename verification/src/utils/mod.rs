//! What a crawl needs beside the service: the sinks, and the line-delimited
//! file that one of them writes.

pub mod message_reader;
pub mod message_saver;
