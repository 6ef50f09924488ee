//! Collection and search of food-safety sampling notices.

pub mod text;
pub mod time;
pub mod pattern;
pub mod html;
pub mod search;
pub mod codec;
pub mod archive;
pub mod docbin;
pub mod crawl;
pub mod http;
pub mod json;
pub mod config;
pub mod log;
pub mod ocr;
pub mod laws;
