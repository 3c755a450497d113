pub mod archive;
pub mod encoding;
pub mod paths;
pub mod text;
pub mod xml;
pub mod extract;
pub mod rtf_scan;
pub mod formats;
pub mod parser;
pub mod numbers;
pub mod config;
pub mod database;
pub mod glob;
pub mod watcher;
pub mod indexer;
pub mod http;
pub mod rpc;
pub mod api;
pub mod gui;
pub mod logging;
pub mod shutdown;
pub mod server;
