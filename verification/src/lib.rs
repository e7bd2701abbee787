//! The logic of the Zhtta web server, with its proofs.
//!
//! The server answers requests for a counter page, for dynamic pages whose command is replaced by
//! what it prints, and for static files. Requests for static files wait in a queue that puts small
//! files and clients of certain networks first, and small pages are kept in memory.
//!
//! The library opens no file, no socket and no thread. `server::WebServer` takes events and
//! answers each with an action; `laws` states what holds of it whatever happens.

#![allow(unused_imports)]

pub mod args;
pub mod cache;
pub mod laws;
pub mod outside;
pub mod pages;
pub mod path;
pub mod queue;
pub mod request;
pub mod semaphore;
pub mod server;
pub mod static_file;
pub mod text;
