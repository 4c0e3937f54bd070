pub mod adminapi;
pub mod config;
pub mod context;
pub mod error;
pub mod forwarder;
pub mod health;
pub mod http;
pub mod load_balance;
pub mod matcher;
pub mod parse;
pub mod plugins;
pub mod registry;
pub mod router;
pub mod services;
pub mod strutil;
pub mod upstream;
