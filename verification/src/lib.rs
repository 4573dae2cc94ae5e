pub mod auth;
pub mod config;
pub mod document;
pub mod error;
pub mod handlers;
pub mod helpers;
pub mod json;
pub mod models;
pub mod pdf;
pub mod services;
pub mod state;
pub mod storage;
pub mod template;
pub mod text;
pub mod utils;
