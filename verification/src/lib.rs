//! Book club domain logic: book search result merging and deduplication,
//! meeting scheduling rules, edit permissions and authentication decisions.

pub mod text;
pub mod book_search;
pub mod dedup_laws;
pub mod models;
pub mod settings;
pub mod middlewares;
pub mod constants;
pub mod app;
pub mod forms;
pub mod views;
pub mod controllers;
