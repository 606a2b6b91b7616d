//! An index of the classes and functions of Python repositories: syntax
//! trees, what they define and call, a relational store of it, and the call
//! flow from an entry point.

pub mod agents;
pub mod chat;
pub mod db;
pub mod grammar;
pub mod models;
pub mod parser;
pub mod repo;
pub mod sqlite;
pub mod syntax;
pub mod text;
pub mod utils;
