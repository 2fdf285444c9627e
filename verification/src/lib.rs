//! The verified core of an MCP server for Lean 4 projects.
//!
//! Every tool is a conversation: it asks for something ([`protocol::Request`]),
//! is told the outcome ([`protocol::Reply`]), and ends with a result. What a tool
//! asks for and what it ends with is stated as a [`protocol::Dialogue`].

pub mod error;
pub mod ids;
pub mod json;
pub mod lists;
pub mod models;
pub mod order;
pub mod patterns;
pub mod position;
pub mod protocol;
pub mod server;
pub mod service;
pub mod text;
pub mod tools;
