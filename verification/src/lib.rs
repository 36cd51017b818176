pub mod catalog;
pub mod commands;
pub mod error;
pub mod naming;
pub mod order;
mod table;
pub mod text;
pub mod web;
