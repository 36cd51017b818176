pub mod list;
pub mod new;
