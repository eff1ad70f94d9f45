//! A language server for the dependency lists of Elixir `mix.exs` files.

pub mod completion;
pub mod deps;
pub mod hover;
pub mod install;
pub mod json;
pub mod laws;
pub mod lists;
pub mod pattern;
pub mod release;
pub mod server;
pub mod state;
pub mod text;
pub mod version;
