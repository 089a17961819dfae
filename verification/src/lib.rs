//! Terminal selection, agent launch planning and model catalog rules
//! for a launcher of Ollama coding agents.

pub mod text;
pub mod commands;
pub mod launch;
pub mod models;
pub mod order;
pub mod process;
pub mod terminal;
