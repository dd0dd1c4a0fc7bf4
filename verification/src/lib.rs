//! The verified core of kablam, a terminal chat client for local models.

pub mod accumulator;
pub mod agent;
pub mod answers;
pub mod app_model;
pub mod command_palette;
pub mod commands;
pub mod connections;
pub mod draw;
pub mod editing;
pub mod fuzzy;
pub mod generation;
pub mod history;
pub mod input;
pub mod jobs;
pub mod json;
pub mod keys;
pub mod markdown;
pub mod messages;
pub mod model_set;
pub mod order;
pub mod promises;
pub mod replay;
pub mod request;
pub mod router;
pub mod runtime;
pub mod screen;
pub mod session;
pub mod settings;
pub mod startup;
pub mod style;
pub mod text;
pub mod thread;
pub mod transcript;
pub mod upkeep;
