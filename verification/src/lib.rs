//! YamAMVA: a scenario dispatcher for games driven by YAML scenario documents.
//!
//! The library holds the scenario model, the expression language used by `when`
//! conditions and `do` updates, the command registry and the engine that walks a
//! scenario and hands commands to the game.
pub mod text;
pub mod strmap;
pub mod error;
pub mod registry;
pub mod json;
pub mod state;
pub mod lexer;
pub mod expr;
pub mod number;
pub mod evaluator;
pub mod yaml;
pub mod scenario;
pub mod document;
pub mod parser;
pub mod args;
pub mod branch_value;
pub mod scene_ref;
pub mod engine;
pub mod save;
pub mod world;
pub mod host;
pub mod sources;
pub mod facts;

pub use error::YamamvaError;
pub use scene_ref::parse_file_scene_ref;
