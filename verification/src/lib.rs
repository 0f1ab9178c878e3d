pub mod ai;
pub mod ai_history;
pub mod conflicts;
pub mod engine;
pub mod generation;
pub mod history;
pub mod paths;
pub mod pattern;
pub mod scan;
pub mod settings;
pub mod steps;
pub mod text;
pub mod types;
