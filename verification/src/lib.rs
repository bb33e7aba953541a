pub mod text;
pub mod numbers;
pub mod trajectory;
pub mod trajectory_laws;
pub mod orchestrator;
pub mod tools;
pub mod prompt;
pub mod scaling;
pub mod rate_limit;
pub mod config;
pub mod auth;
pub mod conversations;
pub mod grammar;
pub mod tool_agents;
pub mod tts;
pub mod store;
pub mod audio;
pub mod tool_params;
