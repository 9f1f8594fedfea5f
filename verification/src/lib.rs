pub mod agent;
pub mod ansi;
pub mod answer;
pub mod archive;
pub mod assemble;
pub mod calendar;
pub mod carried;
pub mod catalogue;
pub mod clock;
pub mod content;
pub mod conversation;
pub mod daemon;
pub mod deploy_client;
pub mod deploy_run;
pub mod event_render;
pub mod history;
pub mod json;
pub mod keyed;
pub mod launch;
pub mod opencode_go;
pub mod opencode_stream;
pub mod paths;
pub mod plan;
pub mod preset_language;
pub mod remote_agent;
pub mod schedule;
pub mod schedule_cli;
pub mod schedule_presets;
pub mod scheduler;
pub mod secrets;
pub mod seed;
pub mod streamed;
pub mod text;
pub mod turn;
pub mod types;
