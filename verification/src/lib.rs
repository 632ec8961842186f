//! The core of a terminal PDF reader with vim keys.
//!
//! Everything here works on plain values: viewports, key presses, command
//! lines, split trees, caches of pixels and bytes. Reading files, rendering
//! pages and writing to the terminal is left to the program around it.
pub mod number;
pub mod text;
pub mod numeral;
pub mod paths;
pub mod viewport;
pub mod document;
pub mod navigator;
pub mod navigator_laws;
pub mod keys;
pub mod keys_laws;
pub mod command_table;
pub mod commands;
pub mod commands_laws;
pub mod command_lines;
pub mod lua;
pub mod lua_laws;
pub mod lua_reading_laws;
pub mod docstate;
pub mod docstate_laws;
pub mod buffer;
pub mod explorer;
pub mod tmux;
pub mod sixel_write;
pub mod terminal;
pub mod capabilities;
pub mod timings;
pub mod window;
pub mod window_laws;
pub mod picture;
pub mod cache;
pub mod encoded_cache;
pub mod ecache_fill;
pub mod cache_laws;
pub mod renderer;
pub mod frame_laws;
pub mod pool;
pub mod workspace;
pub mod splits;
pub mod opening;
pub mod reading;
pub mod jump_laws;
pub mod browsing;
pub mod dispatch;
pub mod workspace_laws;
pub mod screen;
pub mod lists;
pub mod palette;
pub mod explorer_laws;
pub mod sidecar_laws;
pub mod searching;
pub mod reading_laws;
pub mod status;
pub mod session;
pub mod session_laws;
pub mod messages;
pub mod control;
pub mod execution;
pub mod painting;
pub mod events;
pub mod control_laws;
pub mod screen_laws;
pub mod headless;
pub mod export;
pub mod headless_laws;
pub mod choice_laws;
pub mod flow_laws;
pub mod view_laws;
