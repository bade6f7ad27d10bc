//! The logic of the command-line tool: errors, configuration defaults, color
//! argument syntax, external color pickers and the commands' decisions.
pub mod app;
pub mod color_mode;
pub mod colorpicker_tools;
pub mod commands;
pub mod error;
pub mod hdcanvas;
pub mod parser;
pub mod show;
