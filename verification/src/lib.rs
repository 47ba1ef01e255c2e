use vstd::prelude::*;

pub mod text;
pub mod lines;
pub mod editor;
pub mod view;
pub mod rank;
pub mod input;
pub mod stars;
pub mod appearance;
pub mod width;
pub mod theme;
pub mod commands;
pub mod tui;
pub mod popup;
pub mod mouse;
pub mod whichkey;
pub mod web;
pub mod framing;
pub mod mcp;
pub mod deepseek;
pub mod syntax;
pub mod markdown;
pub mod trust;
pub mod paint;
pub mod screen;
pub mod instructions;
pub mod session;
