//! Filament: the verified core of a keyboard-driven mind-map canvas.
//!
//! The canvas is a forest of labelled nodes with links between them.  This
//! crate holds the data model, the tree operations, the layout, the link
//! router, the text-buffer editing and the interaction state machine; the
//! terminal front-end, the file system and the database live outside it.

pub mod models;
pub mod forest;
pub mod persistence;
pub mod mode;
pub mod app;
pub mod text;
pub mod buffer;
pub mod ops;
pub mod clock;
pub mod duration;
pub mod managed;
pub mod reparent;
pub mod input;
pub mod canvas;
pub mod goto;
pub mod prefix;
pub mod widgets;
pub mod query;
pub mod archive;
pub mod layout;
pub mod menu;
pub mod start_menu;
pub mod help;
pub mod menu_confirm;
pub mod project_list;
pub mod warp;
pub mod store;
pub mod check;
pub mod project;
pub mod status_bar;
pub mod statistics;
pub mod editing;
pub mod titlebar;
pub mod canvas_view;
pub mod start_screen;
pub mod archive_view;
pub mod keymap;
pub mod dispatch;
pub mod theme;
