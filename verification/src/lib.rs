//! The state, layout and text logic of a terminal review interface.
//!
//! The library is a pure function of snapshots, key and mouse events: it decides which
//! pane is where, what each line says and how the interface state moves. Drawing the
//! lines and reading the terminal are left to the program around it.

pub mod action;
pub mod action_laws;
pub mod app;
pub mod app_laws;
pub mod bar_laws;
pub mod canvas;
pub mod canvas_grid;
pub mod canvas_scene;
pub mod chrome;
pub mod copy_laws;
pub mod diagram;
pub mod diagram_canvas;
pub mod diagram_laws;
pub mod diagram_layout;
pub mod diagram_view;
pub mod dialog;
pub mod diff_laws;
pub mod diff_pane;
pub mod diff_view;
pub mod divider;
pub mod drawing_laws;
pub mod elide;
pub mod event;
pub mod file_rows;
pub mod files_pane;
pub mod geometry;
pub mod hit_laws;
pub mod impact_view;
pub mod intent_laws;
pub mod intraline;
pub mod key_laws;
pub mod layout;
pub mod layout_laws;
pub mod mark_laws;
pub mod mouse;
pub mod mouse_laws;
pub mod num;
pub mod pane_laws;
pub mod path_laws;
pub mod plan;
pub mod rect;
pub mod render;
pub mod review;
pub mod review_laws;
pub mod route_laws;
pub mod scene_laws;
pub mod screen_laws;
pub mod scroll;
pub mod snapshot;
pub mod split;
pub mod style;
pub mod table;
pub mod text;
pub mod text_laws;
pub mod tree_pane;
pub mod update_laws;
pub mod viewport;
pub mod wrap;

pub use action::{map_key, Action, PlanNodeTarget};
pub use app::{App, Pane, UiPreferences};
pub use divider::{DividerId, DividerSizes};
pub use render::render;
pub use snapshot::UiSnapshot;
