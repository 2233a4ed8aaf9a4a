//! Desktop icon organizer.

pub mod color;
pub mod desktop;
pub mod desktop_laws;
pub mod drawing_laws;
pub mod event_laws;
pub mod frame_laws;
pub mod geometry;
pub mod hook;
pub mod input_laws;
pub mod launch;
pub mod layout;
pub mod layout_laws;
pub mod list_laws;
pub mod paint;
pub mod paint_laws;
pub mod panel;
pub mod pixels;
pub mod place_laws;
pub mod renderer;
pub mod renderer_laws;
pub mod saved;
pub mod saved_laws;
pub mod scanner;
pub mod scroll;
pub mod settings;
pub mod single;
pub mod text;
