//! The core of a small windowing system: geometry, pixel buffers, glyph
//! rendering, a document database, the window manager's bookkeeping and the
//! decisions of its two window managers (one that only keeps a screen in
//! memory, one that composes frames for a display), the central server's
//! message routing, a clock face and a few toolkit pieces.

pub mod geom;
pub mod color;
pub mod ids;
pub mod graphics;
pub mod text;
pub mod assoc;
pub mod db;
pub mod wm;
pub mod protocol;
pub mod central;
pub mod headless;
pub mod platform;
pub mod toolkit;
pub mod screen;
pub mod font;
pub mod logger;
pub mod clock;
pub mod runner;
pub mod surf;
pub mod linuxwm;
