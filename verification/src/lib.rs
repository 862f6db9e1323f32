//! Core logic of a tile-based colony simulation: the shared world data,
//! the storage grid, the entity environment, the entity AI, timers and
//! tick bookkeeping, the window and frame layout of the user interface,
//! and the pixel universe of the physics engine.

pub mod structs;
pub mod channel;
pub mod usage;
pub mod storage_thread;
pub mod entity_thread;
pub mod environment_thread;
pub mod mapmemory;
pub mod human;
pub mod timer;
pub mod tick;
pub mod frame;
pub mod splitter;
pub mod window;
pub mod windowmanager;
pub mod manager;
pub mod button;
pub mod buttonmenu;
pub mod map_input;
pub mod mapframe;
pub mod mapdraw;
pub mod timecontrols;
pub mod inspector;
pub mod broadcaster;
pub mod viewport;
pub mod ui_old;
pub mod text;
pub mod sdl2_ttf;
pub mod engine;
