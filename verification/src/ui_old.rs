//! The first window manager of the interface: bordered windows over a root
//! frame, with a focus lock that holds events on one frame.
pub mod windowframe;
pub mod windowmanager;
