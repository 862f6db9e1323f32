//! A pixel universe on a grid of lazily loaded storage cells, and the physics
//! that runs game rules over it tick by tick.
pub mod universe;
pub mod gamerules;
pub mod behavior;
pub mod physics;
pub mod gamerules_test;
