//! Core logic of a cave-flying shooter: destructible terrain and its dynamic
//! cells, level palettes, integer geometry, broadphase object arrays, input and
//! menu state machines, settings, the texture store and force field bookkeeping.

pub mod terrain;
pub mod geometry;
pub mod tile;
pub mod palette;
pub mod objarray;
pub mod dynter;
pub mod controls;
pub mod level;
pub mod dynstep;
pub mod keyicons;
pub mod menu;
pub mod config;
pub mod texture;
pub mod hud;
pub mod physics;
pub mod gamepads;
pub mod texstore;
pub mod forcefield;
pub mod menustack;
pub mod player;
pub mod datapaths;
