//! Update-and-render core of a small side-scrolling arcade game.
//!
//! A registry owns one component per concrete kind (the player, the obstacle
//! set, the backdrop), updates every component once per tick, evaluates the
//! score rule, and schedules draw calls in fixed layer order. The host game
//! loop performs the actual input, physics and rendering work and hands the
//! outcomes back; everything the core decides about registration, lookup,
//! scheduling and scoring is specified and proved here.

pub mod components;
pub mod game_state;
pub mod laws;
