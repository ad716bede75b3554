//! Authoritative server core for a real-time multiplayer tank battle:
//! the binary wire protocol, session and authentication management,
//! and the fixed-tick simulation with collision resolution.

pub mod codec;
pub mod collision;
pub mod entities;
pub mod fixed;
pub mod map;
pub mod motion;
pub mod rng;
pub mod session;
pub mod team_code;
pub mod world;
