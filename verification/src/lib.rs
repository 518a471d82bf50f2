//! An in-memory service that tracks multiplayer game sessions and keeps
//! auxiliary string data under hashed lookup keys.
//!
//! * [`game_logic`]: players, games and the lifecycle of a game.
//! * [`security`]: the key digest and the store indexed by it.
//! * [`api`]: the registry that owns the games and one store.

pub mod api;
pub mod game_logic;
pub mod security;
