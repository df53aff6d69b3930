//! The core of a turn-based arena whose characters are driven by untrusted
//! programs: players hand in modules of portable bytecode, and every turn
//! each module decides, inside a sandbox and on a budget of fuel, what its
//! character does.
//!
//! The parts, from the leaves up:
//!
//! - [`world`]: the vocabulary shared by the arena and the agents.
//! - [`codec`]: the binary contract for every value that crosses the
//!   sandbox boundary.
//! - [`buffer`]: how encoded values are laid out in the one buffer that a
//!   module shares with the host.
//! - [`sandbox`]: the execution engine: compiling modules, giving each a
//!   store of its own, and calling into it.
//! - [`player`]: the contract between host and module, on both sides of the
//!   boundary.
//! - [`fuel`]: the books kept on the fuel that an agent uses.
//! - [`player_hotswap`]: the list of module handles and their states.
//! - [`lifecycle`]: the agents in the arena: how they come, take their
//!   turns, and go.
//! - [`turn`], [`spawning`], [`game_map`], [`rules`], [`board`]: what an
//!   agent sees, what becomes of its action, where agents enter, the rules
//!   of the game around them, and the state of the world they play in.
//! - [`planner`], [`players`]: players to play against.
//! - [`hero`]: a simpler game, a hero in a labyrinth.
//! - [`upload`]: what the server that takes players' modules decides.
//! - [`text`]: working with text character by character.

pub mod board;
pub mod buffer;
pub mod codec;
pub mod fuel;
pub mod game_map;
pub mod hero;
pub mod lifecycle;
pub mod planner;
pub mod player;
pub mod player_hotswap;
pub mod players;
pub mod rules;
pub mod sandbox;
pub mod spawning;
pub mod text;
pub mod turn;
pub mod upload;
pub mod world;
