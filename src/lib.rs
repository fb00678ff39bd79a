pub mod codec;
pub mod entity_map;
pub mod events;
pub mod game;
pub mod reconcile;
pub mod resources;
pub mod rules;
pub mod session;
pub mod types;
pub mod world;
