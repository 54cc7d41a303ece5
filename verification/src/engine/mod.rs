pub mod entity;
pub mod entity_component_storage;
pub mod event;
pub mod game_engine;
pub mod physics_engine;
