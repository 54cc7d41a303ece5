pub mod entity;
pub mod entity_component_storage;
