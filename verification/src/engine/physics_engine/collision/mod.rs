pub mod collision_candidates;
pub mod collision_graph;
pub mod identity_collision_handler;
