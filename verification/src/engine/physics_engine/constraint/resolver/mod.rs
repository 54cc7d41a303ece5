pub mod inelastic;
pub mod none;
