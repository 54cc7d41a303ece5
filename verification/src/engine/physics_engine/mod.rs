pub mod broadphase;
pub mod collision;
pub mod constraint;
pub mod narrowphase;
