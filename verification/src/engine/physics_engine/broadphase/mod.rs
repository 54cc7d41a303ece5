pub mod blockmap;
pub mod occupancy;
pub mod spatial_subdivision;
