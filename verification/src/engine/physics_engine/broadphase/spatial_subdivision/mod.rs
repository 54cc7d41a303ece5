pub mod cell_id;
pub mod cell_passes;
pub mod cell_runs;
pub mod cell_sort;
pub mod cell_type;
pub mod object_id;
pub mod spatial_subdivision;
