pub mod material_evaluations;
pub mod search;
