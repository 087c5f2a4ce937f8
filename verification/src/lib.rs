pub mod evaluate;
pub mod evaluations;
pub mod rules;
pub mod score;
