pub mod date;
pub mod plan;
pub mod text;
