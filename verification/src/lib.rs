pub mod dash;
pub mod distance;
pub mod frontier;
pub mod graph;
pub mod kevinbacon;
pub mod laws;
pub mod levels;
pub mod par;
pub mod repo;
pub mod schemas;
