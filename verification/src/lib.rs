pub mod text;
pub mod model;
pub mod folders;
pub mod tags;
pub mod editor;
pub mod tree;
pub mod naming;
pub mod jobs;
pub mod importing;
pub mod laws;
pub mod drops;
pub mod duplicates;
