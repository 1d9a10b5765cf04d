pub mod extensions;
pub mod graph;
pub mod measure;
pub mod text;
pub mod tree_arena;
