pub mod budget;
pub mod guarantees;
pub mod search;
