pub mod args;
pub mod budget;
pub mod run;
