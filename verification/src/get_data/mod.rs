pub mod processes;
