//! The sweep capture process: its command line, its diagnostics and the
//! sweep rows it prints.
pub mod sweep_capture;
pub mod device_manager;
pub mod parser;
pub mod supervisor;
