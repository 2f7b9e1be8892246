//! The decision logic of a small init system for Linux: the boot scripts it
//! loads and starts, the services it supervises, the commands of its control
//! socket, and the way it powers the machine down.
pub mod text;
pub mod path;
pub mod service;
pub mod table;
pub mod control;
pub mod scripts;
pub mod power;
pub mod client;
pub mod simple_boot;
