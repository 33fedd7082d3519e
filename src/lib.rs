pub mod input;
pub mod action;
pub mod tracker;
pub mod registry;
pub mod processor;
pub mod runner;
pub mod config;
pub mod gaming;
