//! Core logic of a small cluster service.
pub mod omega;
pub mod text;
pub mod args;
pub mod keyed;
pub mod rpc;
pub mod request;
pub mod gui;
pub mod install;
pub mod service;
pub mod order;
pub mod urn;
