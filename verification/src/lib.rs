//! Triton: a C++ project manager that wires CMake and vcpkg together.
//! This crate holds the verified core: the project model, the rules that
//! check and edit it, and the generators of CMake text.

pub mod text;
pub mod models;
pub mod util;
pub mod cmake;
pub mod templates;
pub mod commands;
pub mod cli;
pub mod tools;
