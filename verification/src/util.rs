//! Helpers shared by the commands: model queries, validation, CMake quoting,
//! vcpkg package matching and placeholder expansion.

pub mod validation;
pub mod cmake_helpers;
pub mod vcpkg;
pub mod files;
pub mod vars;
