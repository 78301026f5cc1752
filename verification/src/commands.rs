//! The decisions behind the command-line commands; the caller performs the
//! file system and process work they call for.

pub mod edit;
pub mod script;
pub mod link;
pub mod remove;
pub mod add;
pub mod generate;
pub mod install;
pub mod run;
pub mod init;
pub mod cmake_install;
pub mod build_cmd;
