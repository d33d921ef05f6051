//! Completion logic for the ctrmml MML language server and the install
//! logic of its editor extension.

pub mod text;
pub mod context;
pub mod items;
pub mod paths;
pub mod completion;
pub mod documents;
pub mod update_check;
pub mod install;
