//! A declarative description of a directory tree, and the order in which
//! its directories and files are brought onto a filesystem.
//!
//! A tree is put together from [`directory::DirectoryBuilder`] nodes and
//! [`file::FileBuilder`] descriptors. Nothing here touches a filesystem: a
//! [`run::Run`] hands out one request at a time, the caller carries it out
//! and hands back the answer. [`course`] states which requests a build makes
//! under every way in which they may be answered, and [`laws`] what follows
//! from that for every tree.

pub mod course;
pub mod directory;
pub mod file;
pub mod laws;
pub mod path;
pub mod plan;
pub mod run;
