//! Library side of a Minecraft launcher: the rules that decide which
//! libraries, assets and Java runtimes an instance needs, where every file
//! goes on disk, and how downloads are checked.

pub mod launcher;
pub mod task;
pub mod text;
pub mod ui;
