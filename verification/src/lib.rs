//! Small command-line utilities: file hashing with a choice of digest
//! algorithms, and tools that read Minecraft server logs (chronological
//! ordering, death and kill tallies).

pub mod sort;
pub mod text;
pub mod minecraft;
pub mod hasher;
