//! Packsmith: a compiler from block graphs to Minecraft: Java Edition data
//! packs. A graph is validated (`validate`), lowered to an IR of resources and
//! command lines (`lower`, `compiler`), its command lines are checked against
//! the target's command grammar (`command`), and the IR is laid out as a file
//! tree from target data and packed into a deterministic zip (`emit`).
//! `cli`, `conformance` and `sync` hold the decisions of the command line, the
//! conformance runner, and target data extraction.
pub mod blocks;
pub mod cli;
pub mod codes;
pub mod command;
pub mod compiler;
pub mod conformance;
pub mod emit;
pub mod graph;
pub mod ir;
pub mod json;
pub mod keyed;
pub mod literal;
pub mod lower;
pub mod manifest;
pub mod mcversion;
pub mod message;
pub mod sync;
pub mod text;
pub mod validate;
