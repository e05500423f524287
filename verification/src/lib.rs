//! A launcher shim carries, appended to its own executable, a trailer that
//! lists the programs it stands for. This crate holds the trailer format, the
//! decoder that recovers the commands from it, and the rules by which the
//! commands are run one after another.

pub mod std_specs;
pub mod wire;
pub mod wire_lemmas;
pub mod image;
pub mod cmds;
pub mod launcher;
pub mod laws;
