//! The judgement invoker's verified core: the typed inter-process object
//! codec with its descriptor side channel, the packet framing over a
//! message-preserving socket, the sentinel re-execution protocol, the
//! sandbox construction and teardown plans, the cpuset migration, the test
//! dependency graph, and the submission state machine.

pub mod builtins;
pub mod cgroups;
pub mod codec;
pub mod errors;
pub mod image;
pub mod imp;
pub mod objects;
pub mod package;
pub mod problem;
pub mod program;
pub mod strutil;
pub mod submission;
pub mod subprocess;
pub mod verdict;
pub mod wire;
