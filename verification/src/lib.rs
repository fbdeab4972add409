//! Shared-library dependency resolution for ELF binaries, with the search
//! rules of the dynamic loader stated as contracts.
//!
//! The library reads no file itself. A [`session::Session`] names what it
//! needs to know from the file system next, and the caller answers; the
//! report is complete when the session asks for nothing more.

pub mod elf;
pub mod laws;
pub mod ldconf;
pub mod notes;
pub mod paths;
pub mod progress;
pub mod report;
pub mod request;
pub mod resolver;
pub mod search;
pub mod session;
pub mod text;

pub use elf::{ElfArch, ElfMachine, ElfMetadata, ElfType};
pub use report::{Config, PlatformConfigKind, RlddRexInfo};
pub use notes::Warning;
pub use request::Request;
pub use session::{rldd_rex, Session};
