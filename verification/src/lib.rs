//! Recovery of chunk entries in Minecraft "Anvil" region files.
//!
//! A region file stores up to 1024 compressed chunk payloads, addressed by a
//! 1024-slot header table at the start of the file. When the header is
//! damaged, the payloads usually still sit intact in later sectors. This
//! crate scans the raw sector stream for plausible payloads, has a
//! decoder collaborator supplied by the caller read the chunk coordinates
//! out of each, groups the candidates by the header slot those
//! coordinates map to, reconciles them with what the header currently
//! records, and rewrites the header where a recovery target was found.

pub mod codec;
pub mod coords;
pub mod entry;
pub mod parse;
pub mod recover;
pub mod resolve;
pub mod scan;
