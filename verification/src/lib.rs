//! Translation of paths, arguments and output between Windows path syntax
//! and the mount paths of a Linux subsystem.
//!
//! A tool on the Windows side runs a command inside the subsystem. On the
//! way in, each argument that is a Windows path becomes a mount path
//! (`C:\Users\me` becomes `/mnt/c/Users/me`); on the way out, each mount path
//! in the output becomes a Windows path again. The library holds the rules:
//!
//! - `winpath` reads Windows path syntax;
//! - `encode` turns paths and arguments into mount paths, `decode` turns
//!   mount paths in any text into Windows paths, and `encode_laws`,
//!   `decode_laws` and `roundtrip` state what holds of the two;
//! - `policy` chooses what is done to the output of a sub-command;
//! - `editor` prepares the command of an external editor;
//! - `invocation` builds the arguments and the environment of the child;
//! - `mapping` reads and writes the table of drives and mount points;
//! - `pattern` holds the patterns and the calls into the pattern engine;
//! - `text` holds what the others need of strings.
//!
//! The library reads no file and starts no process. What depends on the disk
//! comes in as an argument: whether a path exists, and where an editor was
//! found.

pub mod decode;
pub mod decode_laws;
pub mod editor;
pub mod encode;
pub mod encode_laws;
pub mod invocation;
pub mod mapping;
pub mod pattern;
pub mod policy;
pub mod roundtrip;
pub mod text;
pub mod winpath;
