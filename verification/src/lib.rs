//! Verified core of the Darkheim game launcher: credential and address
//! parsing, the file layout under the home directory, download progress
//! accounting, the plan of an SFTP mirror, the Java search and the
//! decisions taken while launching the game.

pub mod text;
pub mod env;
pub mod server;
pub mod progress;
pub mod paths;
pub mod java;
pub mod sync;
pub mod launch;
pub mod report;
