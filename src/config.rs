//! Settings read once at startup.

use vstd::prelude::*;
use vstd::string::StringExecFns;

verus! {

/// How log records are written: length-framed binary, or one text line each.
#[derive(Debug, PartialEq, Eq, Structural, Copy, Clone)]
pub enum DiskFormat {
    Bin,
    CSV,
}

/// Where the log lives, its format, the port to listen on and the number of
/// workers.
#[derive(Debug)]
pub struct Config {
    pub file_name: String,
    pub file_format: DiskFormat,
    pub port: u32,
    pub threads: usize,
}

impl Default for Config {
    /// A binary log in `./db.bin`, port 4000, four workers.
    fn default() -> (r: Config)
        ensures
            r.file_name@ == "./db.bin"@,
            r.file_format == DiskFormat::Bin,
            r.port == 4000,
            r.threads == 4,
    {
        Config {
            file_name: String::from_str("./db.bin"),
            file_format: DiskFormat::Bin,
            port: 4000,
            threads: 4,
        }
    }
}

} // verus!
