//! Locating compiled-class resources in directories and archives, and reading
//! the fixed-width big-endian integers that class files are made of.
pub mod archive;
pub mod bytecode;
pub mod classpath;
pub mod cmd;
pub mod paths;
pub mod source;
pub mod version;
