//! Gob: a package manager that installs prebuilt binaries listed in a
//! plain-text package index.
pub mod text;
pub mod package;
pub mod parse_pkg_index;
pub mod search;
pub mod extract;
pub mod mk_symlink;
pub mod getpkg;
pub mod cli;
pub mod displaypkginfdo;
pub mod ndraey_dm_custom;
