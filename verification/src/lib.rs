//! Sorting files into category folders by their extension.
//!
//! [`classifier`] names the category of a file from the ruleset of
//! [`config`], and [`ops`] decides, step by step, how a file is moved into its
//! category folder without overwriting anything. The library touches no disk:
//! it works on paths as text ([`path_text`]) and on what its caller reports of
//! the file system. [`disk`] holds a model of the disk and the laws that the
//! relocations of [`ops`] obey on it.

pub mod casing;
pub mod classifier;
pub mod config;
pub mod disk;
pub mod ops;
pub mod path_text;
