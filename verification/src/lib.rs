//! The verified core of a UEFI boot loader: GPT parsing, the partition-table
//! scan, configuration checks, ELF kernel lookup and the messages it prints.
pub mod bytes;
pub mod engine;
pub mod tool;
pub mod panic;
pub mod boot;
