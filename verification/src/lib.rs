//! A minimal virtual machine for a class-file based bytecode format.
//!
//! Bytes are decoded into a [`class_file::ClassFile`], linked into a
//! [`linker::RuntimeClass`], kept in a [`registry::ClassRegistry`] and run by
//! the interpreter in [`interp`]:
//!
//! - [`reader`] and [`decode`] read big-endian fields from a byte slice;
//! - [`text`] decodes the modified UTF-8 of text constants, and [`mutf8`]
//!   states which bytes it accepts;
//! - [`constant_pool`], [`class_file`] and [`code`] decode the parts of a
//!   class file, and [`truncation`] says what they make of an input that
//!   was cut short;
//! - [`linker`] resolves the indices of a class file, [`registry`] holds the
//!   linked classes, [`lookup`] finds a method by name, and [`loader`] goes
//!   from bytes to a class in the registry;
//! - [`interp`] runs a method.
//!
//! Every function carries a contract over a mathematical model of the data
//! it handles ([`model`]), and every contract is machine-checked.

pub mod class_file;
pub mod code;
pub mod constant_pool;
pub mod decode;
pub mod interp;
pub mod linker;
pub mod loader;
pub mod lookup;
pub mod model;
pub mod mutf8;
pub mod reader;
pub mod registry;
pub mod text;
pub mod truncation;
