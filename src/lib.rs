//! Extracts class structure from decoded JVM class records and links it into
//! a class diagram document, with every step stated and proved.

pub mod text;
pub mod descriptor;
pub mod namespace;
pub mod diagram;
pub mod classfile;
pub mod config;
pub mod assemble;
pub mod serialize;
