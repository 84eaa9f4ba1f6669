pub mod function;
pub mod imports;
pub mod instance;
pub mod memory;
pub mod module;
