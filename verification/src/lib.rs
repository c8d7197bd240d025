pub mod device;
pub mod engine;
pub mod hex;
pub mod kernel;
pub mod layout;
pub mod pad;
pub mod words;
